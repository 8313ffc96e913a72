use icechat::frame::{encode_packet, split_fragments, Fragmentable, MAX_LEN};

#[test]
fn send_fragments_receive_defragments() {
    let data: Vec<u8> = (0..6000u32).map(|i| (i % 256) as u8).collect();
    let packet = encode_packet(&data);
    assert_eq!(packet.len(), 6004);

    let fragments = split_fragments(&packet);
    assert_eq!(fragments.len(), 2);
    assert_eq!(fragments[0].len(), MAX_LEN);
    assert_eq!(fragments[1].len(), (6000 - 4096) + 4);

    let mut rx = Fragmentable::new();
    rx.feed(&fragments[0]);
    assert!(!rx.read_ready());
    rx.feed(&fragments[1]);
    assert!(rx.read_ready());
    assert_eq!(rx.next_packet_len(), 6000);
    let data_back = rx.consume();
    assert_eq!(data_back, data);
    assert!(!rx.read_ready());
}

#[test]
fn receiving_two_packets_in_one_recv() {
    let mut rx = Fragmentable::new();
    rx.feed(&vec![0, 0, 0, 1, 10, 0, 0, 0, 1, 11]);
    assert!(rx.read_ready());
    assert_eq!(rx.consume(), vec![10]);
    assert!(rx.read_ready());
    assert_eq!(rx.consume(), vec![11]);
    assert!(!rx.read_ready());
}

#[test]
fn byte_dribble_reassembles() {
    let data: Vec<u8> = vec![7, 8, 9];
    let packet = encode_packet(&data);
    let mut rx = Fragmentable::new();
    for byte in packet {
        rx.feed(&vec![byte]);
    }
    assert!(rx.read_ready());
    assert_eq!(rx.consume(), data);
}
