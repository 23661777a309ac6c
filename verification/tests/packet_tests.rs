use serie_usb::packet::{packetize, reassemble, Packet, MAX_PAYLOAD, PACKET_SIZE};

fn lengths(packets: &[Packet]) -> Vec<usize> {
    packets.iter().map(|p| p.len()).collect()
}

#[test]
fn packet_sizes() {
    assert_eq!(PACKET_SIZE, 8);
    assert_eq!(MAX_PAYLOAD, 7);
}

#[test]
fn packet_takes_up_to_seven_bytes() {
    assert_eq!(Packet::new(&[]).unwrap().payload(), &[] as &[u8]);
    assert_eq!(Packet::new(&[1, 2, 3]).unwrap().payload(), &[1, 2, 3]);
    assert_eq!(Packet::new(&[1, 2, 3, 4, 5, 6, 7]).unwrap().len(), 7);
}

#[test]
fn packet_refuses_eight_bytes() {
    assert!(Packet::new(&[1, 2, 3, 4, 5, 6, 7, 8]).is_none());
}

#[test]
fn packet_from_wire_takes_the_counted_bytes() {
    let packet = Packet::from_wire(&[3, 10, 11, 12, 99, 98, 97, 96]).unwrap();
    assert_eq!(packet.payload(), &[10, 11, 12]);
    let full = Packet::from_wire(&[7, 1, 2, 3, 4, 5, 6, 7]).unwrap();
    assert_eq!(full.payload(), &[1, 2, 3, 4, 5, 6, 7]);
    let empty = Packet::from_wire(&[0, 1, 2, 3, 4, 5, 6, 7]).unwrap();
    assert_eq!(empty.len(), 0);
}

#[test]
fn packet_from_wire_refuses_a_count_above_seven() {
    assert!(Packet::from_wire(&[8, 0, 0, 0, 0, 0, 0, 0]).is_none());
    assert!(Packet::from_wire(&[0xff; 8]).is_none());
}

#[test]
fn packet_to_wire_puts_the_count_first() {
    assert_eq!(Packet::new(&[0x41, 0x42]).unwrap().to_wire(), vec![2, 0x41, 0x42]);
    assert_eq!(Packet::new(&[]).unwrap().to_wire(), vec![0]);
}

#[test]
fn wire_form_reads_back() {
    let packet = Packet::new(&[9, 8, 7, 6]).unwrap();
    let mut raw = [0u8; 8];
    let wire = packet.to_wire();
    raw[..wire.len()].copy_from_slice(&wire);
    assert_eq!(Packet::from_wire(&raw).unwrap(), packet);
}

#[test]
fn packetize_nothing_gives_no_packet() {
    assert!(packetize(&[]).is_empty());
}

#[test]
fn packetize_cuts_in_sevens() {
    let bytes: Vec<u8> = (0u8..16).collect();
    let packets = packetize(&bytes);
    assert_eq!(lengths(&packets), vec![7, 7, 2]);
    assert_eq!(packets[0].payload(), &[0, 1, 2, 3, 4, 5, 6]);
    assert_eq!(packets[1].payload(), &[7, 8, 9, 10, 11, 12, 13]);
    assert_eq!(packets[2].payload(), &[14, 15]);
}

#[test]
fn packetize_exact_multiple_has_no_short_packet() {
    let bytes: Vec<u8> = (0u8..14).collect();
    assert_eq!(lengths(&packetize(&bytes)), vec![7, 7]);
    let bytes: Vec<u8> = (0u8..7).collect();
    assert_eq!(lengths(&packetize(&bytes)), vec![7]);
}

#[test]
fn packetize_then_reassemble_is_identity() {
    for len in [0usize, 1, 6, 7, 8, 13, 14, 15, 21, 100, 266] {
        let bytes: Vec<u8> = (0..len).map(|i| (i * 37 % 251) as u8).collect();
        let packets = packetize(&bytes);
        assert_eq!(packets.len(), (len + 6) / 7);
        assert_eq!(reassemble(&packets), bytes);
    }
}

#[test]
fn reassemble_joins_uneven_packets() {
    let packets = vec![
        Packet::new(&[1]).unwrap(),
        Packet::new(&[]).unwrap(),
        Packet::new(&[2, 3, 4]).unwrap(),
    ];
    assert_eq!(reassemble(&packets), vec![1, 2, 3, 4]);
}
