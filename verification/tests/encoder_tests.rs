use serie_usb::checksum::crc32;
use serie_usb::encoder::{EncodeStep, FrameEncoder, PacketSender, SendStep};
use serie_usb::frame::encode;
use serie_usb::packet::Packet;

fn packet(bytes: &[u8]) -> Packet {
    Packet::new(bytes).unwrap()
}

#[test]
fn sender_hands_out_sevens_then_finishes() {
    let mut sender = PacketSender::new((0u8..16).collect());
    assert_eq!(sender.bytes_sent(), 0);
    assert_eq!(sender.next(false), SendStep::Send(packet(&[0, 1, 2, 3, 4, 5, 6])));
    assert_eq!(sender.bytes_sent(), 7);
    assert_eq!(sender.next(false), SendStep::Send(packet(&[7, 8, 9, 10, 11, 12, 13])));
    assert_eq!(sender.next(false), SendStep::Send(packet(&[14, 15])));
    assert_eq!(sender.bytes_sent(), 16);
    assert_eq!(sender.next(false), SendStep::Finished { bytes_sent: 16 });
    assert_eq!(sender.next(false), SendStep::Finished { bytes_sent: 16 });
}

#[test]
fn sender_with_nothing_to_send_is_finished() {
    let mut sender = PacketSender::new(Vec::new());
    assert_eq!(sender.next(false), SendStep::Finished { bytes_sent: 0 });
    assert_eq!(sender.next(true), SendStep::Finished { bytes_sent: 0 });
}

#[test]
fn sender_cancelled_before_the_first_packet_sent_nothing() {
    let mut sender = PacketSender::new(vec![1, 2, 3]);
    assert_eq!(sender.next(true), SendStep::Cancelled { bytes_sent: 0 });
    assert_eq!(sender.bytes_sent(), 0);
}

#[test]
fn sender_cancelled_midway_reports_what_went_out() {
    let mut sender = PacketSender::new((0u8..20).collect());
    sender.next(false);
    sender.next(false);
    assert_eq!(sender.next(true), SendStep::Cancelled { bytes_sent: 14 });
    assert_eq!(sender.next(true), SendStep::Cancelled { bytes_sent: 14 });
    assert_eq!(sender.next(false), SendStep::Send(packet(&[14, 15, 16, 17, 18, 19])));
}

#[test]
fn sender_that_sent_all_is_finished_even_if_cancelled() {
    let mut sender = PacketSender::new(vec![1, 2, 3]);
    assert_eq!(sender.next(false), SendStep::Send(packet(&[1, 2, 3])));
    assert_eq!(sender.next(true), SendStep::Finished { bytes_sent: 3 });
}

#[test]
fn encoder_sends_the_frame_in_packets() {
    let payload = [0x41, 0x42, 0x43];
    let mut encoder = FrameEncoder::new(&payload);
    assert_eq!(encoder.checksum(), 0xA383_0348);
    assert_eq!(encoder.bytes_sent(), 0);
    assert_eq!(
        encoder.next(false),
        EncodeStep::Send(packet(&[0x00, 0x0C, 0x02, 0x41, 0x42, 0x43, 0x03]))
    );
    assert_eq!(encoder.bytes_sent(), 7);
    assert_eq!(encoder.next(false), EncodeStep::Send(packet(&[0x48, 0x03, 0x83, 0xA3, 0x04])));
    assert_eq!(encoder.bytes_sent(), 12);
    assert_eq!(
        encoder.next(false),
        EncodeStep::Finished { bytes_sent: 12, checksum: 0xA383_0348 }
    );
}

#[test]
fn encoder_packets_make_up_the_frame() {
    let payload: Vec<u8> = (0..300).map(|i| (i % 200) as u8 + 5).collect();
    let mut encoder = FrameEncoder::new(&payload);
    let mut sent: Vec<u8> = Vec::new();
    let mut packets = 0;
    let finished = loop {
        match encoder.next(false) {
            EncodeStep::Send(packet) => {
                sent.extend_from_slice(packet.payload());
                packets += 1;
            }
            other => break other,
        }
    };
    assert_eq!(sent, encode(&payload));
    assert_eq!(packets, (sent.len() + 6) / 7);
    assert_eq!(finished, EncodeStep::Finished { bytes_sent: sent.len(), checksum: crc32(&payload) });
}

#[test]
fn encoder_cancelled_before_the_first_packet_sent_nothing() {
    let mut encoder = FrameEncoder::new(&[1, 2, 3, 4]);
    assert_eq!(encoder.next(true), EncodeStep::Cancelled { bytes_sent: 0 });
    assert_eq!(encoder.bytes_sent(), 0);
    let mut empty = FrameEncoder::new(&[]);
    assert_eq!(empty.next(true), EncodeStep::Cancelled { bytes_sent: 0 });
}

#[test]
fn encoder_cancelled_midway_sends_no_further_packet() {
    let payload: Vec<u8> = (10u8..40).collect();
    let mut encoder = FrameEncoder::new(&payload);
    encoder.next(false);
    encoder.next(false);
    encoder.next(false);
    assert_eq!(encoder.next(true), EncodeStep::Cancelled { bytes_sent: 21 });
    assert_eq!(encoder.bytes_sent(), 21);
    assert_eq!(encoder.next(true), EncodeStep::Cancelled { bytes_sent: 21 });
}

#[test]
fn encoder_that_sent_all_is_finished_even_if_cancelled() {
    let mut encoder = FrameEncoder::new(&[]);
    encoder.next(false);
    encoder.next(false);
    assert_eq!(encoder.next(true), EncodeStep::Finished { bytes_sent: 9, checksum: 0 });
}
