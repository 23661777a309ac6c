use serie_usb::packet::Packet;
use serie_usb::usb::{
    is_device_corresponding, packet_of_exchange, read_request, receive_packet, send_packet,
    setup_accepted,
    setup_request, write_request, ControlRequest, SerialUsb, TransportError, PRODUCT_ID,
    REQUEST_READ, REQUEST_WRITE, TIMEOUT_SECONDS, VENDOR_ID,
};
use std::cell::RefCell;

struct Loopback {
    sent: RefCell<Vec<Vec<u8>>>,
    incoming: RefCell<Vec<[u8; 8]>>,
}

impl SerialUsb for Loopback {
    fn init_serial_usb(&self) -> Result<(), TransportError> {
        Ok(())
    }

    fn read_serial_usb(&self, buffer: &mut [u8; 8]) -> Result<(), TransportError> {
        let mut incoming = self.incoming.borrow_mut();
        if incoming.is_empty() {
            return Err(TransportError::Timeout);
        }
        *buffer = incoming.remove(0);
        Ok(())
    }

    fn write_serial_usb(&self, buffer: &[u8]) -> Result<(), TransportError> {
        self.sent.borrow_mut().push(buffer.to_vec());
        Ok(())
    }
}

struct Unplugged;

impl SerialUsb for Unplugged {
    fn init_serial_usb(&self) -> Result<(), TransportError> {
        Err(TransportError::SetupRefused)
    }

    fn read_serial_usb(&self, _buffer: &mut [u8; 8]) -> Result<(), TransportError> {
        Err(TransportError::Disconnected)
    }

    fn write_serial_usb(&self, _buffer: &[u8]) -> Result<(), TransportError> {
        Err(TransportError::Io)
    }
}

#[test]
fn board_is_known_by_both_numbers() {
    assert_eq!(VENDOR_ID, 0x16c0);
    assert_eq!(PRODUCT_ID, 0x05dc);
    assert!(is_device_corresponding(0x16c0, 0x05dc));
    assert!(!is_device_corresponding(0x16c0, 0x05dd));
    assert!(!is_device_corresponding(0x16c1, 0x05dc));
    assert!(!is_device_corresponding(0x05dc, 0x16c0));
}

#[test]
fn control_requests() {
    assert_eq!(REQUEST_READ, 0xc0);
    assert_eq!(REQUEST_WRITE, 0x40);
    assert_eq!(TIMEOUT_SECONDS, 2);
    assert_eq!(
        setup_request(),
        ControlRequest { request_type: 0xc0, request: 11, value: (8 << 8) | 0x13, index: 1 }
    );
    assert_eq!(
        read_request(),
        ControlRequest { request_type: 0xc0, request: 12, value: 0, index: 0 }
    );
    assert_eq!(
        write_request(),
        ControlRequest { request_type: 0x40, request: 13, value: 0, index: 0 }
    );
}

#[test]
fn setup_is_accepted_on_the_exact_echo() {
    assert!(setup_accepted(&[0x13, 8, 1, 0], 4));
    assert!(!setup_accepted(&[0x13, 8, 1, 0], 3));
    assert!(!setup_accepted(&[0x13, 8, 1, 1], 4));
    assert!(!setup_accepted(&[0x12, 8, 1, 0], 4));
    assert!(!setup_accepted(&[0x13, 7, 1, 0], 4));
    assert!(!setup_accepted(&[0x13, 8, 0, 0], 4));
    assert!(!setup_accepted(&[0, 0, 0, 0], 4));
}

#[test]
fn send_packet_hands_the_payload_to_the_channel() {
    let channel = Loopback { sent: RefCell::new(Vec::new()), incoming: RefCell::new(Vec::new()) };
    assert_eq!(send_packet(&channel, &Packet::new(&[1, 2, 3]).unwrap()), Ok(()));
    assert_eq!(send_packet(&channel, &Packet::new(&[]).unwrap()), Ok(()));
    assert_eq!(*channel.sent.borrow(), vec![vec![1, 2, 3], vec![]]);
}

#[test]
fn receive_packet_reads_the_counted_bytes() {
    let channel = Loopback {
        sent: RefCell::new(Vec::new()),
        incoming: RefCell::new(vec![[2, 0x41, 0x42, 9, 9, 9, 9, 9], [0xff; 8]]),
    };
    assert_eq!(receive_packet(&channel), Ok(Some(Packet::new(&[0x41, 0x42]).unwrap())));
    assert_eq!(receive_packet(&channel), Ok(None));
    assert_eq!(receive_packet(&channel), Err(TransportError::Timeout));
}

#[test]
fn transport_errors_come_through() {
    assert_eq!(
        send_packet(&Unplugged, &Packet::new(&[1]).unwrap()),
        Err(TransportError::Io)
    );
    assert_eq!(receive_packet(&Unplugged), Err(TransportError::Disconnected));
    assert_eq!(Unplugged.init_serial_usb(), Err(TransportError::SetupRefused));
}

#[test]
fn exchange_that_succeeded_brings_the_counted_bytes() {
    assert_eq!(
        packet_of_exchange(Ok(()), &[3, 10, 11, 12, 99, 98, 97, 96]),
        Ok(Some(Packet::new(&[10, 11, 12]).unwrap()))
    );
    assert_eq!(
        packet_of_exchange(Ok(()), &[0, 10, 11, 12, 99, 98, 97, 96]),
        Ok(Some(Packet::new(&[]).unwrap()))
    );
}

#[test]
fn exchange_with_a_count_above_seven_brings_no_packet() {
    assert_eq!(packet_of_exchange(Ok(()), &[8, 1, 2, 3, 4, 5, 6, 7]), Ok(None));
    assert_eq!(packet_of_exchange(Ok(()), &[0xff; 8]), Ok(None));
}

#[test]
fn exchange_that_failed_brings_its_error() {
    assert_eq!(
        packet_of_exchange(Err(TransportError::Timeout), &[2, 0x41, 0x42, 0, 0, 0, 0, 0]),
        Err(TransportError::Timeout)
    );
    assert_eq!(
        packet_of_exchange(Err(TransportError::Disconnected), &[0xff; 8]),
        Err(TransportError::Disconnected)
    );
}

#[test]
fn receive_packet_hands_the_channel_a_blank_buffer() {
    struct Silent;
    impl SerialUsb for Silent {
        fn init_serial_usb(&self) -> Result<(), TransportError> {
            Ok(())
        }
        fn read_serial_usb(&self, buffer: &mut [u8; 8]) -> Result<(), TransportError> {
            assert_eq!(*buffer, [0xff; 8]);
            Ok(())
        }
        fn write_serial_usb(&self, _buffer: &[u8]) -> Result<(), TransportError> {
            Ok(())
        }
    }
    assert_eq!(receive_packet(&Silent), Ok(None));
}
