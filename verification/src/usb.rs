//! The link to the board: which device it is, the control requests that
//! carry the serial bytes, and the channel through which packets go.

use vstd::prelude::*;
use crate::packet::{wire_payload, Packet};

verus! {

/// Vendor number of the board.
pub const VENDOR_ID: u16 = 0x16c0;

/// Product number of the board.
pub const PRODUCT_ID: u16 = 0x05dc;

/// Request type of a vendor request that sends data to the device.
pub const REQUEST_WRITE: u8 = 0x40;

/// Request type of a vendor request that reads data from the device.
pub const REQUEST_READ: u8 = 0xc0;

/// Request that sets the serial parameters.
pub const USBASP_FUNC_SETSERIOS: u8 = 11;

/// Request that reads one packet.
pub const USBASP_FUNC_READSER: u8 = 12;

/// Request that writes one packet.
pub const USBASP_FUNC_WRITESER: u8 = 13;

/// No parity.
pub const USBASP_MODE_PARITYN: u16 = 1;

/// 2400 baud.
pub const USBASP_MODE_SETBAUD2400: u16 = 0x13;

/// Seconds that one exchange may take.
pub const TIMEOUT_SECONDS: u64 = 2;

/// Whether a device with these numbers is the board.
pub fn is_device_corresponding(vendor_id: u16, product_id: u16) -> (found: bool)
    ensures
        found == (vendor_id == VENDOR_ID && product_id == PRODUCT_ID),
{
    vendor_id == VENDOR_ID && product_id == PRODUCT_ID
}

/// The fields of one control request.
#[derive(Copy, Clone, PartialEq, Eq, Debug, Structural)]
pub struct ControlRequest {
    pub request_type: u8,
    pub request: u8,
    pub value: u16,
    pub index: u16,
}

/// The request that sets the serial parameters: 2400 baud and the packet
/// size in the value, no parity in the index.
pub fn setup_request() -> (request: ControlRequest)
    ensures
        request == (ControlRequest {
            request_type: 0xc0,
            request: 11,
            value: 0x0813,
            index: 1,
        }),
{
    ControlRequest {
        request_type: REQUEST_READ,
        request: USBASP_FUNC_SETSERIOS,
        value: 0x0800 + USBASP_MODE_SETBAUD2400,
        index: USBASP_MODE_PARITYN,
    }
}

/// The request that reads one packet.
pub fn read_request() -> (request: ControlRequest)
    ensures
        request == (ControlRequest { request_type: 0xc0, request: 12, value: 0, index: 0 }),
{
    ControlRequest { request_type: REQUEST_READ, request: USBASP_FUNC_READSER, value: 0, index: 0 }
}

/// The request that writes one packet.
pub fn write_request() -> (request: ControlRequest)
    ensures
        request == (ControlRequest { request_type: 0x40, request: 13, value: 0, index: 0 }),
{
    ControlRequest {
        request_type: REQUEST_WRITE,
        request: USBASP_FUNC_WRITESER,
        value: 0,
        index: 0,
    }
}

/// What the device answers when it has taken the serial parameters: baud
/// rate, packet size, parity, and a zero.
pub open spec fn setup_echo() -> Seq<u8> {
    seq![0x13u8, 8u8, 1u8, 0u8]
}

/// Whether the device has taken the serial parameters: it answered with
/// four bytes, and they repeat what was asked.
pub fn setup_accepted(reply: &[u8; 4], received: usize) -> (accepted: bool)
    ensures
        accepted == (received == 4 && reply@ == setup_echo()),
{
    let accepted: bool = received == 4 && reply[0] == 0x13 && reply[1] == 8 && reply[2] == 1
        && reply[3] == 0;
    proof {
        if accepted {
            assert(reply@ =~= setup_echo());
        }
    }
    accepted
}

/// Why an exchange with the device failed. Any of these ends the transfer
/// that was under way; nothing is tried again.
#[derive(Copy, Clone, PartialEq, Eq, Debug, Structural)]
pub enum TransportError {
    /// The transfer itself failed.
    Io,
    /// The device did not answer in time.
    Timeout,
    /// The device is gone.
    Disconnected,
    /// The device did not take the serial parameters.
    SetupRefused,
}

/// A device through which packets are exchanged.
///
/// What an exchange brings is the device's affair, and nothing here
/// promises that one succeeds. The two relations say which exchanges a
/// channel can make, so that what is built on a channel can say which one
/// it made and with what. A channel that tells nothing of its device leaves
/// them as they are: any answer may come.
pub trait SerialUsb {
    /// Whether `outcome` is an answer of the channel to being handed
    /// `payload` to send as one packet.
    open spec fn sent_with(&self, payload: Seq<u8>, outcome: Result<(), TransportError>) -> bool {
        true
    }

    /// Whether `outcome` is an answer of the channel to being handed a
    /// buffer that held `before`, in which it left `after`.
    open spec fn read_with(
        &self,
        before: Seq<u8>,
        after: Seq<u8>,
        outcome: Result<(), TransportError>,
    ) -> bool {
        true
    }

    /// Sets the serial parameters of the link.
    fn init_serial_usb(&self) -> Result<(), TransportError>;

    /// Reads the eight bytes of one exchange into `buffer`.
    fn read_serial_usb(&self, buffer: &mut [u8; 8]) -> (outcome: Result<(), TransportError>)
        ensures
            self.read_with(old(buffer)@, final(buffer)@, outcome),
    ;

    /// Sends one packet with the payload `buffer`.
    fn write_serial_usb(&self, buffer: &[u8]) -> (outcome: Result<(), TransportError>)
        requires
            buffer@.len() <= 7,
        ensures
            self.sent_with(buffer@, outcome),
    ;
}

/// Sends one packet through the channel: the channel is handed the packet's
/// payload, all of it and nothing else, and its answer is the result.
pub fn send_packet<C: SerialUsb>(channel: &C, packet: &Packet) -> (sent: Result<
    (),
    TransportError,
>)
    ensures
        channel.sent_with(packet@, sent),
{
    channel.write_serial_usb(packet.payload())
}

/// The buffer that is handed to the channel for an exchange: eight bytes of
/// all ones, so that an exchange which fills nothing in declares no packet.
pub open spec fn blank_exchange() -> Seq<u8> {
    Seq::new(8, |i: int| 0xffu8)
}

/// What an exchange amounts to: the channel's error where it failed;
/// otherwise the packet that the eight bytes declare, or none where their
/// count byte is above seven.
pub open spec fn exchange_brought(
    outcome: Result<(), TransportError>,
    raw: Seq<u8>,
    received: Result<Option<Packet>, TransportError>,
) -> bool
    recommends
        raw.len() == 8,
{
    match outcome {
        Err(error) => received == Err::<Option<Packet>, TransportError>(error),
        Ok(_) => match received {
            Ok(Some(packet)) => raw[0] <= 7 && packet@ == wire_payload(raw),
            Ok(None) => raw[0] > 7,
            Err(_) => false,
        },
    }
}

/// Reads the packet out of an exchange that has been made: `outcome` is the
/// channel's answer and `raw` the eight bytes it left.
pub fn packet_of_exchange(outcome: Result<(), TransportError>, raw: &[u8; 8]) -> (received: Result<
    Option<Packet>,
    TransportError,
>)
    ensures
        exchange_brought(outcome, raw@, received),
{
    match outcome {
        Ok(()) => Ok(Packet::from_wire(raw)),
        Err(error) => Err(error),
    }
}

/// Whether `received` is what one exchange on `channel` amounts to, made
/// with a blank buffer: a packet that the bytes of a successful exchange
/// declare; no packet, where a successful exchange left a count byte above
/// seven; or the error of an exchange that failed.
pub open spec fn came_from<C: SerialUsb>(
    channel: &C,
    received: Result<Option<Packet>, TransportError>,
) -> bool {
    match received {
        Ok(Some(packet)) => exists|raw: Seq<u8>|
            raw.len() == 8 && #[trigger] channel.read_with(
                blank_exchange(),
                raw,
                Ok::<(), TransportError>(()),
            ) && raw[0] <= 7 && packet@ == wire_payload(raw),
        Ok(None) => exists|raw: Seq<u8>|
            raw.len() == 8 && #[trigger] channel.read_with(
                blank_exchange(),
                raw,
                Ok::<(), TransportError>(()),
            ) && raw[0] > 7,
        Err(error) => exists|raw: Seq<u8>|
            raw.len() == 8 && #[trigger] channel.read_with(
                blank_exchange(),
                raw,
                Err::<(), TransportError>(error),
            ),
    }
}

/// Makes one exchange and reads the packet out of it. The channel is handed
/// a blank buffer; the result is what its answer and the bytes it left
/// amount to. An exchange whose count byte is above seven brought no packet.
pub fn receive_packet<C: SerialUsb>(channel: &C) -> (received: Result<
    Option<Packet>,
    TransportError,
>)
    ensures
        came_from(channel, received),
{
    let mut buffer: [u8; 8] = [0xff; 8];
    proof {
        assert(buffer@ =~= blank_exchange());
    }
    let outcome = channel.read_serial_usb(&mut buffer);
    let received = packet_of_exchange(outcome, &buffer);
    proof {
        assert(channel.read_with(blank_exchange(), buffer@, outcome));
        match outcome {
            Ok(unit) => {
                assert(unit == ());
            },
            Err(_) => {},
        }
    }
    received
}

} // verus!
