//! Serial transfers to a microcontroller board over a USB link that carries
//! eight bytes per exchange: one count byte and up to seven bytes of payload.
//!
//! Plain transfers cut a byte string into packets. Framed transfers carry one
//! document with a length header, markers around it and a CRC-32 behind it,
//! so that the receiver can find it in the packet stream and check it.
//!
//! - [`checksum`]: the CRC-32, its byte order on the wire, and the verdict on
//!   a received frame.
//! - [`packet`]: packets, and cutting bytes into packets and back.
//! - [`frame`]: the layout of a frame.
//! - [`encoder`]: sending, packet by packet, with cancellation.
//! - [`decoder`]: receiving, packet by packet, with cancellation.
//! - [`args`]: the options of a run and the operation they call for.
//! - [`usb`]: the board's identity, its control requests, and the channel.
//!
//! The library decides and computes. It reaches the device only through the
//! channel it is handed, and never waits: the caller owns the device, the
//! clock and the cancellation flag.

pub mod args;
pub mod checksum;
pub mod decoder;
pub mod encoder;
pub mod frame;
pub mod packet;
pub mod usb;
