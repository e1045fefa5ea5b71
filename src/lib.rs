//! A client for the Trivial File Transfer Protocol (RFC 1350): a verified packet
//! codec and a verified stop-and-wait transfer engine. The engine decides; the
//! caller owns the socket, performs each action it asks for and reports back.
use vstd::prelude::*;

pub mod parser;
pub mod transfer;

use parser::{ErrorCode, Packet};

verus! {

/// `std::io::Error`, carried opaquely in `Error::SocketIo`.
#[verifier::external_type_specification]
#[verifier::external_body]
pub struct ExIoError(std::io::Error);

/// Ways in which a transfer ends without success.
#[derive(Debug)]
pub enum Error {
    /// The filename holds a NUL byte.
    BadFilename,
    /// Sending or receiving failed for a reason other than a timeout.
    SocketIo(std::io::Error),
    /// The allowed number of consecutive receive timeouts ran out.
    Timeout,
    /// A datagram from the server did not decode.
    Parse(parser::Error),
    /// A well-formed packet that has no place at this point of the transfer.
    UnexpectedPacket(Packet),
    /// The server answered with an error packet.
    Protocol { code: ErrorCode, msg: Vec<u8> },
}

} // verus!
