use vstd::prelude::*;

verus! {

/// Errors that can occur while encoding a command.
#[derive(Debug, Clone, Copy, PartialEq, Eq, Structural)]
pub enum EncodeError {
    /// The output buffer cannot hold the whole frame.
    BufferTooSmall,
}

/// Errors that can occur while decoding a reply.
#[derive(Debug, Clone, Copy, PartialEq, Eq, Structural)]
pub enum DecodeError {
    /// The input ends before a complete frame; more bytes may complete it.
    IncompleteData,
    /// The checksum field (`expected`) differs from the checksum computed
    /// over the payload (`actual`).
    ChecksumMismatch { expected: u16, actual: u16 },
    /// The command id of the payload is not one this decoder can unpack.
    UnknownPacket { id: u8 },
    /// A frame marker is wrong, or the length byte does not match the payload.
    InvalidFrame,
}

} // verus!
