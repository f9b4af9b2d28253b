//! Codec for the VESC motor-controller serial protocol: command frames out,
//! telemetry replies in.
pub mod decoder;
pub mod error;
pub mod frame;
pub mod packer;
pub mod values;

pub use decoder::Decoder;
pub use error::{DecodeError, EncodeError};
pub use frame::{decode, encode, parse_frame, Command, Frame};
pub use packer::{Packer, Unpacker};
pub use values::{CommandReply, FaultCode, Values, ValuesMask};
