//! Why a frame was not turned into a reading.
use vstd::prelude::*;
use crate::text::{append_decimal, decimal_text};

verus! {

/// The three ways in which decoding a frame fails.
#[derive(Debug, Clone, Copy, PartialEq, Eq, Structural)]
pub enum DecodeError {
    /// The frame does not hold 36 gaps; carries the number it holds.
    WrongPayloadLen(usize),
    /// A gap inside a field is neither a zero nor a one; carries the gap.
    SampleOutOfRange(u64),
    /// The frame is sound but comes from a sensor on another channel;
    /// carries that channel.
    WrongChannel(u8),
}

impl DecodeError {
    /// The line that `message` writes for this error.
    pub open spec fn message_text(self) -> Seq<char> {
        match self {
            DecodeError::WrongPayloadLen(len) => "Wrong payload len: "@ + decimal_text(len as nat),
            DecodeError::SampleOutOfRange(sample) => "Sample out of range: "@ + decimal_text(
                sample as nat,
            ),
            DecodeError::WrongChannel(channel) => "Wrong channel: "@ + decimal_text(channel as nat),
        }
    }

    /// Whether the frame was corrupt. A frame of another channel is not: it
    /// was received well and is only left out.
    pub open spec fn is_corruption(self) -> bool {
        !(self is WrongChannel)
    }

    /// One line for a log: what went wrong, and the value that shows it.
    pub fn message(&self) -> (text: String)
        ensures
            text@ == self.message_text(),
    {
        match *self {
            DecodeError::WrongPayloadLen(len) => {
                let mut text = String::from_str("Wrong payload len: ");
                append_decimal(&mut text, len as u64);
                text
            },
            DecodeError::SampleOutOfRange(sample) => {
                let mut text = String::from_str("Sample out of range: ");
                append_decimal(&mut text, sample);
                text
            },
            DecodeError::WrongChannel(channel) => {
                let mut text = String::from_str("Wrong channel: ");
                append_decimal(&mut text, channel as u64);
                text
            },
        }
    }

    /// Whether the frame was corrupt, as against sound but of another
    /// channel.
    pub fn corrupt(&self) -> (corrupt: bool)
        ensures
            corrupt == self.is_corruption(),
    {
        match *self {
            DecodeError::WrongChannel(_) => false,
            _ => true,
        }
    }
}

} // verus!
