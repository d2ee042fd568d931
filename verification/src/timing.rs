//! The timing windows of the protocol, in microseconds.
use vstd::prelude::*;

verus! {

/// Shortest pulse that opens a frame or a bit.
pub const PULSE_MIN: u64 = 300;

/// Longest pulse that opens a frame or a bit.
pub const PULSE_MAX: u64 = 600;

/// Shortest gap that follows the first pulse of a frame.
pub const PREAMBLE_MIN: u64 = 2000;

/// Longest gap that follows the first pulse of a frame.
pub const PREAMBLE_MAX: u64 = 8000;

/// Shortest gap that closes a frame.
pub const SIGNAL_END_MIN: u64 = 3000;

/// Longest gap that closes a frame.
pub const SIGNAL_END_MAX: u64 = 8000;

/// Shortest gap read as a one.
pub const MIN_HIGH: u64 = 1650;

/// Longest gap read as a one.
pub const MAX_HIGH: u64 = 2150;

/// Shortest gap read as a zero.
pub const MIN_LOW: u64 = 800;

/// Longest gap read as a zero.
pub const MAX_LOW: u64 = 1100;

/// Number of bits in a frame.
pub const PAYLOAD_LEN: usize = 36;

/// A duration is a pulse when it lies in `[PULSE_MIN, PULSE_MAX]`.
pub open spec fn is_pulse(duration: u64) -> bool {
    PULSE_MIN <= duration <= PULSE_MAX
}

/// A duration is a preamble gap when it lies in `[PREAMBLE_MIN, PREAMBLE_MAX]`.
pub open spec fn is_preamble(duration: u64) -> bool {
    PREAMBLE_MIN <= duration <= PREAMBLE_MAX
}

/// A duration closes a frame when it lies in `[SIGNAL_END_MIN, SIGNAL_END_MAX]`.
pub open spec fn is_signal_end(duration: u64) -> bool {
    SIGNAL_END_MIN <= duration <= SIGNAL_END_MAX
}

/// A duration is a one when it lies in `[MIN_HIGH, MAX_HIGH]`.
pub open spec fn is_one(duration: u64) -> bool {
    MIN_HIGH <= duration <= MAX_HIGH
}

/// A duration is a zero when it lies in `[MIN_LOW, MAX_LOW]`.
pub open spec fn is_zero(duration: u64) -> bool {
    MIN_LOW <= duration <= MAX_LOW
}

/// A duration is a bit when it is a zero or a one.
pub open spec fn is_bit(duration: u64) -> bool {
    is_zero(duration) || is_one(duration)
}

/// A gap is taken into a frame when it lies in `[MIN_LOW, MAX_HIGH]`: from the
/// shortest zero to the longest one, the values between the two windows
/// included.
pub open spec fn is_data_gap(duration: u64) -> bool {
    MIN_LOW <= duration <= MAX_HIGH
}

/// Whether `count` lies in the closed interval `[min, max]`.
pub fn in_range(count: u64, min: u64, max: u64) -> (inside: bool)
    ensures
        inside == (min <= count <= max),
{
    count >= min && count <= max
}

} // verus!
