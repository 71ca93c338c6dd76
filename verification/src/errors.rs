//! Status codes shared by every component.
//!
//! Every fallible operation surfaces a raw negative status code, mirroring
//! the native convention. Two codes carry protocol significance in every
//! push/pull pair: `AVERROR_EAGAIN` (would-block: drain or feed the
//! complementary side, then retry) and `AVERROR_EOF` (end of stream,
//! terminal). All other negative codes are hard failures. The push/pull
//! operations of the codec and filter layers surface these two protocol
//! codes as the typed WouldBlock and EndOfStream results instead of raw
//! numbers; hard failures keep their raw code everywhere.

use vstd::prelude::*;

verus! {

/// Would-block: the session's internal queue is saturated (on a send) or
/// empty (on a receive); the caller must perform the complementary
/// operation and retry.
pub const AVERROR_EAGAIN: i32 = -11;

/// Hard failure: an argument or the current state is invalid.
pub const AVERROR_EINVAL: i32 = -22;

/// Hard failure: no such accelerator device is present.
pub const AVERROR_ENODEV: i32 = -19;

/// Hard failure: an allocation failed or a fixed-size pool is exhausted.
pub const AVERROR_ENOMEM: i32 = -12;

/// Hard failure: the accelerator driver reported an error.
pub const AVERROR_EIO: i32 = -5;

/// End of stream: the session accepts no more input and will never
/// produce more output. Terminal and idempotent.
pub const AVERROR_EOF: i32 = -541478725;

} // verus!
