//! Verified core of a CTAP HID security-key transport.
//!
//! The library covers the pieces of the firmware where correctness is
//! hardest: the fixed-size HID packet codec with message fragmentation and
//! reassembly, the per-channel reassembly state machine with in-band
//! cancellation, the keepalive/cancel protocol run while a slow operation is
//! pending, the user-presence check loop, the virtual-alarm multiplexer that
//! shares one hardware timer among many logical deadlines, and the LED
//! feedback patterns.  Hardware access (USB transport, buttons, LEDs, the
//! alarm register) stays outside: every function here is a decision or a
//! computation over plain values, with a contract that pins it down.

use vstd::prelude::*;

pub mod alarm_mux;
pub mod codec;
pub mod keepalive;
pub mod leds;
pub mod presence;
pub mod reassembly;
pub mod wink;

verus! {

/// Error taxonomy of the transport core.
///
/// `TransportTimeout` and `TimedOut` are recoverable and expected;
/// `Cancelled` is the normal end of a long operation the host gave up on;
/// `TransportError` is fatal for the affected operation; `MalformedFraming`
/// discards one in-progress reassembly; `AlarmReprogramFailure` is treated
/// as "deadline already due" so that no timer is silently lost.
#[derive(Clone, Copy, PartialEq, Eq, Structural, Debug)]
pub enum CtapError {
    TransportTimeout,
    TransportError,
    MalformedFraming,
    Cancelled,
    TimedOut,
    AlarmReprogramFailure,
}

} // verus!
