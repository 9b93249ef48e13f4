//! LED feedback patterns.  Cosmetic, but part of the observable contract:
//! the presence-check blink and the wink "snake" animation are specified
//! exactly, as functions from a pattern-seed counter to the lit set.

use vstd::prelude::*;

verus! {

/// The four indicator outputs, in physical wiring order.
#[derive(Clone, Copy, PartialEq, Eq, Structural, Debug)]
pub struct Leds {
    pub l0: bool,
    pub l1: bool,
    pub l2: bool,
    pub l3: bool,
}

/// All indicators off.
pub open spec fn spec_off() -> Leds {
    Leds { l0: false, l1: false, l2: false, l3: false }
}

/// All indicators on.
pub open spec fn spec_all_on() -> Leds {
    Leds { l0: true, l1: true, l2: true, l3: true }
}

/// Parity of the bit population count of `n`.
pub open spec fn spec_pop_parity(n: nat) -> bool
    decreases n,
{
    if n == 0 {
        false
    } else {
        (n % 2 == 1) != spec_pop_parity(n / 2)
    }
}

/// The blink pattern: all four indicators on when the seed's bit population
/// count is odd, else all off.
pub open spec fn spec_blink(seed: int) -> Leds
    recommends
        0 <= seed,
{
    if spec_pop_parity(seed as nat) {
        spec_all_on()
    } else {
        spec_off()
    }
}

/// Whether logical position `pos` is lit by the snake animation at `seed`:
/// the lit set is `{ seed/2 mod 4, (seed+1)/2 mod 4, (seed+3)/2 mod 4 }`.
pub open spec fn spec_wink_lit(seed: int, pos: int) -> bool
    recommends
        0 <= seed,
{
    let a = (seed / 2) % 4;
    let b = ((seed + 1) / 2) % 4;
    let c = ((seed + 3) / 2) % 4;
    pos == a || pos == b || pos == c
}

/// The wink pattern: the three-of-four snake over the logical positions,
/// with logical positions 2 and 3 exchanged so that the animation appears
/// as a physical rotation on hardware that wires the indicators out of
/// spatial order.
pub open spec fn spec_wink(seed: int) -> Leds
    recommends
        0 <= seed,
{
    Leds {
        l0: spec_wink_lit(seed, 0),
        l1: spec_wink_lit(seed, 1),
        l2: spec_wink_lit(seed, 3),
        l3: spec_wink_lit(seed, 2),
    }
}

/// The blink pattern driven by the presence loop, keyed by its iteration
/// counter.
pub fn blink_leds(pattern_seed: isize) -> (leds: Leds)
    requires
        0 <= pattern_seed,
    ensures
        leds == spec_blink(pattern_seed as int),
{
    let mut n: usize = pattern_seed as usize;
    let mut parity: bool = false;
    while n > 0
        invariant
            spec_pop_parity(pattern_seed as nat) == (parity != spec_pop_parity(n as nat)),
        decreases n,
    {
        if n % 2 == 1 {
            parity = !parity;
        }
        n = n / 2;
    }
    if parity {
        Leds { l0: true, l1: true, l2: true, l3: true }
    } else {
        Leds { l0: false, l1: false, l2: false, l3: false }
    }
}

/// The snake animation shown while a wink grant is active and no presence
/// wait is in progress.
pub fn wink_leds(pattern_seed: isize) -> (leds: Leds)
    requires
        0 <= pattern_seed,
        pattern_seed + 3 <= isize::MAX,
    ensures
        leds == spec_wink(pattern_seed as int),
{
    let count: isize = 4;
    let a = (pattern_seed / 2) % count;
    let b = ((pattern_seed + 1) / 2) % count;
    let c = ((pattern_seed + 3) / 2) % count;
    Leds {
        l0: a == 0 || b == 0 || c == 0,
        l1: a == 1 || b == 1 || c == 1,
        l2: a == 3 || b == 3 || c == 3,
        l3: a == 2 || b == 2 || c == 2,
    }
}

/// All indicators switched off: what every exit path of the presence loop,
/// and the idle top-level loop, leaves behind.
pub fn switch_off_leds() -> (leds: Leds)
    ensures
        leds == spec_off(),
{
    Leds { l0: false, l1: false, l2: false, l3: false }
}

/// One step of the top-level loop's pattern-seed bookkeeping: the seed
/// advances only when more than `delay` counter ticks have passed since the
/// last advance (by wrapping subtraction), so that long inactivity or a
/// wrapping clock cannot spin the pattern.
pub fn led_step(counter: isize, last_increment: u64, now: u64, delay: u64) -> (r: (isize, u64))
    requires
        counter < isize::MAX,
    ensures
        now.wrapping_sub(last_increment) > delay ==> r == (((counter + 1) as isize), now),
        now.wrapping_sub(last_increment) <= delay ==> r == (counter, last_increment),
{
    if now.wrapping_sub(last_increment) > delay {
        (counter + 1, now)
    } else {
        (counter, last_increment)
    }
}

} // verus!
