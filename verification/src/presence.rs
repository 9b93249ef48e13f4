//! User-presence check loop: drives the blink pattern, waits each iteration
//! for either a button press or one keepalive delay (whichever comes
//! first), sends a fresh keepalive when the delay elapsed, and stops the
//! moment the button was pressed, a cancellation or transport failure
//! arrived, or the iteration bound ran out.  The indicators are switched
//! off on every exit path.
//!
//! The waiting itself — the race between the button event and the virtual
//! alarm — is hardware; what the logic decides on is which event won each
//! iteration, handed in as one plain value per potential iteration.

use vstd::prelude::*;

use crate::CtapError;
use crate::codec::ChannelID;
use crate::keepalive::SendOutcome;
use crate::keepalive::outcomes_wf;
use crate::keepalive::send_keepalive_up_needed;
use crate::keepalive::spec_keepalive_result;
use crate::leds::Leds;
use crate::leds::blink_leds;
use crate::leds::spec_blink;
use crate::leds::spec_off;
use crate::leds::switch_off_leds;

verus! {

/// Milliseconds between keepalive frames while presence is pending.
pub const KEEPALIVE_DELAY: u64 = 1000;

/// Milliseconds allowed for one packet send before it counts as timed out.
pub const SEND_TIMEOUT: u64 = 1000;

/// Milliseconds the user has to touch the button.
pub const TOUCH_TIMEOUT: u64 = 30000;

/// How many keepalive delays fit in the touch timeout: the bound on the
/// presence loop's iterations.
pub const TIMEOUT_ITERATIONS: u64 = TOUCH_TIMEOUT / KEEPALIVE_DELAY;

/// Which event ended one iteration's wait.
pub enum PresenceEvent {
    /// The button won the race.
    ButtonPressed,
    /// The keepalive delay elapsed first; a fresh keepalive was sent, whose
    /// send attempts had these transport outcomes.
    DelayElapsed(Vec<SendOutcome>),
}

/// A delay event carries at least one well-formed outcome per keepalive
/// packet.
pub open spec fn event_wf(e: PresenceEvent) -> bool {
    e matches PresenceEvent::DelayElapsed(outs) ==> outs@.len() >= 1 && outcomes_wf(outs@)
}

/// `(iterations entered, result)` of the waiting loop alone, given the
/// event of each potential iteration and the iteration bound.
pub open spec fn spec_presence_loop(
    cid: ChannelID,
    events: Seq<PresenceEvent>,
    bound: int,
) -> (int, Result<(), CtapError>)
    decreases bound,
{
    if bound <= 0 || events.len() == 0 {
        (0, Err(CtapError::TimedOut))
    } else {
        match events.first() {
            PresenceEvent::ButtonPressed => (1, Ok(())),
            PresenceEvent::DelayElapsed(outs) => match spec_keepalive_result(
                cid,
                outs@.take(1),
            ) {
                Ok(u) => {
                    let rest = spec_presence_loop(cid, events.drop_first(), bound - 1);
                    (1 + rest.0, rest.1)
                },
                Err(e) => (1, Err(e)),
            },
        }
    }
}

/// `(iterations entered, result)` of the whole presence check: a failing
/// initial keepalive ends it at once with that error; otherwise the waiting
/// loop decides.
pub open spec fn spec_presence_result(
    cid: ChannelID,
    first_keepalive: Seq<SendOutcome>,
    events: Seq<PresenceEvent>,
    bound: int,
) -> (int, Result<(), CtapError>) {
    match spec_keepalive_result(cid, first_keepalive.take(1)) {
        Ok(u) => spec_presence_loop(cid, events, bound),
        Err(e) => (0, Err(e)),
    }
}

/// The indicator commands a presence check issues: the blink pattern keyed
/// by the iteration counter at the head of each iteration entered, and all
/// indicators off at the very end.
pub open spec fn spec_led_trace(iterations: int) -> Seq<Leds>
    recommends
        0 <= iterations,
{
    Seq::new(iterations as nat, |k: int| spec_blink(k)).push(spec_off())
}

/// Everything one presence check did.
pub struct PresenceRun {
    /// `Ok` when the user was present; `Err(Cancelled)`,
    /// `Err(TransportError)` or `Err(TimedOut)` otherwise.
    pub result: Result<(), CtapError>,
    /// How many waiting iterations were entered.
    pub iterations: usize,
    /// The indicator commands issued, in order.
    pub led_trace: Vec<Leds>,
}

/// Runs the user-presence check for `cid`.  `first_keepalive` holds the
/// transport outcomes of the keepalive sent on entry; `events` holds, for
/// each potential iteration, which event ended its wait.  The result, the
/// number of iterations entered, and every indicator command follow the
/// specification exactly; the loop never enters more than
/// `timeout_iterations` iterations, and the indicators are off on every
/// exit path.
pub fn check_user_presence(
    cid: ChannelID,
    first_keepalive: &Vec<SendOutcome>,
    events: &Vec<PresenceEvent>,
    timeout_iterations: usize,
) -> (run: PresenceRun)
    requires
        outcomes_wf(first_keepalive@),
        first_keepalive@.len() >= 1,
        forall|i: int| 0 <= i < events@.len() ==> event_wf(#[trigger] events@[i]),
        events@.len() >= timeout_iterations,
        timeout_iterations <= isize::MAX,
    ensures
        (run.iterations as int, run.result) == spec_presence_result(
            cid,
            first_keepalive@,
            events@,
            timeout_iterations as int,
        ),
        run.iterations <= timeout_iterations,
        run.led_trace@ == spec_led_trace(run.iterations as int),
        run.led_trace@.len() >= 1,
        run.led_trace@.last() == spec_off(),
{
    let mut led_trace: Vec<Leds> = Vec::new();
    let first = send_keepalive_up_needed(cid, first_keepalive);
    if let Err(e) = first {
        led_trace.push(switch_off_leds());
        assert(led_trace@ =~= spec_led_trace(0));
        return PresenceRun { result: Err(e), iterations: 0, led_trace };
    }
    let ghost total = spec_presence_loop(cid, events@, timeout_iterations as int);
    proof {
        assert(events@.skip(0) =~= events@);
    }
    let mut decided: Option<Result<(), CtapError>> = None;
    let mut i: usize = 0;
    while i < timeout_iterations && decided.is_none()
        invariant
            i <= timeout_iterations <= events@.len(),
            timeout_iterations <= isize::MAX,
            outcomes_wf(first_keepalive@),
            forall|j: int| 0 <= j < events@.len() ==> event_wf(#[trigger] events@[j]),
            led_trace@ == Seq::new(i as nat, |k: int| spec_blink(k)),
            total == spec_presence_loop(cid, events@, timeout_iterations as int),
            decided is None ==> total == {
                let rest = spec_presence_loop(
                    cid,
                    events@.skip(i as int),
                    timeout_iterations - i,
                );
                (i + rest.0, rest.1)
            },
            decided matches Some(r) ==> (i as int, r) == total,
        decreases timeout_iterations - i,
    {
        led_trace.push(blink_leds(i as isize));
        proof {
            assert(led_trace@ =~= Seq::new((i + 1) as nat, |k: int| spec_blink(k)));
        }
        proof {
            assert(events@.skip(i as int).first() == events@[i as int]);
            assert(events@.skip(i as int).drop_first() =~= events@.skip(i as int + 1));
        }
        match &events[i] {
            PresenceEvent::ButtonPressed => {
                decided = Some(Ok(()));
                i = i + 1;
            },
            PresenceEvent::DelayElapsed(outs) => {
                assert(event_wf(events@[i as int]));
                let r = send_keepalive_up_needed(cid, outs);
                match r {
                    Ok(u) => {
                        i = i + 1;
                    },
                    Err(e) => {
                        decided = Some(Err(e));
                        i = i + 1;
                    },
                }
            },
        }
    }
    let outcome: Result<(), CtapError> = match decided {
        Some(r) => r,
        None => {
            proof {
                assert(events@.skip(i as int).len() == events@.len() - i);
            }
            Err(CtapError::TimedOut)
        },
    };
    let iterations = i;
    led_trace.push(switch_off_leds());
    proof {
        assert(led_trace@ =~= spec_led_trace(iterations as int));
    }
    PresenceRun { result: outcome, iterations, led_trace }
}

} // verus!
