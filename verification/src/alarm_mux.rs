//! Virtual alarm multiplexer: shares the single hardware alarm register
//! among many independent logical timers.
//!
//! Each client occupies a stable slot holding an optional absolute deadline
//! (a raw counter value).  The multiplexer exclusively owns the hardware
//! compare register, modelled by `hw_alarm`; the caller mirrors that field
//! into the real register after every operation.  When the hardware alarm
//! fires, the caller runs two passes: `take_elapsed` clears and reports
//! every elapsed deadline (so a callback re-registering itself during the
//! same invocation cannot fire twice), the callbacks run, and `reprogram`
//! recomputes the minimum outstanding deadline only after all of them are
//! done.  Elapsed-ness is decided by wrapping subtraction, so counter
//! wraparound never makes a deadline look arbitrarily far in the past or
//! future.  If programming the real register fails because the deadline is
//! already in the past, the caller simply runs the firing passes at once:
//! the due client is then treated as immediately ready instead of being
//! silently dropped.

use vstd::prelude::*;

verus! {

/// Half of the counter range: a deadline at most this far behind the
/// current counter value counts as elapsed.
pub const HALF_RANGE: u64 = 0x8000_0000_0000_0000;

/// Whether `deadline` has elapsed at counter value `now`, by wrapping
/// subtraction.
pub open spec fn spec_elapsed(deadline: u64, now: u64) -> bool {
    now.wrapping_sub(deadline) < HALF_RANGE
}

/// Executable form of [`spec_elapsed`].
pub fn has_elapsed(deadline: u64, now: u64) -> (r: bool)
    ensures
        r == spec_elapsed(deadline, now),
{
    now.wrapping_sub(deadline) < HALF_RANGE
}

/// The slots of the elapsed deadlines of `s`, in increasing order: the
/// clients that one firing pass reports.
pub open spec fn spec_elapsed_handles(s: Seq<Option<u64>>, now: u64) -> Seq<usize>
    decreases s.len(),
{
    if s.len() == 0 {
        Seq::empty()
    } else {
        spec_elapsed_handles(s.drop_last(), now) + (
        if s.last() matches Some(d) && spec_elapsed(d, now) {
            seq![(s.len() - 1) as usize]
        } else {
            Seq::empty()
        })
    }
}

/// One hardware alarm, many logical deadlines.
pub struct AlarmMux {
    deadlines: Vec<Option<u64>>,
    hw_alarm: Option<u64>,
}

impl AlarmMux {
    /// The deadline slots, as the contracts see them.
    pub closed spec fn clients(&self) -> Seq<Option<u64>> {
        self.deadlines@
    }

    /// The value the hardware compare register is programmed to, or `None`
    /// when it is unarmed.
    pub closed spec fn hw(&self) -> Option<u64> {
        self.hw_alarm
    }

    /// Multiplexer minimality: the hardware alarm is programmed to exactly
    /// the minimum pending deadline, or left unset if no client is pending.
    pub open spec fn consistent(&self) -> bool {
        match self.hw() {
            None => forall|i: int|
                0 <= i < self.clients().len() ==> (#[trigger] self.clients()[i]) is None,
            Some(h) => {
                &&& exists|i: int|
                    0 <= i < self.clients().len() && #[trigger] self.clients()[i] == Some(h)
                &&& forall|i: int|
                    0 <= i < self.clients().len() && (#[trigger] self.clients()[i]) is Some
                        ==> h <= self.clients()[i]->Some_0
            },
        }
    }

    /// A multiplexer with no clients and the hardware alarm unarmed.
    pub fn new() -> (m: Self)
        ensures
            m.clients().len() == 0,
            m.hw() is None,
            m.consistent(),
    {
        AlarmMux { deadlines: Vec::new(), hw_alarm: None }
    }

    /// Adds a client slot, initially unarmed, and returns its handle.
    pub fn add_client(&mut self) -> (handle: usize)
        ensures
            handle == old(self).clients().len(),
            final(self).clients() == old(self).clients().push(None::<u64>),
            final(self).hw() == old(self).hw(),
            old(self).consistent() ==> final(self).consistent(),
    {
        let handle = self.deadlines.len();
        self.deadlines.push(None);
        proof {
            if old(self).consistent() {
                match old(self).hw() {
                    Option::None => {
                        assert forall|i: int|
                            0 <= i < self.clients().len() implies (#[trigger] self.clients()[i])
                            is None by {
                            if i < old(self).clients().len() {
                                assert(self.clients()[i] == old(self).clients()[i]);
                            }
                        }
                    },
                    Option::Some(h) => {
                        let w = choose|i: int|
                            0 <= i < old(self).clients().len() && #[trigger] old(self).clients()[i]
                                == Some(h);
                        assert(self.clients()[w] == Some(h));
                        assert forall|i: int|
                            0 <= i < self.clients().len() && (#[trigger] self.clients()[i])
                                is Some implies h <= self.clients()[i]->Some_0 by {
                            if i < old(self).clients().len() {
                                assert(self.clients()[i] == old(self).clients()[i]);
                            }
                        }
                    },
                }
            }
        }
        handle
    }

    /// How many client slots exist.
    pub fn num_clients(&self) -> (n: usize)
        ensures
            n == self.clients().len(),
    {
        self.deadlines.len()
    }

    /// The deadline a client slot holds.
    pub fn client_deadline(&self, handle: usize) -> (d: Option<u64>)
        requires
            handle < self.clients().len(),
        ensures
            d == self.clients()[handle as int],
    {
        self.deadlines[handle]
    }

    /// The value to mirror into the hardware compare register.
    pub fn alarm_target(&self) -> (t: Option<u64>)
        ensures
            t == self.hw(),
    {
        self.hw_alarm
    }

    /// Arms an unarmed client slot with a deadline `delay` counter ticks
    /// from `now` (wrapping).  The hardware alarm is reprogrammed only when
    /// the new deadline is sooner than its current value; if the hardware
    /// would already fire no later than needed, it is left untouched.
    pub fn register(&mut self, handle: usize, now: u64, delay: u64) -> (deadline: u64)
        requires
            handle < old(self).clients().len(),
            old(self).clients()[handle as int] is None,
        ensures
            deadline == now.wrapping_add(delay),
            final(self).clients() == old(self).clients().update(
                handle as int,
                Some(now.wrapping_add(delay)),
            ),
            final(self).hw() == match old(self).hw() {
                None => Some(now.wrapping_add(delay)),
                Some(h) => if now.wrapping_add(delay) < h {
                    Some(now.wrapping_add(delay))
                } else {
                    Some(h)
                },
            },
            old(self).consistent() ==> final(self).consistent(),
    {
        let deadline = now.wrapping_add(delay);
        self.deadlines.set(handle, Some(deadline));
        self.hw_alarm = match self.hw_alarm {
            None => Some(deadline),
            Some(h) => if deadline < h {
                Some(deadline)
            } else {
                Some(h)
            },
        };
        proof {
            if old(self).consistent() {
                match old(self).hw() {
                    Option::None => {
                        assert(self.clients()[handle as int] == Some(deadline));
                        assert forall|i: int|
                            0 <= i < self.clients().len() && (#[trigger] self.clients()[i])
                                is Some implies deadline <= self.clients()[i]->Some_0 by {
                            if i != handle {
                                assert(self.clients()[i] == old(self).clients()[i]);
                            }
                        }
                    },
                    Option::Some(h) => {
                        let w = choose|i: int|
                            0 <= i < old(self).clients().len() && #[trigger] old(self).clients()[i]
                                == Some(h);
                        assert(w != handle);
                        if deadline < h {
                            assert(self.clients()[handle as int] == Some(deadline));
                            assert forall|i: int|
                                0 <= i < self.clients().len() && (#[trigger] self.clients()[i])
                                    is Some implies deadline <= self.clients()[i]->Some_0 by {
                                if i != handle {
                                    assert(self.clients()[i] == old(self).clients()[i]);
                                }
                            }
                        } else {
                            assert(self.clients()[w] == Some(h));
                            assert forall|i: int|
                                0 <= i < self.clients().len() && (#[trigger] self.clients()[i])
                                    is Some implies h <= self.clients()[i]->Some_0 by {
                                if i != handle {
                                    assert(self.clients()[i] == old(self).clients()[i]);
                                }
                            }
                        }
                    },
                }
            }
        }
        deadline
    }

    /// Disarms a client slot and reprograms the hardware alarm to the
    /// minimum deadline that remains pending, or unsets it if none does.
    pub fn cancel(&mut self, handle: usize)
        requires
            handle < old(self).clients().len(),
        ensures
            final(self).clients() == old(self).clients().update(handle as int, None::<u64>),
            final(self).consistent(),
    {
        self.deadlines.set(handle, None);
        self.reprogram();
    }

    /// Recomputes the minimum outstanding deadline and programs the
    /// hardware alarm to it: the second pass of a firing, run only after
    /// every callback of the first pass has finished, so that a callback
    /// rewriting its deadline mid-pass cannot race the minimum.
    pub fn reprogram(&mut self)
        ensures
            final(self).clients() == old(self).clients(),
            final(self).consistent(),
    {
        let n = self.deadlines.len();
        let mut best: Option<u64> = None;
        let mut i: usize = 0;
        while i < n
            invariant
                i <= n,
                n == self.clients().len(),
                self.clients() == old(self).clients(),
                self.hw() == old(self).hw(),
                match best {
                    None => forall|j: int| 0 <= j < i ==> (#[trigger] self.clients()[j]) is None,
                    Some(b) => {
                        &&& exists|j: int| 0 <= j < i && #[trigger] self.clients()[j] == Some(b)
                        &&& forall|j: int|
                            0 <= j < i && (#[trigger] self.clients()[j]) is Some
                                ==> b <= self.clients()[j]->Some_0
                    },
                },
            decreases n - i,
        {
            if let Some(d) = self.deadlines[i] {
                best = match best {
                    None => Some(d),
                    Some(b) => if d < b {
                        Some(d)
                    } else {
                        Some(b)
                    },
                };
            }
            i = i + 1;
        }
        self.hw_alarm = best;
    }

    /// The first pass of a firing: consumes the hardware alarm, clears
    /// every elapsed deadline, and reports their handles in increasing
    /// order.  Each elapsed client is reported exactly once and left
    /// unarmed, so a callback that re-registers itself with an equal or
    /// earlier deadline during the same invocation is not fired again.
    pub fn take_elapsed(&mut self, now: u64) -> (fired: Vec<usize>)
        ensures
            final(self).clients().len() == old(self).clients().len(),
            forall|i: int|
                0 <= i < old(self).clients().len() ==> final(self).clients()[i] == (
                if old(self).clients()[i] matches Some(d) && spec_elapsed(d, now) {
                    None::<u64>
                } else {
                    old(self).clients()[i]
                }),
            final(self).hw() is None,
            fired@ == spec_elapsed_handles(old(self).clients(), now),
    {
        let ghost orig = self.clients();
        let n = self.deadlines.len();
        let mut fired: Vec<usize> = Vec::new();
        let mut i: usize = 0;
        while i < n
            invariant
                i <= n,
                n == orig.len(),
                self.clients().len() == orig.len(),
                self.hw() == old(self).hw(),
                forall|j: int|
                    i <= j < orig.len() ==> #[trigger] self.clients()[j] == orig[j],
                forall|j: int|
                    0 <= j < i ==> #[trigger] self.clients()[j] == (
                    if orig[j] matches Some(d) && spec_elapsed(d, now) {
                        None::<u64>
                    } else {
                        orig[j]
                    }),
                fired@ == spec_elapsed_handles(orig.take(i as int), now),
            decreases n - i,
        {
            if let Some(d) = self.deadlines[i] {
                if has_elapsed(d, now) {
                    fired.push(i);
                    self.deadlines.set(i, None);
                }
            }
            i = i + 1;
            proof {
                assert(orig.take(i as int).drop_last() =~= orig.take(i - 1));
                assert(orig.take(i as int).last() == orig[i - 1]);
            }
        }
        proof {
            assert(orig.take(n as int) =~= orig);
        }
        self.hw_alarm = None;
        fired
    }
}

/// No double fire: the handles one firing pass reports are all distinct
/// (strictly increasing), lie within the client slots, and a slot is
/// reported precisely when its deadline had elapsed.  Together with
/// `take_elapsed` leaving every reported slot unarmed, a client fires
/// exactly once per elapsed deadline, even if its callback re-registers it
/// with an equal or earlier deadline during the same invocation.
pub proof fn lemma_no_double_fire(s: Seq<Option<u64>>, now: u64)
    requires
        s.len() <= usize::MAX,
    ensures
        forall|k: int|
            0 <= k < spec_elapsed_handles(s, now).len()
                ==> (#[trigger] spec_elapsed_handles(s, now)[k]) < s.len(),
        forall|a: int, b: int|
            0 <= a < b < spec_elapsed_handles(s, now).len()
                ==> spec_elapsed_handles(s, now)[a] < spec_elapsed_handles(s, now)[b],
        forall|h: int|
            0 <= h < s.len() ==> (spec_elapsed_handles(s, now).contains(h as usize) <==> (
            #[trigger] s[h] matches Some(d) && spec_elapsed(d, now))),
    decreases s.len(),
{
    let f = spec_elapsed_handles(s, now);
    if s.len() > 0 {
        let s0 = s.drop_last();
        lemma_no_double_fire(s0, now);
        let prefix = spec_elapsed_handles(s0, now);
        let last_elapsed = s.last() matches Some(d) && spec_elapsed(d, now);
        let tail: Seq<usize> = if last_elapsed {
            seq![(s.len() - 1) as usize]
        } else {
            Seq::empty()
        };
        assert(f == prefix + tail);
        assert forall|k: int| 0 <= k < f.len() implies (#[trigger] f[k]) < s.len() by {
            if k < prefix.len() {
                assert(f[k] == prefix[k]);
            } else {
                assert(f[k] == tail[k - prefix.len()]);
            }
        }
        assert forall|a: int, b: int| 0 <= a < b < f.len() implies f[a] < f[b] by {
            if b < prefix.len() {
                assert(f[a] == prefix[a] && f[b] == prefix[b]);
            } else {
                assert(b == prefix.len() && last_elapsed);
                assert(f[a] == prefix[a]);
                assert((prefix[a] as int) < s0.len());
                assert(f[b] == tail[0]);
            }
        }
        assert forall|h: int| 0 <= h < s.len() implies (f.contains(h as usize) <==> (
        #[trigger] s[h] matches Some(d) && spec_elapsed(d, now))) by {
            let hu = h as usize;
            if h < s.len() - 1 {
                assert(s0[h] == s[h]);
                if prefix.contains(hu) {
                    let k = choose|k: int| 0 <= k < prefix.len() && prefix[k] == hu;
                    assert(f[k] == hu);
                    assert(f.contains(hu));
                }
                if f.contains(hu) {
                    let k = choose|k: int| 0 <= k < f.len() && f[k] == hu;
                    if k < prefix.len() {
                        assert(prefix[k] == hu);
                        assert(prefix.contains(hu));
                    } else {
                        assert(last_elapsed && f[k] == tail[0]);
                        assert(false);
                    }
                }
            } else {
                if last_elapsed {
                    assert(f[prefix.len() as int] == hu);
                    assert(f.contains(hu));
                }
                if f.contains(hu) {
                    let k = choose|k: int| 0 <= k < f.len() && f[k] == hu;
                    if k < prefix.len() {
                        assert(prefix[k] == hu);
                        assert((prefix[k] as int) < s0.len());
                        assert(false);
                    } else {
                        assert(last_elapsed);
                    }
                }
            }
        }
    }
}

} // verus!
