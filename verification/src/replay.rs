//! The sliding anti-replay window kept per session: each accepted nonce
//! counter is accepted at most once, and counters that fall behind the
//! window are refused.

use vstd::prelude::*;

verus! {

/// Number of counters the window can distinguish behind the highest one.
pub const REPLAY_WINDOW_SIZE: u64 = 8192;

/// Sliding replay window over 64-bit nonce counters.
///
/// `bits[c % REPLAY_WINDOW_SIZE]` records counter `c` for the counters in
/// the window `(top - REPLAY_WINDOW_SIZE, top]`; `top` is the highest
/// counter accepted so far, meaningful once `started` holds.
pub struct ReplayWindow {
    started: bool,
    top: u64,
    bits: Vec<bool>,
}

/// Congruent counters are at least one window apart: if `e` and `d` share a
/// window slot and `e` is larger, `e` lies a full window above `d`.
proof fn lemma_mod_gap(d: u64, e: u64)
    by (nonlinear_arith)
    requires
        e % REPLAY_WINDOW_SIZE == d % REPLAY_WINDOW_SIZE,
        e > d,
    ensures
        e >= d + REPLAY_WINDOW_SIZE,
{
}

impl ReplayWindow {
    /// The window's bookkeeping is the right size.
    pub closed spec fn wf(self) -> bool {
        self.bits@.len() == REPLAY_WINDOW_SIZE
    }

    /// Whether the window would accept counter `c` in its present state.
    pub closed spec fn accepts(self, c: u64) -> bool {
        !self.started || c > self.top || (self.top - c < REPLAY_WINDOW_SIZE
            && !self.bits@[(c % REPLAY_WINDOW_SIZE) as int])
    }

    /// A window with nothing accepted.
    pub fn new() -> (r: ReplayWindow)
        ensures
            r.wf(),
            forall|c: u64| r.accepts(c),
    {
        let mut bits: Vec<bool> = Vec::new();
        let mut i: u64 = 0;
        while i < REPLAY_WINDOW_SIZE
            invariant
                i <= REPLAY_WINDOW_SIZE,
                bits@.len() == i,
            decreases REPLAY_WINDOW_SIZE - i,
        {
            bits.push(false);
            i = i + 1;
        }
        ReplayWindow { started: false, top: 0, bits }
    }

    /// Accepts or refuses counter `c`, recording it when accepted.
    ///
    /// Refused counters leave the window unchanged; a counter once refused
    /// is refused forever after, and an accepted counter is refused from
    /// that moment on.
    pub fn check_and_accept(&mut self, c: u64) -> (r: bool)
        requires
            old(self).wf(),
        ensures
            final(self).wf(),
            r == old(self).accepts(c),
            !r ==> *final(self) == *old(self),
            r ==> !final(self).accepts(c),
            forall|d: u64| !old(self).accepts(d) ==> !final(self).accepts(d),
    {
        if !self.started {
            self.started = true;
            self.top = c;
            let idx = (c % REPLAY_WINDOW_SIZE) as usize;
            self.bits[idx] = true;
            return true;
        }
        if c > self.top {
            let old_top = self.top;
            // First counter whose window slot must be cleared.
            let start: u64 = if c - self.top > REPLAY_WINDOW_SIZE - 1 {
                c - (REPLAY_WINDOW_SIZE - 1)
            } else {
                self.top + 1
            };
            let count: u64 = c - start + 1;
            let mut k: u64 = 0;
            while k < count
                invariant
                    self.wf(),
                    self.started == old(self).started,
                    self.top == old(self).top,
                    old(self).top < start,
                    start + count - 1 == c,
                    count <= REPLAY_WINDOW_SIZE,
                    k <= count,
                    forall|d: u64| #![trigger d % REPLAY_WINDOW_SIZE]
                        start <= d < start + k ==> !self.bits@[(d % REPLAY_WINDOW_SIZE) as int],
                    forall|d: u64| #![trigger d % REPLAY_WINDOW_SIZE]
                        d < start && start + k <= d + REPLAY_WINDOW_SIZE ==> self.bits@[(d
                            % REPLAY_WINDOW_SIZE) as int] == old(self).bits@[(d
                            % REPLAY_WINDOW_SIZE) as int],
                decreases count - k,
            {
                let e = start + k;
                let idx = (e % REPLAY_WINDOW_SIZE) as usize;
                self.bits[idx] = false;
                proof {
                    assert forall|d: u64| #![trigger d % REPLAY_WINDOW_SIZE]
                        d < start && start + k + 1 <= d + REPLAY_WINDOW_SIZE implies self
                        .bits@[(d % REPLAY_WINDOW_SIZE) as int] == old(self).bits@[(d
                        % REPLAY_WINDOW_SIZE) as int] by {
                        if d % REPLAY_WINDOW_SIZE == e % REPLAY_WINDOW_SIZE && d != e {
                            if d < e {
                                lemma_mod_gap(d, e);
                            } else {
                                lemma_mod_gap(e, d);
                            }
                        }
                    }
                }
                k = k + 1;
            }
            let idx = (c % REPLAY_WINDOW_SIZE) as usize;
            self.bits[idx] = true;
            self.top = c;
            proof {
                assert(!self.accepts(c));
                assert forall|d: u64| !old(self).accepts(d) implies !self.accepts(d) by {
                    if d <= old_top && c - d < REPLAY_WINDOW_SIZE {
                        if d % REPLAY_WINDOW_SIZE == c % REPLAY_WINDOW_SIZE && d != c {
                            lemma_mod_gap(d, c);
                        }
                        assert(start <= d + REPLAY_WINDOW_SIZE);
                    }
                }
            }
            return true;
        }
        // c <= top: refuse stale or repeated counters.
        if self.top - c > REPLAY_WINDOW_SIZE - 1 {
            return false;
        }
        let idx = (c % REPLAY_WINDOW_SIZE) as usize;
        if self.bits[idx] {
            return false;
        }
        self.bits[idx] = true;
        proof {
            assert forall|d: u64| !old(self).accepts(d) implies !self.accepts(d) by {
                assert(self.bits@ == old(self).bits@.update(idx as int, true));
            }
        }
        true
    }
}

} // verus!
