//! Adaptive timeout policy: exponential backoff for repeated download
//! attempts.
//!
//! A download sleeps for the current `initial` milliseconds after each
//! unsuccessful attempt, then grows `initial` multiplicatively, capped at
//! `max`. The policy is passed by value into each download so that
//! successive downloads start fresh.

use vstd::prelude::*;

verus! {

/// The multiplier denominator: the growth factor is held in permille, so
/// a factor of 1.2 is stored as 1200.
pub const PERMILLE: u64 = 1000;

/// Backoff policy for repeated download attempts: a triple of the current
/// delay, the cap, and the growth factor. All delays are milliseconds; the
/// growth factor is held in permille (1200 means one fifth more per step)
/// and is at least one.
#[derive(Clone, Copy, Debug, PartialEq, Eq, Structural)]
pub struct DownloaderTimeouts {
    /// Milliseconds slept before the next attempt.
    pub initial: u64,
    /// Milliseconds; `initial` never grows past this cap.
    pub max: u64,
    /// Growth factor in permille; at least 1000.
    pub multiplier_permille: u64,
}

impl DownloaderTimeouts {
    /// A policy is well formed when the factor does not shrink the delay
    /// and one growth step cannot overflow.
    pub open spec fn wf(self) -> bool {
        &&& self.multiplier_permille >= 1000
        &&& self.initial <= self.max
        &&& self.max * self.multiplier_permille <= u64::MAX
    }

    /// The delay after one growth step: the delay is multiplied by the
    /// factor, rounded down, and capped at `max`.
    pub open spec fn spec_step(self) -> DownloaderTimeouts {
        DownloaderTimeouts {
            initial: if self.initial * self.multiplier_permille / 1000 <= self.max {
                (self.initial * self.multiplier_permille / 1000) as u64
            } else {
                self.max
            },
            ..self
        }
    }

    /// The delay after `n` growth steps.
    pub open spec fn spec_after(self, n: nat) -> DownloaderTimeouts
        decreases n,
    {
        if n == 0 {
            self
        } else {
            self.spec_after((n - 1) as nat).spec_step()
        }
    }

    /// The policy used for block downloads, as a specification value.
    pub open spec fn spec_block_download_policy() -> DownloaderTimeouts {
        DownloaderTimeouts { initial: 200u64, max: 1000u64, multiplier_permille: 1200u64 }
    }

    /// The policy used for block downloads: 200 ms initial delay, grown by
    /// a fifth per attempt, capped at one second.
    pub fn for_block_download() -> (r: DownloaderTimeouts)
        ensures
            r == DownloaderTimeouts::spec_block_download_policy(),
            r.wf(),
    {
        DownloaderTimeouts { initial: 200, max: 1000, multiplier_permille: 1200 }
    }

    /// Grows the delay by one step: `initial` becomes
    /// `min(max, initial * multiplier / 1000)`. Returns the new delay.
    pub fn update(&mut self) -> (r: u64)
        requires
            old(self).wf(),
        ensures
            *final(self) == old(self).spec_step(),
            final(self).wf(),
            r == final(self).initial,
            final(self).initial >= old(self).initial || final(self).initial == old(self).max,
    {
        proof {
            let s = *self;
            assert(s.initial * s.multiplier_permille <= s.max * s.multiplier_permille) by (
            nonlinear_arith)
                requires
                    s.initial <= s.max,
                    s.multiplier_permille >= 0,
            ;
            assert(s.initial * s.multiplier_permille / 1000 >= s.initial * 1000 / 1000) by (
            nonlinear_arith)
                requires
                    s.multiplier_permille >= 1000,
                    s.initial >= 0,
            ;
            assert(s.initial * 1000 / 1000 == s.initial) by (nonlinear_arith)
                requires
                    s.initial >= 0,
            ;
        }
        let grown = self.initial * self.multiplier_permille / PERMILLE;
        self.initial = if grown <= self.max {
            grown
        } else {
            self.max
        };
        self.initial
    }
}

/// Backoff law: the delay after `n` unsuccessful attempts is the `n`-fold
/// growth step of the starting policy, it never exceeds the cap once it
/// has been stepped at least once from a well-formed start, and it never
/// shrinks below the starting delay while the cap is not reached.
pub proof fn lemma_backoff_after_steps(t: DownloaderTimeouts, n: nat)
    requires
        t.wf(),
    ensures
        t.spec_after(n).wf(),
        t.spec_after(n).max == t.max,
        t.spec_after(n).multiplier_permille == t.multiplier_permille,
        t.spec_after(n).initial <= t.max,
        t.spec_after(n).initial >= t.initial || t.spec_after(n).initial == t.max,
    decreases n,
{
    if n > 0 {
        lemma_backoff_after_steps(t, (n - 1) as nat);
        let s = t.spec_after((n - 1) as nat);
        assert(s.initial * s.multiplier_permille / 1000 >= s.initial * 1000 / 1000) by (
        nonlinear_arith)
            requires
                s.multiplier_permille >= 1000,
                s.initial >= 0,
        ;
        assert(s.initial * 1000 / 1000 == s.initial) by (nonlinear_arith)
            requires
                s.initial >= 0,
        ;
    }
}

/// The delays of the block-download policy: after each unsuccessful
/// attempt the policy sleeps 200, 240, 288, 345 and 414 milliseconds in
/// turn (each step multiplies by 1.2 and rounds down), and from the tenth
/// step on the delay stays at the cap of 1000 milliseconds.
pub proof fn lemma_block_download_delays()
    ensures
        ({
            let t = DownloaderTimeouts { initial: 200u64, max: 1000u64, multiplier_permille: 1200u64 };
            &&& t.spec_after(0).initial == 200
            &&& t.spec_after(1).initial == 240
            &&& t.spec_after(2).initial == 288
            &&& t.spec_after(3).initial == 345
            &&& t.spec_after(4).initial == 414
            &&& t.spec_after(5).initial == 496
            &&& t.spec_after(8).initial == 856
            &&& t.spec_after(9).initial == 1000
            &&& t.spec_after(10).initial == 1000
        }),
{
    let t = DownloaderTimeouts { initial: 200u64, max: 1000u64, multiplier_permille: 1200u64 };
    reveal_with_fuel(DownloaderTimeouts::spec_after, 11);
    assert(t.spec_after(0) == t);
    assert(t.spec_after(1) == t.spec_after(0).spec_step());
    assert(t.spec_after(1).initial == 240);
    assert(t.spec_after(2) == t.spec_after(1).spec_step());
    assert(t.spec_after(2).initial == 288);
    assert(t.spec_after(3) == t.spec_after(2).spec_step());
    assert(t.spec_after(3).initial == 345);
    assert(t.spec_after(4) == t.spec_after(3).spec_step());
    assert(t.spec_after(4).initial == 414);
    assert(t.spec_after(5) == t.spec_after(4).spec_step());
    assert(t.spec_after(5).initial == 496);
    assert(t.spec_after(6) == t.spec_after(5).spec_step());
    assert(t.spec_after(6).initial == 595);
    assert(t.spec_after(7) == t.spec_after(6).spec_step());
    assert(t.spec_after(7).initial == 714);
    assert(t.spec_after(8) == t.spec_after(7).spec_step());
    assert(t.spec_after(8).initial == 856);
    assert(t.spec_after(9) == t.spec_after(8).spec_step());
    assert(t.spec_after(9).initial == 1000);
    assert(t.spec_after(10) == t.spec_after(9).spec_step());
    assert(t.spec_after(10).initial == 1000);
}

} // verus!
