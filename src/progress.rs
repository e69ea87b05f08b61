//! Progress of a sweep as the reporter sees it: counts, rate and the time
//! left. The clock is read by the caller and handed in as milliseconds.

use vstd::prelude::*;

verus! {

/// Milliseconds from `earlier` to `later`, or 0 if the clock went back.
pub open spec fn elapsed(earlier: u64, later: u64) -> nat {
    if later >= earlier {
        (later - earlier) as nat
    } else {
        0
    }
}

/// Completed attempts per second over `elapsed_ms`, rounded down; 0 before any time has passed.
pub open spec fn rate_per_second(completed: nat, elapsed_ms: nat) -> nat {
    if elapsed_ms == 0 {
        0
    } else {
        completed * 1000 / elapsed_ms
    }
}

/// Completed attempts per second over `elapsed_ms`, rounded down.
pub fn attempts_per_second(completed: usize, elapsed_ms: u64) -> (r: u128)
    ensures
        r == rate_per_second(completed as nat, elapsed_ms as nat),
{
    if elapsed_ms == 0 {
        0
    } else {
        (completed as u128) * 1000 / (elapsed_ms as u128)
    }
}

/// Milliseconds still needed for `total - current` items at the rate seen so
/// far, rounded down; unknown before the first item, 0 once all are done.
pub open spec fn eta_ms(total: nat, current: nat, elapsed_ms: nat) -> Option<nat> {
    if current == 0 {
        None
    } else if current >= total {
        Some(0)
    } else {
        Some(((total - current) as nat * elapsed_ms) / current)
    }
}

/// A progress counter that says when a status line is due: at most one per interval.
pub struct SimpleProgress {
    total: usize,
    current: usize,
    start_ms: u64,
    last_print_ms: u64,
    print_interval_ms: u64,
}

impl SimpleProgress {
    pub closed spec fn spec_total(&self) -> nat {
        self.total as nat
    }

    pub closed spec fn spec_current(&self) -> nat {
        self.current as nat
    }

    pub closed spec fn spec_start_ms(&self) -> u64 {
        self.start_ms
    }

    pub closed spec fn spec_last_print_ms(&self) -> u64 {
        self.last_print_ms
    }

    pub closed spec fn spec_interval_ms(&self) -> u64 {
        self.print_interval_ms
    }

    /// A counter for `total` items started at `now_ms`, due a status line every second.
    pub fn new(total: usize, now_ms: u64) -> (p: Self)
        ensures
            p.spec_total() == total,
            p.spec_current() == 0,
            p.spec_start_ms() == now_ms,
            p.spec_last_print_ms() == now_ms,
            p.spec_interval_ms() == 1000,
    {
        SimpleProgress { total, current: 0, start_ms: now_ms, last_print_ms: now_ms, print_interval_ms: 1000 }
    }

    /// Items done so far.
    pub fn current(&self) -> (n: usize)
        ensures
            n == self.spec_current(),
    {
        self.current
    }

    /// Items in all.
    pub fn total(&self) -> (n: usize)
        ensures
            n == self.spec_total(),
    {
        self.total
    }

    /// Counts `increment` more items done at `now_ms`, and says whether a
    /// status line is due: a full interval has passed since the last one.
    pub fn update(&mut self, increment: usize, now_ms: u64) -> (due: bool)
        requires
            old(self).spec_current() + increment <= usize::MAX,
        ensures
            final(self).spec_current() == old(self).spec_current() + increment,
            final(self).spec_total() == old(self).spec_total(),
            final(self).spec_start_ms() == old(self).spec_start_ms(),
            final(self).spec_interval_ms() == old(self).spec_interval_ms(),
            due == (elapsed(old(self).spec_last_print_ms(), now_ms) >= old(self).spec_interval_ms()),
            final(self).spec_last_print_ms() == if due {
                now_ms
            } else {
                old(self).spec_last_print_ms()
            },
    {
        self.current = self.current + increment;
        let since = if now_ms >= self.last_print_ms {
            now_ms - self.last_print_ms
        } else {
            0
        };
        if since >= self.print_interval_ms {
            self.last_print_ms = now_ms;
            true
        } else {
            false
        }
    }

    /// Marks every item done.
    pub fn finish(&mut self)
        ensures
            final(self).spec_current() == old(self).spec_total(),
            final(self).spec_total() == old(self).spec_total(),
            final(self).spec_start_ms() == old(self).spec_start_ms(),
            final(self).spec_last_print_ms() == old(self).spec_last_print_ms(),
            final(self).spec_interval_ms() == old(self).spec_interval_ms(),
    {
        self.current = self.total;
    }

    /// Milliseconds since the start, as of `now_ms`.
    pub fn elapsed_ms(&self, now_ms: u64) -> (e: u64)
        ensures
            e == elapsed(self.spec_start_ms(), now_ms),
    {
        if now_ms >= self.start_ms {
            now_ms - self.start_ms
        } else {
            0
        }
    }

    /// The time left, as of `now_ms`, at the rate seen so far.
    pub fn estimate_eta(&self, now_ms: u64) -> (r: Option<u128>)
        ensures
            match eta_ms(self.spec_total(), self.spec_current(), elapsed(self.spec_start_ms(), now_ms)) {
                Some(v) => r == Some(v as u128),
                None => r is None,
            },
    {
        if self.current == 0 {
            return None;
        }
        if self.current >= self.total {
            return Some(0);
        }
        let e = self.elapsed_ms(now_ms);
        let left = (self.total - self.current) as u128;
        assert(left * (e as u128) <= 0xFFFF_FFFF_FFFF_FFFFu128 * 0xFFFF_FFFF_FFFF_FFFFu128) by (nonlinear_arith)
            requires
                left <= 0xFFFF_FFFF_FFFF_FFFFu128,
                e <= 0xFFFF_FFFF_FFFF_FFFFu64,
        ;
        Some(left * (e as u128) / (self.current as u128))
    }
}

} // verus!
