//! The completion counter of a scan and the progress figures derived from it.

use vstd::prelude::*;

verus! {

/// A progress update is due at every multiple of this many completed probes.
pub const REPORT_EVERY: usize = 100;

/// Whether a progress update is due when the counter has just reached
/// `completed`: at every multiple of `REPORT_EVERY`, and at the end.
pub open spec fn report_due(completed: nat, total: nat) -> bool {
    completed % (REPORT_EVERY as nat) == 0 || completed == total
}

/// Share of the work done, in tenths of a percent: `completed / total * 1000`
/// rounded to the nearest whole number, a tie going to the even one.
pub open spec fn percent_tenths(completed: nat, total: nat) -> nat {
    let scaled = completed * 1000;
    let whole = scaled / total;
    let rest = scaled % total;
    if 2 * rest > total || (2 * rest == total && whole % 2 == 1) {
        whole + 1
    } else {
        whole
    }
}

/// Projected time left, in whole seconds: the mean time per completed probe,
/// `elapsed_ms / completed`, times the probes still to do, cut down to
/// seconds.
pub open spec fn eta_secs(completed: nat, total: nat, elapsed_ms: nat) -> nat {
    (elapsed_ms * (total - completed)) as nat / (completed * 1000)
}

/// The completion counts from 1 to `count` at which a progress update is due
/// in a scan of `total` probes, ascending.
pub open spec fn reports_until(count: nat, total: nat) -> Seq<usize>
    decreases count,
{
    if count == 0 {
        Seq::empty()
    } else {
        let earlier = reports_until((count - 1) as nat, total);
        if report_due(count, total) {
            earlier.push(count as usize)
        } else {
            earlier
        }
    }
}

/// The completion counts at which a scan of `total` probes reports its
/// progress, in the order in which it reaches them.
pub open spec fn report_points(total: nat) -> Seq<usize> {
    reports_until(total, total)
}

/// The figures of one progress update.
#[derive(Clone, Copy, Debug, PartialEq, Eq)]
pub struct Progress {
    /// Probes that have returned so far.
    pub completed: usize,
    /// Probes of the whole scan.
    pub total: usize,
    /// Share of the work done, in tenths of a percent (0 to 1000).
    pub percent_tenths: u16,
    /// Projected time left in seconds, at most `u64::MAX`.
    pub eta_secs: u64,
}

/// Counts the probes that have returned, out of a fixed total.
pub struct Tally {
    total: usize,
    completed: usize,
}

impl Tally {
    #[verifier::type_invariant]
    spec fn within_total(self) -> bool {
        self.completed <= self.total
    }

    /// Probes of the whole scan.
    pub closed spec fn spec_total(&self) -> usize {
        self.total
    }

    /// Probes that have returned so far.
    pub closed spec fn spec_completed(&self) -> usize {
        self.completed
    }

    /// A counter at zero for a scan of `total` probes.
    pub fn new(total: usize) -> (tally: Tally)
        ensures
            tally.total() == total,
            tally.completed() == 0,
    {
        Tally { total, completed: 0 }
    }

    /// Probes of the whole scan.
    #[verifier::when_used_as_spec(spec_total)]
    pub fn total(&self) -> (total: usize)
        ensures
            total == self.total(),
    {
        self.total
    }

    /// Probes that have returned so far; never more than the total.
    #[verifier::when_used_as_spec(spec_completed)]
    pub fn completed(&self) -> (completed: usize)
        ensures
            completed == self.completed(),
            completed <= self.total(),
    {
        proof {
            use_type_invariant(self);
        }
        self.completed
    }

    /// Whether every probe has returned.
    pub fn is_complete(&self) -> (done: bool)
        ensures
            done == (self.completed() == self.total()),
    {
        self.completed == self.total
    }

    /// Counts one more probe as returned, and tells whether a progress
    /// update is due at the new count.
    pub fn record(&mut self) -> (due: bool)
        requires
            old(self).completed() < old(self).total(),
        ensures
            final(self).completed() == old(self).completed() + 1,
            final(self).total() == old(self).total(),
            due == report_due(final(self).completed() as nat, final(self).total() as nat),
    {
        self.completed = self.completed + 1;
        self.completed % REPORT_EVERY == 0 || self.completed == self.total
    }

    /// The progress figures at the current count, `elapsed_ms` milliseconds
    /// into the scan.
    pub fn progress(&self, elapsed_ms: u64) -> (progress: Progress)
        requires
            self.completed() >= 1,
        ensures
            progress == measure_progress(
                self.completed() as nat,
                self.total() as nat,
                elapsed_ms as nat,
            ),
    {
        proof {
            use_type_invariant(self);
        }
        measure(self.completed, self.total, elapsed_ms)
    }
}

/// The progress figures after `completed` of `total` probes, `elapsed_ms`
/// milliseconds into the scan. The projection is capped at `u64::MAX`.
pub open spec fn measure_progress(completed: nat, total: nat, elapsed_ms: nat) -> Progress {
    let eta = eta_secs(completed, total, elapsed_ms);
    Progress {
        completed: completed as usize,
        total: total as usize,
        percent_tenths: percent_tenths(completed, total) as u16,
        eta_secs: if eta <= u64::MAX {
            eta as u64
        } else {
            u64::MAX
        },
    }
}

/// The progress figures after `completed` of `total` probes, `elapsed_ms`
/// milliseconds into the scan.
pub fn measure(completed: usize, total: usize, elapsed_ms: u64) -> (progress: Progress)
    requires
        1 <= completed <= total,
    ensures
        progress == measure_progress(completed as nat, total as nat, elapsed_ms as nat),
        progress.percent_tenths <= 1000,
{
    let scaled: u128 = completed as u128 * 1000;
    let whole: u128 = scaled / (total as u128);
    let rest: u128 = scaled % (total as u128);
    assert(whole <= 1000) by (nonlinear_arith)
        requires
            whole == scaled / (total as u128),
            scaled == completed * 1000,
            1 <= completed <= total,
    ;
    let round_up: bool = 2 * rest > total as u128 || (2 * rest == total as u128 && whole % 2 == 1);
    proof {
        if round_up {
            assert(whole < 1000) by (nonlinear_arith)
                requires
                    whole == scaled / (total as u128),
                    rest == scaled % (total as u128),
                    scaled == completed * 1000,
                    1 <= completed <= total,
                    rest > 0,
            ;
        }
    }
    let tenths: u128 = if round_up {
        whole + 1
    } else {
        whole
    };
    let remaining: usize = total - completed;
    assert(elapsed_ms as u128 * remaining as u128 <= u128::MAX) by (nonlinear_arith)
        requires
            elapsed_ms <= 0xffff_ffff_ffff_ffff,
            remaining <= 0xffff_ffff_ffff_ffff,
    ;
    let eta: u128 = (elapsed_ms as u128 * remaining as u128) / (completed as u128 * 1000);
    Progress {
        completed,
        total,
        percent_tenths: tenths as u16,
        eta_secs: if eta <= u64::MAX as u128 {
            eta as u64
        } else {
            u64::MAX
        },
    }
}

/// The share shown never falls as the count goes up, is never more than the
/// whole, and is the whole at the end.
pub proof fn lemma_percentage_never_falls(earlier: nat, later: nat, total: nat)
    requires
        earlier <= later <= total,
        total > 0,
    ensures
        percent_tenths(earlier, total) <= percent_tenths(later, total) <= 1000,
        percent_tenths(total, total) == 1000,
{
    let low = (earlier * 1000) as int;
    let high = (later * 1000) as int;
    let full = (total * 1000) as int;
    let size = total as int;
    vstd::arithmetic::div_mod::lemma_div_is_ordered(low, high, size);
    vstd::arithmetic::div_mod::lemma_div_is_ordered(high, full, size);
    vstd::arithmetic::div_mod::lemma_fundamental_div_mod(low, size);
    vstd::arithmetic::div_mod::lemma_fundamental_div_mod(high, size);
    vstd::arithmetic::div_mod::lemma_fundamental_div_mod(full, size);
    vstd::arithmetic::div_mod::lemma_div_multiples_vanish(1000, size);
    vstd::arithmetic::div_mod::lemma_mod_multiples_basic(1000, size);
    assert(full == 1000 * size) by (nonlinear_arith)
        requires
            full == size * 1000,
    ;
    assert(full / size == 1000 && full % size == 0);
    if high / size == 1000 {
        assert(high % size == 0) by (nonlinear_arith)
            requires
                high == size * (high / size) + high % size,
                high / size == 1000,
                high <= full,
                full == 1000 * size,
                0 <= high % size,
        ;
    }
    if low / size == high / size {
        assert(low % size <= high % size) by (nonlinear_arith)
            requires
                low == size * (low / size) + low % size,
                high == size * (high / size) + high % size,
                low / size == high / size,
                low <= high,
        ;
    }
}

/// The counts reported up to `count` ascend strictly, lie between 1 and
/// `count`, and end with `count` itself where an update is due there.
proof fn lemma_reports_until(count: nat, total: nat)
    requires
        count <= total <= usize::MAX,
    ensures
        forall|i: int, j: int|
            0 <= i < j < reports_until(count, total).len() ==> reports_until(count, total)[i]
                < reports_until(count, total)[j],
        forall|i: int|
            0 <= i < reports_until(count, total).len() ==> 1 <= #[trigger] reports_until(
                count,
                total,
            )[i] <= count,
        forall|i: int|
            0 <= i < reports_until(count, total).len() ==> report_due(
                #[trigger] reports_until(count, total)[i] as nat,
                total,
            ),
        forall|c: usize|
            1 <= c <= count && report_due(c as nat, total) ==> #[trigger] reports_until(
                count,
                total,
            ).contains(c),
        count > 0 && report_due(count, total) ==> reports_until(count, total).len() > 0
            && reports_until(count, total).last() == count,
    decreases count,
{
    if count > 0 {
        let earlier = reports_until((count - 1) as nat, total);
        let all = reports_until(count, total);
        lemma_reports_until((count - 1) as nat, total);
        assert forall|c: usize| 1 <= c <= count && report_due(c as nat, total) implies all.contains(
            c,
        ) by {
            if c < count {
                assert(earlier.contains(c));
                let i = choose|i: int| 0 <= i < earlier.len() && earlier[i] == c;
                assert(all[i] == c);
            } else {
                assert(all[earlier.len() as int] == c);
            }
        }
    }
}

/// The counts at which progress is reported never go down (each is greater
/// than the one before), every one of them is a count at which an update is
/// due, none of those is left out, and the last one reported is the total:
/// a scan that probes anything ends on a report of its full count, made once.
pub proof fn lemma_report_points(total: nat)
    requires
        total <= usize::MAX,
    ensures
        forall|i: int, j: int|
            0 <= i < j < report_points(total).len() ==> report_points(total)[i] < report_points(
                total,
            )[j],
        forall|i: int|
            0 <= i < report_points(total).len() ==> 1 <= #[trigger] report_points(total)[i]
                <= total,
        forall|i: int|
            0 <= i < report_points(total).len() ==> report_due(
                #[trigger] report_points(total)[i] as nat,
                total,
            ),
        forall|c: usize|
            1 <= c <= total && report_due(c as nat, total) ==> #[trigger] report_points(
                total,
            ).contains(c),
        total == 0 ==> report_points(total).len() == 0,
        total > 0 ==> report_points(total).len() > 0 && report_points(total).last() == total,
{
    lemma_reports_until(total, total);
}

} // verus!
