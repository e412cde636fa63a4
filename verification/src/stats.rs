use vstd::prelude::*;

verus! {

/// `x + y`, wrapped around at `usize::MAX + 1`, as an unsigned counter
/// that overflows does.
pub open spec fn add_wrapping(x: usize, y: usize) -> usize {
    if x + y > usize::MAX {
        (x + y - (usize::MAX + 1)) as usize
    } else {
        (x + y) as usize
    }
}

/// Running statistics over a stream of `usize` samples: the smallest and
/// largest sample seen, their (wrapping) sum, and how many were added.
#[derive(Debug, Clone, Copy, PartialEq, Eq, Structural)]
pub struct Stats {
    pub min: usize,
    pub max: usize,
    pub total: usize,
    pub count: usize,
}

/// The statistics after one more sample `value`.
pub open spec fn stats_step(s: Stats, value: usize) -> Stats {
    Stats {
        min: if value < s.min { value } else { s.min },
        max: if value > s.max { value } else { s.max },
        total: add_wrapping(s.total, value),
        count: add_wrapping(s.count, 1),
    }
}

/// The statistics after the samples `values`, in order.
pub open spec fn stats_after(s: Stats, values: Seq<usize>) -> Stats
    decreases values.len(),
{
    if values.len() == 0 {
        s
    } else {
        stats_step(stats_after(s, values.drop_last()), values.last())
    }
}

/// The statistics that `Stats::default` gives: every field zero.
pub open spec fn stats_zero() -> Stats {
    Stats { min: 0, max: 0, total: 0, count: 0 }
}

impl Default for Stats {
    fn default() -> (s: Stats)
        ensures
            s == stats_zero(),
    {
        Stats { min: 0, max: 0, total: 0, count: 0 }
    }
}

impl Stats {
    /// Records one sample: counts it, adds it to the total (both wrapping
    /// on overflow), and widens `min` / `max` to take it in.
    pub fn add(&mut self, value: usize)
        ensures
            *final(self) == stats_step(*old(self), value),
    {
        self.count = self.count.wrapping_add(1);
        self.total = self.total.wrapping_add(value);
        let min = self.min;
        if value < min {
            self.min = value;
        }
        let max = self.max;
        if value > max {
            self.max = value;
        }
    }
}

/// After a sample is added, it lies between `min` and `max`; `min` never
/// grows and `max` never shrinks.
pub proof fn lemma_add_brackets_value(s: Stats, value: usize)
    ensures
        stats_step(s, value).min <= value,
        stats_step(s, value).max >= value,
        stats_step(s, value).min <= s.min,
        stats_step(s, value).max >= s.max,
{
}

/// Adding two samples in either order gives the same statistics, so the
/// result of a stream does not depend on the order in which threads
/// report their samples.
pub proof fn lemma_add_order_independent(s: Stats, a: usize, b: usize)
    ensures
        stats_step(stats_step(s, a), b) == stats_step(stats_step(s, b), a),
{
}

/// Starting from `Stats::default`, `min` stays zero whatever is added:
/// no `usize` sample is below the initial zero.
pub proof fn lemma_default_min_stays_zero(values: Seq<usize>)
    ensures
        stats_after(stats_zero(), values).min == 0,
    decreases values.len(),
{
    if values.len() > 0 {
        lemma_default_min_stays_zero(values.drop_last());
    }
}

/// Starting from `Stats::default`, after `n` samples (fewer than
/// `usize::MAX`) `count` is `n`, and `max` is at least every sample.
pub proof fn lemma_default_counts_and_max(values: Seq<usize>)
    requires
        values.len() <= usize::MAX,
    ensures
        stats_after(stats_zero(), values).count == values.len(),
        forall|i: int|
            0 <= i < values.len() ==> values[i] <= #[trigger] stats_after(stats_zero(), values).max,
    decreases values.len(),
{
    if values.len() > 0 {
        let prefix = values.drop_last();
        lemma_default_counts_and_max(prefix);
        assert forall|i: int| 0 <= i < values.len() implies values[i] <= #[trigger] stats_after(
            stats_zero(),
            values,
        ).max by {
            if i < values.len() - 1 {
                assert(values[i] == prefix[i]);
            }
        }
    }
}

/// The sum of the samples, without wrapping.
pub open spec fn sample_sum(values: Seq<usize>) -> int
    decreases values.len(),
{
    if values.len() == 0 {
        0
    } else {
        sample_sum(values.drop_last()) + values.last()
    }
}

/// Starting from `Stats::default`, `total` is the sum of all samples
/// modulo `usize::MAX + 1`, and `max` is zero or one of the samples.
pub proof fn lemma_default_total_and_max(values: Seq<usize>)
    ensures
        sample_sum(values) >= 0,
        stats_after(stats_zero(), values).total == sample_sum(values) % (usize::MAX + 1),
        stats_after(stats_zero(), values).max == 0 || exists|i: int|
            0 <= i < values.len() && values[i] == stats_after(stats_zero(), values).max,
    decreases values.len(),
{
    let m: int = usize::MAX + 1;
    if values.len() == 0 {
        vstd::arithmetic::div_mod::lemma_small_mod(0, m as nat);
    } else {
        let prefix = values.drop_last();
        let v = values.last();
        lemma_default_total_and_max(prefix);
        let before = stats_after(stats_zero(), prefix);
        let a: int = before.total as int;
        vstd::arithmetic::div_mod::lemma_add_mod_noop_right(v as int, sample_sum(prefix), m);
        if a + v > usize::MAX {
            vstd::arithmetic::div_mod::lemma_fundamental_div_mod_converse(a + v, m, 1, a + v - m);
        } else {
            vstd::arithmetic::div_mod::lemma_small_mod((a + v) as nat, m as nat);
        }
        let after = stats_after(stats_zero(), values);
        if after.max != 0 {
            if v > before.max {
                assert(values[values.len() - 1] == after.max);
            } else {
                let i = choose|i: int| 0 <= i < prefix.len() && prefix[i] == before.max;
                assert(values[i] == after.max);
            }
        }
    }
}

/// What one sample does to each field, stated by arithmetic: `min`
/// becomes the smaller of the old `min` and the sample, `max` the larger of
/// the old `max` and the sample, `total` the old total plus the sample and
/// `count` the old count plus one, both modulo `usize::MAX + 1`.
pub proof fn lemma_add_fields(s: Stats, value: usize)
    ensures
        stats_step(s, value).min == value || stats_step(s, value).min == s.min,
        stats_step(s, value).min <= value && stats_step(s, value).min <= s.min,
        stats_step(s, value).max == value || stats_step(s, value).max == s.max,
        stats_step(s, value).max >= value && stats_step(s, value).max >= s.max,
        stats_step(s, value).total as int == (s.total + value) % (usize::MAX + 1),
        stats_step(s, value).count as int == (s.count + 1) % (usize::MAX + 1),
{
    let m: int = usize::MAX + 1;
    if s.total + value > usize::MAX {
        vstd::arithmetic::div_mod::lemma_fundamental_div_mod_converse(s.total + value, m, 1, s.total + value - m);
    } else {
        vstd::arithmetic::div_mod::lemma_small_mod((s.total + value) as nat, m as nat);
    }
    if s.count + 1 > usize::MAX {
        vstd::arithmetic::div_mod::lemma_fundamental_div_mod_converse(s.count + 1, m, 1, s.count + 1 - m);
    } else {
        vstd::arithmetic::div_mod::lemma_small_mod((s.count + 1) as nat, m as nat);
    }
}

} // verus!
