//! Rolling min/max/average statistics over `u64` samples.
//!
//! `Stats` aggregates individual sampled values; `RollingStats` aggregates
//! already-aggregated `Stats` taken at a higher precision interval. The
//! average is maintained incrementally so no samples are retained.

use vstd::prelude::*;

verus! {

pub open spec fn min_spec(a: u64, b: u64) -> u64 {
    if b < a {
        b
    } else {
        a
    }
}

pub open spec fn max_spec(a: u64, b: u64) -> u64 {
    if b > a {
        b
    } else {
        a
    }
}

/// The sample count after one more sample, as the incremental-average
/// divisor: the count wraps around at the machine word and is then widened.
pub open spec fn next_sample_count(samples: usize) -> u64 {
    if samples == usize::MAX {
        0u64
    } else {
        (samples + 1) as u64
    }
}

/// The incremental average after one more sample: `None` when the widened
/// sample count wrapped to zero, otherwise the current average moved toward
/// the new value by the integer quotient of their distance and the count.
pub open spec fn avg_spec(samples: usize, current_avg: u64, new_value: u64) -> Option<u64> {
    let n = next_sample_count(samples);
    if n == 0 {
        None
    } else if new_value < current_avg {
        Some((current_avg - (current_avg - new_value) / n as int) as u64)
    } else {
        Some((current_avg + (new_value - current_avg) / n as int) as u64)
    }
}

pub fn min(current_min: u64, new_value: u64) -> (r: u64)
    ensures
        r == min_spec(current_min, new_value),
{
    if new_value < current_min {
        return new_value;
    }
    current_min
}

pub fn max(current_max: u64, new_value: u64) -> (r: u64)
    ensures
        r == max_spec(current_max, new_value),
{
    if new_value > current_max {
        return new_value;
    }
    current_max
}

/// Incremental average, computed so that the addition cannot overflow: the
/// quotient moved by is never larger than the distance to the new value.
pub fn avg(current_num_samples: usize, current_avg: u64, new_value: u64) -> (r: Option<u64>)
    ensures
        r == avg_spec(current_num_samples, current_avg, new_value),
{
    let wrapped: usize = current_num_samples.wrapping_add(1);
    let new_num_samples: u64 = wrapped as u64;
    if new_num_samples == 0 {
        return None;
    }
    if new_value < current_avg {
        let partial: u64 = current_avg - new_value;
        let step: u64 = partial / new_num_samples;
        Some(current_avg - step)
    } else {
        let partial: u64 = new_value - current_avg;
        let step: u64 = partial / new_num_samples;
        proof {
            assert(partial / new_num_samples <= partial) by (nonlinear_arith)
                requires
                    new_num_samples >= 1,
                    partial >= 0,
            ;
        }
        Some(current_avg + step)
    }
}

/// Min/max/average folded with one new sampled value.
pub fn stats(
    current_min: u64,
    current_max: u64,
    current_avg: u64,
    current_num_samples: usize,
    new_value: u64,
) -> (r: Option<(u64, u64, u64)>)
    ensures
        r == match avg_spec(current_num_samples, current_avg, new_value) {
            Some(a) => Some(
                (min_spec(current_min, new_value), max_spec(current_max, new_value), a),
            ),
            None => None::<(u64, u64, u64)>,
        },
{
    let lo = min(current_min, new_value);
    let hi = max(current_max, new_value);
    match avg(current_num_samples, current_avg, new_value) {
        Some(a) => Some((lo, hi, a)),
        None => None,
    }
}

/// Min/max/average folded with another, higher-precision aggregate.
pub fn rollup_stats(
    current_min: u64,
    current_max: u64,
    current_avg: u64,
    current_num_samples: usize,
    new_min: u64,
    new_max: u64,
    new_avg: u64,
) -> (r: Option<(u64, u64, u64)>)
    ensures
        r == match avg_spec(current_num_samples, current_avg, new_avg) {
            Some(a) => Some((min_spec(current_min, new_min), max_spec(current_max, new_max), a)),
            None => None::<(u64, u64, u64)>,
        },
{
    let lo = min(current_min, new_min);
    let hi = max(current_max, new_max);
    match avg(current_num_samples, current_avg, new_avg) {
        Some(a) => Some((lo, hi, a)),
        None => None,
    }
}

/// Basic stats keeping a tab on min/max/avg for a metric.
pub struct Stats {
    pub min: u64,
    pub max: u64,
    pub avg: u64,
    pub num_samples: usize,
}

impl Default for Stats {
    fn default() -> (r: Self)
        ensures
            r.min == 0 && r.max == 0 && r.avg == 0 && r.num_samples == 0,
    {
        Stats { min: 0, max: 0, avg: 0, num_samples: 0 }
    }
}

impl Stats {
    /// Fold one newly sampled value into the stats. Returns `None`, leaving
    /// the stats untouched, when the widened sample count wrapped to zero.
    pub fn update(&mut self, new_val: u64) -> (r: Option<()>)
        ensures
            match r {
                Some(_) => {
                    &&& final(self).num_samples == old(self).num_samples + 1
                    &&& if old(self).num_samples == 0 {
                        final(self).min == new_val && final(self).max == new_val && final(self).avg == new_val
                    } else {
                        final(self).min == min_spec(old(self).min, new_val) && final(self).max
                            == max_spec(old(self).max, new_val) && Some(final(self).avg)
                            == avg_spec(old(self).num_samples, old(self).avg, new_val)
                    }
                },
                None => {
                    &&& *final(self) == *old(self)
                    &&& old(self).num_samples != 0
                    &&& avg_spec(old(self).num_samples, old(self).avg, new_val) is None
                },
            },
    {
        if self.num_samples == 0 {
            self.min = new_val;
            self.max = new_val;
            self.avg = new_val;
        } else {
            match stats(self.min, self.max, self.avg, self.num_samples, new_val) {
                Some((new_min, new_max, new_avg)) => {
                    self.min = new_min;
                    self.max = new_max;
                    self.avg = new_avg;
                },
                None => {
                    return None;
                },
            }
        }
        self.num_samples = self.num_samples + 1;
        Some(())
    }

    pub fn reset(&mut self)
        ensures
            final(self).min == 0 && final(self).max == 0 && final(self).avg == 0 && final(self).num_samples == 0,
    {
        *self = Stats::default();
    }
}

/// Stats over already-aggregated stats: aggregates min/max/avg samples that
/// were themselves collected at a higher precision interval.
pub struct RollingStats {
    pub min: u64,
    pub max: u64,
    pub avg: u64,
    pub num_samples: usize,
}

impl Default for RollingStats {
    fn default() -> (r: Self)
        ensures
            r.min == 0 && r.max == 0 && r.avg == 0 && r.num_samples == 0,
    {
        RollingStats { min: 0, max: 0, avg: 0, num_samples: 0 }
    }
}

impl RollingStats {
    /// Fold a higher-precision aggregate into the rolling stats. Returns
    /// `None`, leaving the stats untouched, when the widened sample count
    /// wrapped to zero.
    pub fn update(&mut self, higher_precision_stats: &Stats) -> (r: Option<()>)
        ensures
            match r {
                Some(_) => {
                    &&& final(self).num_samples == old(self).num_samples + 1
                    &&& if old(self).num_samples == 0 {
                        final(self).min == higher_precision_stats.min && final(self).max
                            == higher_precision_stats.max && final(self).avg
                            == higher_precision_stats.avg
                    } else {
                        final(self).min == min_spec(old(self).min, higher_precision_stats.min)
                            && final(self).max == max_spec(old(self).max, higher_precision_stats.max)
                            && Some(final(self).avg) == avg_spec(
                            old(self).num_samples,
                            old(self).avg,
                            higher_precision_stats.avg,
                        )
                    }
                },
                None => {
                    &&& *final(self) == *old(self)
                    &&& old(self).num_samples != 0
                    &&& avg_spec(old(self).num_samples, old(self).avg, higher_precision_stats.avg)
                        is None
                },
            },
    {
        if self.num_samples == 0 {
            self.min = higher_precision_stats.min;
            self.max = higher_precision_stats.max;
            self.avg = higher_precision_stats.avg;
        } else {
            match rollup_stats(
                self.min,
                self.max,
                self.avg,
                self.num_samples,
                higher_precision_stats.min,
                higher_precision_stats.max,
                higher_precision_stats.avg,
            ) {
                Some((new_min, new_max, new_avg)) => {
                    self.min = new_min;
                    self.max = new_max;
                    self.avg = new_avg;
                },
                None => {
                    return None;
                },
            }
        }
        self.num_samples = self.num_samples + 1;
        Some(())
    }

    pub fn reset(&mut self)
        ensures
            final(self).min == 0 && final(self).max == 0 && final(self).avg == 0 && final(self).num_samples == 0,
    {
        *self = RollingStats::default();
    }
}

} // verus!
