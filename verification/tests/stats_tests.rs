use distinct_cache::stats::avg;
use distinct_cache::stats::max;
use distinct_cache::stats::min;
use distinct_cache::stats::rollup_stats;
use distinct_cache::stats::stats;
use distinct_cache::stats::RollingStats;
use distinct_cache::stats::Stats;

#[test]
fn min_num_test() {
    assert_eq!(1, min(1, 2));
}

#[test]
fn max_num_test() {
    assert_eq!(2, max(1, 2));
}

#[test]
fn avg_num_test() {
    assert_eq!(Some(2), avg(3, 2, 4));
}

#[test]
fn avg_num_test_max() {
    let avg_nums = avg(usize::MAX, 2u64, 4);
    assert_eq!(None, avg_nums);
}

#[test]
fn avg_test_new_value_lower() {
    let rolling_avg = avg(2, 110, 20u64);
    assert!(rolling_avg.is_some());
    assert_eq!(80, rolling_avg.unwrap());

    let rolling_avg = avg(3, 80, 22u64);
    assert!(rolling_avg.is_some());
    assert_eq!(66, rolling_avg.unwrap());
}

#[test]
fn avg_test() {
    let avg = avg(0, 4339, 0u64);
    assert!(avg.is_some());
}

#[test]
fn stats_integer_fold() {
    let folded = stats(2, 135, 25, 37, 25);
    assert_eq!(Some((2, 135, 25)), folded);
}

#[test]
fn rollup_stats_integer_fold() {
    let folded = rollup_stats(2, 135, 25, 37, 25, 150, 32);
    assert_eq!(Some((2, 150, 25)), folded);
}

#[test]
fn stats_update_and_reset() {
    let mut s = Stats::default();
    assert_eq!(Some(()), s.update(10));
    assert_eq!((10, 10, 10, 1), (s.min, s.max, s.avg, s.num_samples));
    assert_eq!(Some(()), s.update(20));
    assert_eq!((10, 20, 15, 2), (s.min, s.max, s.avg, s.num_samples));
    s.reset();
    assert_eq!((0, 0, 0, 0), (s.min, s.max, s.avg, s.num_samples));
}

#[test]
fn rolling_stats_update_and_reset() {
    let mut minute = Stats::default();
    minute.update(20).unwrap();
    minute.update(10).unwrap();
    let mut hour = RollingStats::default();
    assert_eq!(Some(()), hour.update(&minute));
    assert_eq!((10, 20, 15, 1), (hour.min, hour.max, hour.avg, hour.num_samples));
    let mut minute2 = Stats::default();
    minute2.update(40).unwrap();
    assert_eq!(Some(()), hour.update(&minute2));
    assert_eq!(10, hour.min);
    assert_eq!(40, hour.max);
    assert_eq!(2, hour.num_samples);
    hour.reset();
    assert_eq!(0, hour.num_samples);
}
