use symcache::hist::{Histogram, Stats};

#[test]
fn an_empty_histogram_has_no_stats() {
    assert_eq!(Histogram::new().stats(), None);
}

#[test]
fn one_number_is_every_percentile() {
    let mut histogram = Histogram::new();
    histogram.record(42);
    assert_eq!(
        histogram.stats(),
        Some(Stats {
            total: 1,
            median: 42,
            p90: 42,
            p99: 42,
            p999: 42
        })
    );
}

#[test]
fn percentiles_of_the_numbers_up_to_a_thousand() {
    let mut histogram = Histogram::new();
    for round in 0..2 {
        for n in (1..=1000u64).rev() {
            if round == 0 || n % 2 == 0 {
                histogram.record(n);
            }
            if round == 1 && n % 2 == 1 {
                histogram.record(n);
            }
        }
    }
    assert_eq!(
        histogram.stats(),
        Some(Stats {
            total: 2000,
            median: 501,
            p90: 901,
            p99: 991,
            p999: 1000
        })
    );
}

#[test]
fn the_median_of_uneven_counts() {
    let mut histogram = Histogram::new();
    for _ in 0..5 {
        histogram.record(7);
    }
    for _ in 0..4 {
        histogram.record(3);
    }
    histogram.record(100);
    let stats = histogram.stats().unwrap();
    assert_eq!(stats.total, 10);
    assert_eq!(stats.median, 7);
    assert_eq!(stats.p90, 100);
    assert_eq!(stats.p99, 100);
    assert_eq!(stats.p999, 100);
}
