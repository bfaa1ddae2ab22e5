use boids::stats::{calculate_percentile, merge_histograms, Bucket, Histogram};

fn bucket(min: i64, max: i64, count: u64) -> Bucket {
    Bucket { min, max, count }
}

#[test]
fn sort_buckets_orders_by_min() {
    let mut h = Histogram {
        buckets: vec![bucket(20, 30, 5), bucket(0, 10, 1), bucket(10, 20, 3)],
    };
    h.sort_buckets();
    assert_eq!(
        h.buckets,
        vec![bucket(0, 10, 1), bucket(10, 20, 3), bucket(20, 30, 5)]
    );
}

#[test]
fn merge_with_adds_counts_rank_by_rank() {
    let mut a = Histogram {
        buckets: vec![bucket(0, 10, 1), bucket(10, 20, 2), bucket(20, 30, 3)],
    };
    let b = Histogram {
        buckets: vec![bucket(0, 10, 10), bucket(10, 20, 20)],
    };
    a.merge_with(&b);
    assert_eq!(
        a.buckets,
        vec![bucket(0, 10, 11), bucket(10, 20, 22), bucket(20, 30, 3)]
    );
}

#[test]
fn merge_histograms_conserves_totals() {
    let h1 = Histogram {
        buckets: vec![bucket(10, 20, 3), bucket(0, 10, 1)],
    };
    let h2 = Histogram {
        buckets: vec![bucket(0, 10, 5), bucket(10, 20, 7)],
    };
    let merged = merge_histograms(vec![h1, h2]);
    assert_eq!(
        merged.buckets,
        vec![bucket(0, 10, 6), bucket(10, 20, 10)]
    );
    let total: u64 = merged.buckets.iter().map(|b| b.count).sum();
    assert_eq!(total, 16);
}

#[test]
fn merge_histograms_of_nothing_is_empty() {
    let merged = merge_histograms(Vec::new());
    assert!(merged.buckets.is_empty());
}

#[test]
fn percentile_scans_to_the_crossing_bucket() {
    let h = Histogram {
        buckets: vec![bucket(0, 10, 50), bucket(10, 20, 50)],
    };
    // p95: 50 of 100 samples are below 10, not enough; the second
    // bucket crosses, so its upper bound is reported.
    assert_eq!(calculate_percentile(&h, 950), 20);
    // p50: the first bucket holds exactly half the samples.
    assert_eq!(calculate_percentile(&h, 500), 10);
    assert_eq!(calculate_percentile(&h, 1000), 20);
    assert_eq!(calculate_percentile(&h, 0), 10);
}

#[test]
fn percentile_of_single_bucket() {
    let h = Histogram {
        buckets: vec![bucket(0, 42, 9)],
    };
    assert_eq!(calculate_percentile(&h, 950), 42);
}
