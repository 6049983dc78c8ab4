use xdsign::crawl::{id_chunks, week_ranges};
use xdsign::schedule::date_count_to_year_term_week;

#[test]
fn test() {
    for i in 0..360 {
        let (y, t, w) = date_count_to_year_term_week(2024, i);
        println!("{y}, {t}, {w}");
    }
}

#[test]
fn date_count_first_weeks() {
    assert_eq!(date_count_to_year_term_week(2024, 0), (2024, 1, 1));
    assert_eq!(date_count_to_year_term_week(2024, 29), (2024, 1, 30));
    assert_eq!(date_count_to_year_term_week(2024, 30), (2024, 2, 1));
    assert_eq!(date_count_to_year_term_week(2024, 59), (2024, 2, 30));
    assert_eq!(date_count_to_year_term_week(2024, 60), (2023, 1, 1));
    assert_eq!(date_count_to_year_term_week(2024, 359), (2019, 2, 30));
}

#[test]
fn date_counts_name_distinct_weeks() {
    let mut seen = std::collections::HashSet::new();
    for i in 0..360 {
        let (y, t, w) = date_count_to_year_term_week(2024, i);
        assert!((2019..=2024).contains(&y));
        assert!(t == 1 || t == 2);
        assert!((1..=30).contains(&w));
        assert!(seen.insert((y, t, w)));
    }
}

fn assert_partition(ranges: &[(i32, i32)], total: i32) {
    assert!(!ranges.is_empty());
    assert_eq!(ranges[0].0, 0);
    assert_eq!(ranges[ranges.len() - 1].1, total);
    for w in ranges.windows(2) {
        assert_eq!(w[0].1, w[1].0);
    }
    for r in ranges {
        assert!(r.0 <= r.1);
    }
}

#[test]
fn week_ranges_one_session() {
    let r = week_ranges(1);
    assert_eq!(r.len(), 61);
    assert_eq!(r[0], (0, 6));
    assert_eq!(r[59], (354, 360));
    assert_eq!(r[60], (360, 360));
    assert_partition(&r, 360);
}

#[test]
fn week_ranges_three_sessions() {
    let r = week_ranges(3);
    assert_eq!(r.len(), 19);
    assert_eq!(r[0], (0, 19));
    assert_eq!(r[18], (342, 360));
    assert_partition(&r, 360);
}

#[test]
fn week_ranges_every_accepted_count_partitions() {
    for n in 1..=32usize {
        assert_partition(&week_ranges(n), 360);
    }
    assert_eq!(week_ranges(32), vec![(0, 360)]);
}

#[test]
fn week_ranges_too_many_sessions() {
    assert!(week_ranges(65).is_empty());
    assert!(week_ranges(1000).is_empty());
}

#[test]
fn id_chunks_split() {
    assert!(id_chunks(0).is_empty());
    assert_eq!(id_chunks(1), vec![(0, 1)]);
    assert_eq!(id_chunks(64), vec![(0, 64)]);
    assert_eq!(id_chunks(65), vec![(0, 64), (64, 65)]);
    assert_eq!(id_chunks(128), vec![(0, 64), (64, 128)]);
    let c = id_chunks(200);
    assert_eq!(c, vec![(0, 64), (64, 128), (128, 192), (192, 200)]);
}

#[test]
fn workers_within_thread_budget() {
    for n in 1..=32usize {
        assert!(n * week_ranges(n).len() <= 64);
    }
}
