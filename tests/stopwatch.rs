use utils_box::stopwatch::{duration_unit, StopWatch, StopWatchStats, TimeKeeper, TimeUnit};

#[test]
fn stopwatch_test() {
    let mut s = StopWatch::start();
    let mut stats = StopWatchStats::init();

    stats.store_lap("aaaaaaaaaaaa", s.lap_time("a"));

    for _ in 0..5 {
        stats.store_lap("b", s.lap_time("b"));
    }

    stats.store_lap("aaaaaaaaaaaa", s.lap_time("a"));

    let report = stats.report();
    assert_eq!(report.len(), 2);
    assert_eq!(report[0].name, "aaaaaaaaaaaa");
    assert_eq!(report[1].name, "b");
    assert_eq!(stats.name_width(), 12);
}

#[test]
fn timekeeper_test() {
    let mut s = TimeKeeper::init();
    let mut t = TimeKeeper::init();

    assert!(s.totals().is_empty());

    s.lap("arni");

    for _ in 0..5 {
        s.lap("rifi");
        t.lap("rifi");
    }
    let rifi = s.lap_totals("rifi");
    s.lap("arni");

    let before = s.lap_totals("rifi");
    assert_eq!(rifi, before);
    let t_rifi = t.lap_totals("rifi");

    s.merge(t);

    let totals = s.totals();
    assert_eq!(totals.len(), 2);
    assert_eq!(s.lap_totals("rifi"), before.saturating_add(t_rifi));
}

#[test]
fn record_lap_measures_from_last_lap() {
    let mut s = StopWatch::start();
    assert_eq!(s.record_lap(100), 100);
    assert_eq!(s.record_lap(250), 150);
    assert_eq!(s.record_lap(200), 0);
}

#[test]
fn store_lap_accumulates_and_numbers_laps() {
    let mut stats = StopWatchStats::init();
    assert_eq!(stats.store_lap("x", 10), 10);
    assert_eq!(stats.store_lap("y", 5), 5);
    assert_eq!(stats.store_lap("x", 7), 17);
    assert_eq!(stats.lap_total("x"), 17);
    assert_eq!(stats.store_lap("z", u128::MAX), u128::MAX);
    assert_eq!(stats.store_lap("z", 1), u128::MAX);
    let r = stats.report();
    let ids: Vec<u64> = r.iter().map(|l| l.id).collect();
    assert_eq!(ids, vec![1, 2, 3]);
}

#[test]
fn merge_keeps_smaller_id_and_sums() {
    let mut a = TimeKeeper::init();
    a.lap("only_a");
    a.lap("both");
    let mut b = TimeKeeper::init();
    b.lap("both");
    b.lap("only_b");
    let both_a = a.lap_totals("both");
    let both_b = b.lap_totals("both");
    a.merge(b);
    assert_eq!(a.lap_totals("both"), both_a.saturating_add(both_b));
    let totals = a.totals();
    let names: Vec<&str> = totals.iter().map(|l| l.name.as_str()).collect();
    assert_eq!(totals.len(), 3);
    let both = totals.iter().find(|l| l.name == "both").unwrap();
    assert_eq!(both.id, 1);
    assert!(names.contains(&"only_b"));
    for w in totals.windows(2) {
        assert!(w[0].id <= w[1].id);
    }
}

#[test]
fn duration_units() {
    assert_eq!(duration_unit(999), TimeUnit::Micros);
    assert_eq!(duration_unit(1000), TimeUnit::Millis);
    assert_eq!(duration_unit(999_999), TimeUnit::Millis);
    assert_eq!(duration_unit(1_000_000), TimeUnit::Seconds);
}
