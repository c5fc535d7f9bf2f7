use psb_watch::history::HistoryBuffer;
use psb_watch::movers::{rank_change_pairs, rank_change_report, Delta};
use psb_watch::record::{total_order_key, Figure, Instrument, Team};
use psb_watch::report::instrument_report;
use psb_watch::snapshot::Snapshot;
use psb_watch::teams::{display_name, team_report};
use psb_watch::text::decimal;
use psb_watch::{current_unix_time, window_offset};

fn fig(x: f32) -> Figure {
    Figure::new(x.to_bits(), x.to_string())
}

fn inst(name: &str, key: u64, wkn: &str, rel: f32) -> Instrument {
    Instrument {
        name: name.to_string(),
        key,
        wkn: wkn.to_string(),
        price: fig(100.0),
        performance_abs: fig(rel / 10.0),
        performance_rel: fig(rel),
    }
}

fn team(name: &str, depot: f32, rank: u32, perf: f32) -> Team {
    Team {
        name: name.to_string(),
        depot_value: fig(depot),
        performance: fig(perf),
        performance_rank: rank,
    }
}

fn names(s: &Snapshot) -> Vec<String> {
    (0..s.len()).map(|i| s.entry(i).name.clone()).collect()
}

#[test]
fn bounded_growth_keeps_min_of_pushes_and_capacity() {
    let mut h: HistoryBuffer<u32> = HistoryBuffer::new(3);
    for n in 1..=7u32 {
        h.push(n);
        assert_eq!(h.len(), std::cmp::min(n as usize, 3));
    }
    assert_eq!(h.capacity(), 3);
}

#[test]
fn offsets_count_back_from_newest() {
    let mut h: HistoryBuffer<u32> = HistoryBuffer::new(16);
    for n in 1..=5u32 {
        assert_eq!(h.push(n), None);
    }
    assert_eq!(h.lookback(0), Some(&5));
    assert_eq!(h.lookback(4), Some(&1));
    assert_eq!(h.lookback(2), Some(&3));
    assert_eq!(h.lookback(5), None);
    assert_eq!(h.lookback(usize::MAX), None);
}

#[test]
fn push_evicts_what_stood_at_last_offset() {
    let mut h: HistoryBuffer<u32> = HistoryBuffer::new(2);
    assert_eq!(h.push(1), None);
    assert_eq!(h.push(2), None);
    let before = *h.lookback(1).unwrap();
    assert_eq!(h.push(3), Some(before));
    assert_eq!(before, 1);
    assert_eq!(h.lookback(0), Some(&3));
    assert_eq!(h.lookback(1), Some(&2));
    assert_eq!(h.len(), 2);
}

#[test]
fn snapshot_ranks_by_relative_performance() {
    let s = Snapshot::from_records(vec![
        inst("B", 2, "w2", 5.0),
        inst("A", 1, "w1", 10.0),
        inst("C", 3, "w3", -2.5),
        inst("D", 4, "w4", 5.0),
    ]);
    assert_eq!(names(&s), vec!["A", "B", "D", "C"]);
    assert_eq!(s.get(3).unwrap().name, "C");
    assert!(s.get(9).is_none());
}

#[test]
fn duplicate_listing_keeps_best_ranked() {
    let s = Snapshot::from_records(vec![
        inst("Low", 7, "SAME", 1.0),
        inst("Other", 8, "X", 2.0),
        inst("High", 9, "SAME", 3.0),
    ]);
    assert_eq!(names(&s), vec!["High", "Other"]);
    assert!(s.get(7).is_none());
    let text = instrument_report(&s, None, None, None, 5, 5, 0);
    assert!(text.contains("High"));
    assert!(!text.contains("Low"));
}

#[test]
fn end_to_end_two_snapshots() {
    let mut h: HistoryBuffer<Snapshot> = HistoryBuffer::new(16);
    let s1 = vec![inst("A", 1, "a", 10.0), inst("B", 2, "b", 5.0)];
    let s2 = vec![inst("A", 1, "a", 12.0), inst("B", 2, "b", 4.0)];
    assert!(h.push(Snapshot::from_records(s1)).is_none());
    assert!(h.push(Snapshot::from_records(s2)).is_none());
    let cur = h.lookback(0).unwrap();
    let prev = h.lookback(1).unwrap();
    assert_eq!(cur.get(1).unwrap().performance_rel.text, "12");
    assert_eq!(prev.get(1).unwrap().performance_rel.text, "10");
    let text = instrument_report(cur, Some(prev), None, None, 1, 1, 42);
    let expected = "top 1 kurse (nach rel. veränderung)\n\
`* A (12% [1.2€]) (10% 1h, ?% 2h, ?% 4h)`\n\
\n\
bottom 1 kurse (nach rel. veränderung)\n\
`* B (4% [0.4€]) (5% vor 1h, ?% vor 2h, ?% vor 4h)`\n\
\n\
\n\
aktualisiert: <t:42>";
    assert_eq!(text, expected);
}

#[test]
fn report_is_reproducible() {
    let cur = Snapshot::from_records(vec![inst("A", 1, "a", 1.5), inst("B", 2, "b", -1.0)]);
    let old = Snapshot::from_records(vec![inst("A", 1, "a", 0.5)]);
    let a = instrument_report(&cur, Some(&old), Some(&old), None, 15, 10, 1700000000);
    let b = instrument_report(&cur, Some(&old), Some(&old), None, 15, 10, 1700000000);
    assert_eq!(a, b);
}

#[test]
fn missing_short_window_renders_unknown() {
    let cur = Snapshot::from_records(vec![inst("A", 1, "a", 2.0), inst("B", 2, "b", 1.0)]);
    let long = Snapshot::from_records(vec![inst("A", 1, "a", 0.5)]);
    let text = instrument_report(&cur, None, Some(&long), None, 2, 2, 7);
    assert!(text.contains("`* A (2% [0.2€]) (?% 1h, 0.5% 2h, ?% 4h)`\n"));
    assert!(text.contains("`* B (1% [0.1€]) (?% 1h, ?% 2h, ?% 4h)`\n"));
    assert!(text.contains("`* B (1% [0.1€]) (?% vor 1h, ?% vor 2h, ?% vor 4h)`\n"));
}

#[test]
fn missing_long_window_skips_rank_change() {
    let cur = Snapshot::from_records(vec![inst("A", 1, "a", 2.0)]);
    assert!(rank_change_pairs(&cur, None).is_none());
}

#[test]
fn rank_change_pairs_skip_untracked_keys() {
    let cur = Snapshot::from_records(vec![
        inst("A", 1, "a", 3.0),
        inst("B", 2, "b", 2.0),
        inst("C", 3, "c", 1.0),
    ]);
    let old = Snapshot::from_records(vec![inst("A", 1, "a", 1.0), inst("C", 3, "c", 4.0)]);
    let pairs = rank_change_pairs(&cur, Some(&old)).unwrap();
    let got: Vec<(u64, f32, f32)> = pairs
        .iter()
        .map(|p| (p.key, f32::from_bits(p.current), f32::from_bits(p.past)))
        .collect();
    assert_eq!(got, vec![(3, 1.0, 4.0), (1, 3.0, 1.0)]);
}

#[test]
fn rank_change_top_two() {
    let old = Snapshot::from_records(vec![
        inst("A", 1, "a", 0.0),
        inst("B", 2, "b", 0.0),
        inst("C", 3, "c", 0.0),
    ]);
    let deltas = vec![
        Delta { key: 1, change: fig(3.0) },
        Delta { key: 2, change: fig(-1.0) },
        Delta { key: 3, change: fig(5.0) },
    ];
    let text = rank_change_report(&deltas, &old, 2, 5);
    assert_eq!(
        text,
        "top 2 kurse (nach diff. in rel. veränderung vor 2h)\n\
`* C (Δ: 5%)`\n\
`* A (Δ: 3%)`\n\
\n\
\n\
aktualisiert: <t:5>"
    );
}

#[test]
fn rank_change_ties_keep_order() {
    let old = Snapshot::from_records(vec![inst("A", 1, "a", 0.0), inst("B", 2, "b", 0.0)]);
    let deltas = vec![
        Delta { key: 2, change: fig(1.0) },
        Delta { key: 1, change: fig(1.0) },
        Delta { key: 9, change: fig(f32::NAN) },
    ];
    let text = rank_change_report(&deltas, &old, 20, 0);
    assert!(text.starts_with(
        "top 20 kurse (nach diff. in rel. veränderung vor 2h)\n`* ? (Δ: NaN%)`\n`* B (Δ: 1%)`\n`* A (Δ: 1%)`\n"
    ));
}

#[test]
fn team_placeholder_is_masked_in_both_lists() {
    let teams = vec![
        team("Alpha", 120.0, 1, 20.0),
        team("* (Name not yet approved)", 100.0, 2, 0.0),
    ];
    let text = team_report(&teams, 10, 2, 9);
    let expected = "top 10 teams (nach depot)\n\
`* Alpha (120€, #1 / 20%)`\n\
`* <kein> (100€, #2 / 0%)`\n\
\n\
bottom 10 teams (nach depot)\n\
`* <kein> (100€, #2 / 0%)`\n\
`* Alpha (120€, #1 / 20%)`\n\
\n\
(2 teams insgesamt)\n\
\n\
aktualisiert: <t:9>";
    assert_eq!(text, expected);
}

#[test]
fn team_name_masking_is_exact() {
    assert_eq!(display_name(&"* (Name not yet approved)".to_string()), "<kein>");
    assert_eq!(display_name(&"x * (Name not yet approved)".to_string()), "x * (Name not yet approved)");
    assert_eq!(display_name(&"Beta".to_string()), "Beta");
}

#[test]
fn team_report_limits_each_list() {
    let teams: Vec<Team> = (0..12u32).map(|i| team(&format!("T{i}"), i as f32, i, 0.0)).collect();
    let text = team_report(&teams, 10, 500, 1);
    assert_eq!(text.matches("`* ").count(), 20);
    assert!(text.contains("top 10 teams (nach depot)\n`* T11 "));
    assert!(text.contains("bottom 10 teams (nach depot)\n`* T0 "));
    assert!(text.contains("(500 teams insgesamt)"));
}

#[test]
fn ordering_key_follows_total_order() {
    let vals = [f32::NEG_INFINITY, -2.0, -0.0, 0.0, 1.5, f32::INFINITY, f32::NAN];
    for w in vals.windows(2) {
        assert!(total_order_key(w[0].to_bits()) < total_order_key(w[1].to_bits()));
    }
    assert!(total_order_key((-f32::NAN).to_bits()) < total_order_key(f32::NEG_INFINITY.to_bits()));
}

#[test]
fn decimal_renders_integers() {
    assert_eq!(decimal(0), "0");
    assert_eq!(decimal(907), "907");
    assert_eq!(decimal(u64::MAX), u64::MAX.to_string());
}

#[test]
fn window_offsets_from_durations() {
    assert_eq!(window_offset(3600, 900), 4);
    assert_eq!(window_offset(7200, 900), 8);
    assert_eq!(window_offset(100, 900), 0);
}

#[test]
fn clock_reads_after_epoch() {
    assert!(current_unix_time() > 1_600_000_000);
}
