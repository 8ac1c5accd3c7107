use almanac::almanac::Almanac;
use almanac::epoch::{Duration, Epoch, EtSeconds};
use almanac::error::{DAFError, EphemerisError};
use almanac::spk::{SPKSummaryRecord, SummaryBlock, SPK};
use hifitime::{TimeScale, TimeUnits};
use rayon::iter::{IntoParallelRefIterator, ParallelIterator};

const MOON: i32 = 301;
const DE440S_START_ET_S: f64 = -4734072000.0;
const DE440S_END_ET_S: f64 = 4735368000.0;

fn instant(epoch: hifitime::Epoch) -> Epoch {
    let (centuries, nanoseconds) = epoch.to_et_duration().to_parts();
    Epoch { since_j2000: Duration { centuries, nanoseconds } }
}

fn noon(year: i32) -> Epoch {
    instant(hifitime::Epoch::from_gregorian_at_noon(year, 1, 1, TimeScale::ET))
}

fn at_seconds(s: f64) -> Epoch {
    instant(hifitime::Epoch::from_et_seconds(s))
}

fn shifted(epoch: Epoch, ns: u64) -> Epoch {
    let Duration { centuries, nanoseconds } = epoch.since_j2000;
    Epoch { since_j2000: Duration { centuries, nanoseconds: nanoseconds + ns } }
}

fn segment(id: i32, start: f64, end: f64) -> SPKSummaryRecord {
    SPKSummaryRecord {
        start_epoch_et_s: EtSeconds { bits: start.to_bits() },
        end_epoch_et_s: EtSeconds { bits: end.to_bits() },
        start_epoch: at_seconds(start),
        end_epoch: at_seconds(end),
        target_id: id,
        center_id: 0,
        frame_id: 1,
        data_type_i: 2,
        start_idx: 1,
        end_idx: 2,
    }
}

fn block(record: usize, summaries: Vec<SPKSummaryRecord>) -> SummaryBlock {
    SummaryBlock {
        daf_idx: if record == 0 { None } else { Some(record) },
        summaries_byte_range: (1024 * (record + 1) + 24, 1024 * (record + 2)),
        names: summaries.iter().map(|s| format!("BODY {}", s.target_id)).collect(),
        summaries: Some(summaries),
    }
}

fn kernel(blocks: Vec<SummaryBlock>) -> SPK {
    SPK::new(blocks).unwrap()
}

/// The segments of a planetary kernel, with these bounds of the Moon.
fn planets(moon_start: f64, moon_end: f64) -> SPK {
    let mut summaries = vec![];
    for id in [1, 2, 3, 4, 5, 6, 7, 8, 9, 10, MOON, 399, 199, 299] {
        if id == MOON {
            summaries.push(segment(id, moon_start, moon_end));
        } else {
            summaries.push(segment(id, DE440S_START_ET_S, DE440S_END_ET_S));
        }
    }
    kernel(vec![block(0, summaries)])
}

fn de440s() -> SPK {
    planets(DE440S_START_ET_S, DE440S_END_ET_S)
}

fn de440s_almanac() -> Almanac {
    Almanac::default().with_spk_as(de440s(), Some("../data/de440s.bsp".to_string()))
}

#[test]
fn summaries_nothing_loaded() {
    let almanac = Almanac::default();
    let e = instant(hifitime::Epoch::now().unwrap());

    assert!(almanac.spk_summary(0).is_err(), "empty Almanac should report an error");
    assert!(almanac.spk_summary_at_epoch(0, e).is_err(), "empty Almanac should report an error");
    assert!(
        almanac.spk_summary_from_name("invalid name").is_err(),
        "empty Almanac should report an error"
    );
    assert!(
        almanac.spk_summary_from_name_at_epoch("invalid name", e).is_err(),
        "empty Almanac should report an error"
    );
}

#[test]
fn cache_root_memo_and_invalidation() {
    let almanac = de440s_almanac();
    assert!(almanac.cache.root().is_none(), "cache must start cold");

    let root = 0;
    almanac.cache.store_root(root);
    assert_eq!(almanac.cache.root(), Some(root), "root must be memoized after the first call");

    // The segment memo must populate on a summary query and clear on invalidation.
    let epoch = noon(2024);
    almanac.spk_summary_at_epoch(301, epoch).unwrap();
    assert!(
        almanac.cache.spk_segment(301).is_some(),
        "segment memo must be populated after a query"
    );

    // Loading another SPK must invalidate the memo.
    let almanac = almanac.with_spk_as(de440s(), Some("copy".to_string()));
    assert!(almanac.cache.root().is_none(), "with_spk_as must invalidate the cache");
    assert!(
        almanac.cache.spk_segment(301).is_none(),
        "with_spk_as must clear segment memos too"
    );
}

/// After a hit is memoized, loading a new kernel must restore SPICE precedence:
/// the most recently loaded kernel wins.
#[test]
fn cache_invalidation_respects_precedence() {
    let almanac = de440s_almanac();
    let epoch = noon(2024);

    // Warm the memo for the Moon: with one kernel loaded, spk_no must be 0.
    let (_, spk_no, _, _) = almanac.spk_summary_at_epoch(MOON, epoch).unwrap();
    assert_eq!(spk_no, 0);
    // Query again to ensure we are answering from the memo.
    let (_, spk_no, _, _) = almanac.spk_summary_at_epoch(MOON, epoch).unwrap();
    assert_eq!(spk_no, 0);

    // Load the same kernel under a new alias: it now takes precedence (spk_no 1).
    let almanac = almanac.with_spk_as(de440s(), Some("copy".to_string()));
    let (_, spk_no, _, _) = almanac.spk_summary_at_epoch(MOON, epoch).unwrap();
    assert_eq!(
        spk_no, 1,
        "a stale memo must not override the precedence of a newly loaded kernel"
    );
}

/// When two kernels both cover an epoch for the same ID, the last-loaded kernel must win on every
/// query, even after a previous query could have memoized the segment of the other one.
#[test]
fn cache_shadowing_last_loaded_kernel_wins() {
    // Kernel A: the full data. Kernel B: the Moon segment truncated.
    let spk_a = de440s();
    let new_start = hifitime::Epoch::from_gregorian_at_midnight(2030, 1, 1, TimeScale::ET);
    let new_end = hifitime::Epoch::from_gregorian_at_midnight(2040, 1, 1, TimeScale::ET);
    let spk_b = planets(new_start.to_et_seconds(), new_end.to_et_seconds());

    // Load A then B: B is the most recently loaded, so it has precedence (spk_no 1).
    let almanac = Almanac::from_spk(spk_a).with_spk_as(spk_b, Some("truncated".to_string()));

    let only_a = noon(2024);
    let both = noon(2035);

    // Only kernel A covers 2024.
    let (_, spk_no, _, _) = almanac.spk_summary_at_epoch(MOON, only_a).unwrap();
    assert_eq!(spk_no, 0, "only kernel A covers 2024");
    // Both kernels cover 2035: the last-loaded kernel (B) must win, even though A's
    // segment found by the previous query also covers 2035.
    let (_, spk_no, _, _) = almanac.spk_summary_at_epoch(MOON, both).unwrap();
    assert_eq!(spk_no, 1, "last-loaded kernel must win when both cover the epoch");
    // Alternate again to ensure warm queries stay correct in both directions.
    let (_, spk_no, _, _) = almanac.spk_summary_at_epoch(MOON, only_a).unwrap();
    assert_eq!(spk_no, 0, "kernel A must still answer the 2024 query");
    let (_, spk_no, _, _) = almanac.spk_summary_at_epoch(MOON, both).unwrap();
    assert_eq!(spk_no, 1, "kernel B must still answer the 2035 query");
}

/// A memoized segment must never answer for an epoch outside its bounds.
#[test]
fn cache_epoch_validation_falls_back() {
    let almanac = de440s_almanac();
    let inside = noon(2024);
    // The data end in 2150.
    let outside = noon(2700);

    assert!(almanac.spk_summary_at_epoch(MOON, inside).is_ok());
    assert!(
        almanac.spk_summary_at_epoch(MOON, outside).is_err(),
        "memo must not answer outside its epoch bounds"
    );
    // And the memo still answers the valid epoch afterward.
    assert!(almanac.spk_summary_at_epoch(MOON, inside).is_ok());
}

fn minutes_of_a_day() -> Vec<Epoch> {
    let start = hifitime::Epoch::from_gregorian_at_noon(2024, 1, 1, TimeScale::ET);
    (0..1_440).map(|ii| instant(start + (ii as f64 * 60.0).seconds())).collect()
}

/// The answer for the Moon and for the Earth at one epoch, as plain values.
fn moon_and_earth(almanac: &Almanac, epoch: Epoch) -> Vec<(i32, u64, u64, usize, Option<usize>, usize)> {
    [MOON, 399]
        .iter()
        .map(|id| {
            let (summary, spk_no, daf_idx, idx) =
                almanac.spk_summary_at_epoch(*id, epoch).unwrap();
            (
                summary.target_id,
                summary.start_epoch_et_s.bits,
                summary.end_epoch_et_s.bits,
                spk_no,
                daf_idx,
                idx,
            )
        })
        .collect()
}

/// Querying forward and reverse over the same epochs (different miss/hit patterns)
/// must produce identical answers, and must match a cold context spot-check.
#[test]
fn cache_transparency_forward_vs_reverse() {
    let fwd_ctx = de440s_almanac();
    let rev_ctx = de440s_almanac();

    let epochs = minutes_of_a_day();

    let fwd: Vec<_> = epochs.iter().map(|e| moon_and_earth(&fwd_ctx, *e)).collect();
    let mut rev: Vec<_> = epochs.iter().rev().map(|e| moon_and_earth(&rev_ctx, *e)).collect();
    rev.reverse();

    for (warm_a, warm_b) in fwd.iter().zip(&rev) {
        assert_eq!(warm_a[0], warm_b[0]);
        assert_eq!(warm_a[1], warm_b[1]);
    }

    // Spot-check three epochs against fully cold contexts (first query = uncached path).
    for idx in [0_usize, 719, 1_439] {
        let cold_ctx = de440s_almanac();
        let cold = moon_and_earth(&cold_ctx, epochs[idx]);
        assert_eq!(fwd[idx][0], cold[0]);
        assert_eq!(fwd[idx][1], cold[1]);
    }
}

/// Concurrent queries against one shared Almanac must match serial results exactly.
#[test]
fn cache_concurrent_queries_match_serial() {
    let epochs = minutes_of_a_day();

    let serial_ctx = de440s_almanac();
    let serial: Vec<_> = epochs.iter().map(|e| moon_and_earth(&serial_ctx, *e)).collect();

    let shared_ctx = de440s_almanac();
    let parallel: Vec<_> = epochs.par_iter().map(|e| moon_and_earth(&shared_ctx, *e)).collect();

    for (s, p) in serial.iter().zip(&parallel) {
        assert_eq!(s[0], p[0]);
        assert_eq!(s[1], p[1]);
    }
}

#[test]
fn boundaries_are_resolved_by_the_search() {
    let load = || {
        Almanac::from_spk(kernel(vec![block(
            0,
            vec![segment(MOON, 0.0, 100.0), segment(MOON, 100.0, 200.0)],
        )]))
    };
    // On the common edge and up to 100 ns past it, the first segment still answers.
    for (ns, expected) in [(0, 0), (50, 0), (100, 0), (101, 1)] {
        let edge = shifted(at_seconds(100.0), ns);

        let cold = load();
        assert_eq!(cold.spk_summary_at_epoch(MOON, edge).unwrap().3, expected);

        // Whichever of the two segments is remembered.
        for (inside, idx) in [(50.0, 0), (150.0, 1)] {
            let warm = load();
            assert_eq!(warm.spk_summary_at_epoch(MOON, at_seconds(inside)).unwrap().3, idx);
            assert_eq!(warm.cache.spk_segment(MOON).unwrap().idx_in_spk, idx);
            assert_eq!(warm.spk_summary_at_epoch(MOON, edge).unwrap().3, expected);
            assert_eq!(warm.spk_summary_at_epoch(MOON, at_seconds(inside)).unwrap().3, idx);
        }
    }
}

#[test]
fn memory_answers_only_where_there_are_data() {
    let almanac = de440s_almanac();
    let inside = noon(2024);
    let end = at_seconds(DE440S_END_ET_S);
    // 300 ns past the end the segment has no data, though in seconds this is the end.
    let outside = shifted(end, 300);
    assert_eq!(outside.to_et_seconds().bits, DE440S_END_ET_S.to_bits());

    assert!(almanac.spk_summary_at_epoch(MOON, inside).is_ok());
    let memo = almanac.cache.spk_segment(MOON).unwrap();
    assert!(almanac.recall(MOON, &inside, &memo).is_some());
    assert!(almanac.recall(MOON, &outside, &memo).is_none());
    assert!(almanac.spk_summary_at_epoch(MOON, outside).is_err());
    // On the end and within the pad a search finds the segment.
    assert!(almanac.recall(MOON, &end, &memo).is_none());
    assert!(almanac.spk_summary_at_epoch(MOON, end).is_ok());
    assert!(almanac.spk_summary_at_epoch(MOON, shifted(end, 100)).is_ok());
}

#[test]
fn recall_compares_seconds_and_instants() {
    let almanac = Almanac::from_spk(kernel(vec![block(
        0,
        vec![segment(399, 0.0, 100.0), segment(MOON, 10.0, 20.0)],
    )]));
    let (_, memo) = almanac.search_at_epoch(MOON, at_seconds(15.0));
    let memo = memo.unwrap();
    let seconds = |s: f64| EtSeconds { bits: s.to_bits() };
    let recalled = |epoch: Epoch, s: f64| {
        almanac.recall_at(MOON, &epoch, seconds(s), &memo).map(|summary| summary.target_id)
    };
    assert_eq!(recalled(at_seconds(15.0), 15.0), Some(MOON));
    // The seconds are compared with the bounds of the memo, both included.
    assert_eq!(recalled(at_seconds(15.0), 10.0), Some(MOON));
    assert_eq!(recalled(at_seconds(15.0), 20.0), Some(MOON));
    assert_eq!(recalled(at_seconds(15.0), 9.5), None);
    assert_eq!(recalled(at_seconds(15.0), 20.5), None);
    assert_eq!(recalled(at_seconds(15.0), f64::NAN), None);
    // The instant is inside the segment: past the pad of the start, and before the end.
    assert_eq!(recalled(at_seconds(10.0), 15.0), None);
    assert_eq!(recalled(shifted(at_seconds(10.0), 100), 15.0), None);
    assert_eq!(recalled(shifted(at_seconds(10.0), 101), 15.0), Some(MOON));
    assert_eq!(recalled(shifted(at_seconds(19.0), 999_999_999), 15.0), Some(MOON));
    assert_eq!(recalled(at_seconds(20.0), 15.0), None);
    // The identifier is compared too.
    assert!(almanac.recall_at(399, &at_seconds(15.0), seconds(15.0), &memo).is_none());
}

#[test]
fn warm_answers_as_cold() {
    let load = || {
        Almanac::from_spk(kernel(vec![block(
            0,
            vec![segment(MOON, 0.0, 10.0), segment(MOON, 10.0, 20.0), segment(MOON, 30.0, 40.0)],
        )]))
    };
    let warm = load();
    for s in [5.0, 15.0, 35.0, 10.0, 20.0, 25.0, 30.0, 40.0, 50.0, -1.0] {
        let cold = load();
        let (w, c) = (
            warm.spk_summary_at_epoch(MOON, at_seconds(s)),
            cold.spk_summary_at_epoch(MOON, at_seconds(s)),
        );
        match (w, c) {
            (Ok((a, n, d, i)), Ok((b, m, e, j))) => {
                assert_eq!((a.start_epoch, a.end_epoch), (b.start_epoch, b.end_epoch));
                assert_eq!((n, d, i), (m, e, j));
            }
            (Err(e), Err(f)) => assert_eq!(format!("{e:?}"), format!("{f:?}")),
            (w, c) => panic!("{w:?} and {c:?}"),
        }
    }
}

#[test]
fn pad_is_one_hundred_nanoseconds() {
    let almanac = Almanac::from_spk(kernel(vec![block(0, vec![segment(MOON, 10.0, 20.0)])]));
    assert!(almanac.spk_summary_at_epoch(MOON, shifted(at_seconds(20.0), 100)).is_ok());
    assert!(almanac.spk_summary_at_epoch(MOON, shifted(at_seconds(20.0), 101)).is_err());
    let early = |ns: u64| shifted(at_seconds(9.0), 1_000_000_000 - ns);
    assert!(almanac.spk_summary_at_epoch(MOON, early(100)).is_ok());
    assert!(almanac.spk_summary_at_epoch(MOON, early(101)).is_err());
}

#[test]
fn memo_describes_the_answer() {
    let almanac = Almanac::from_spk(kernel(vec![
        block(0, vec![segment(399, 0.0, 50.0)]),
        block(7, vec![segment(399, 50.0, 60.0), segment(MOON, 5.0, 90.0)]),
    ]));
    let (summary, spk_no, daf_idx, idx) =
        almanac.spk_summary_at_epoch(MOON, at_seconds(30.0)).unwrap();
    assert_eq!(summary.target_id, MOON);
    assert_eq!((spk_no, daf_idx, idx), (0, Some(7), 1));

    let memo = almanac.cache.spk_segment(MOON).unwrap();
    assert_eq!((memo.spk_no, memo.daf_idx, memo.idx_in_spk), (0, Some(7), 1));
    assert_eq!(memo.summaries_byte_range, (8 * 1024 + 24, 9 * 1024));
    assert_eq!(memo.start_et_s.bits, 5.0_f64.to_bits());
    assert_eq!(memo.end_et_s.bits, 90.0_f64.to_bits());
    assert!(memo.decoded.is_none());

    // The memo answers with the same place.
    let (again, no, daf, i) = almanac.spk_summary_at_epoch(MOON, at_seconds(31.0)).unwrap();
    assert_eq!(again.start_epoch, summary.start_epoch);
    assert_eq!((no, daf, i), (0, Some(7), 1));
}

#[test]
fn ids_out_of_order_are_not_remembered() {
    let spk = kernel(vec![
        block(0, vec![segment(MOON, 50.0, 60.0), segment(399, 0.0, 10.0)]),
        block(1, vec![segment(MOON, 0.0, 10.0), segment(399, 10.0, 20.0)]),
    ]);
    assert!(spk.index.contains(&399));
    assert!(!spk.index.contains(&MOON));
    let almanac = Almanac::from_spk(spk);
    assert!(almanac.spk_summary_at_epoch(MOON, at_seconds(5.0)).is_ok());
    assert!(almanac.cache.spk_segment(MOON).is_none());
    assert!(almanac.spk_summary_at_epoch(399, at_seconds(15.0)).is_ok());
    assert!(almanac.cache.spk_segment(399).is_some());
}

#[test]
fn index_holds_ids_without_overlap() {
    // The second segment of the Moon lies within the first; a third one after both does not help.
    let spk = kernel(vec![block(
        0,
        vec![
            segment(MOON, 0.0, 100.0),
            segment(MOON, 20.0, 30.0),
            segment(MOON, 100.0, 200.0),
            segment(10, 0.0, 5.0),
        ],
    )]);
    assert!(!spk.index.contains(&MOON));
    assert!(spk.index.contains(&10));
    assert!(!spk.index.contains(&399));
}

#[test]
fn shadowed_ids_are_not_remembered() {
    let lower = kernel(vec![block(0, vec![segment(MOON, 0.0, 10.0), segment(399, 0.0, 10.0)])]);
    let higher = kernel(vec![block(0, vec![segment(MOON, 50.0, 60.0)])]);
    let almanac = Almanac::from_spk(lower).with_spk_as(higher, Some("higher".to_string()));
    assert_eq!(almanac.spk_summary_at_epoch(MOON, at_seconds(5.0)).unwrap().1, 0);
    assert!(almanac.cache.spk_segment(MOON).is_none());
    assert_eq!(almanac.spk_summary_at_epoch(399, at_seconds(5.0)).unwrap().1, 0);
    assert!(almanac.cache.spk_segment(399).is_some());
    assert_eq!(almanac.spk_summary_at_epoch(MOON, at_seconds(55.0)).unwrap().1, 1);
    assert!(almanac.cache.spk_segment(MOON).is_some());
}

#[test]
fn hints_are_validated_against_the_live_summary() {
    let almanac = Almanac::from_spk(kernel(vec![block(
        0,
        vec![segment(MOON, 0.0, 10.0), segment(399, 0.0, 10.0)],
    )]));
    let epoch = at_seconds(5.0);
    let (r, found) = almanac.spk_summary_with_memo(MOON, epoch, None);
    assert_eq!(r.unwrap().3, 0);
    let memo = found.unwrap();
    // A hit leaves nothing to store.
    let (r, found) = almanac.spk_summary_with_memo(MOON, epoch, Some(memo));
    assert_eq!(r.unwrap().3, 0);
    assert!(found.is_none());
    // Each claim of the memo that the live data do not bear out leads to a search.
    let mut wrong_place = memo;
    wrong_place.idx_in_spk = 1;
    let mut no_kernel = memo;
    no_kernel.spk_no = 3;
    let mut no_summary = memo;
    no_summary.idx_in_spk = 9;
    let mut wrong_range = memo;
    wrong_range.summaries_byte_range = (0, 24);
    let mut wrong_bounds = memo;
    wrong_bounds.end_et_s = EtSeconds { bits: 11.0_f64.to_bits() };
    let mut not_numbers = memo;
    not_numbers.start_et_s = EtSeconds { bits: f64::NAN.to_bits() };
    for stale in [wrong_place, no_kernel, no_summary, wrong_range, wrong_bounds, not_numbers] {
        assert!(almanac.recall(MOON, &epoch, &stale).is_none());
        let (r, found) = almanac.spk_summary_with_memo(MOON, epoch, Some(stale));
        assert_eq!(r.unwrap().3, 0);
        assert!(found.is_some());
    }
    assert!(almanac.recall(MOON, &at_seconds(11.0), &memo).is_none());
    assert!(almanac.recall(399, &epoch, &memo).is_none());
}

#[test]
fn loading_under_an_alias_in_use_takes_precedence() {
    let spk = |end: f64| kernel(vec![block(0, vec![segment(MOON, 0.0, end)])]);
    let almanac = Almanac::default()
        .with_spk_as(spk(10.0), Some("x".to_string()))
        .with_spk_as(spk(20.0), Some("y".to_string()))
        .with_spk_as(spk(30.0), Some("x".to_string()));
    assert_eq!(almanac.num_loaded_spk(), 2);
    let (summary, spk_no, _, _) = almanac.spk_summary(MOON).unwrap();
    assert_eq!(summary.end_epoch, at_seconds(30.0));
    assert_eq!(spk_no, 1);
    let (summary, spk_no, _, _) = almanac.spk_summary_from_name("BODY 301").unwrap();
    assert_eq!((summary.end_epoch, spk_no), (at_seconds(30.0), 1));
    assert_eq!(almanac.spk_summary_at_epoch(MOON, at_seconds(15.0)).unwrap().1, 1);
    assert_eq!(almanac.spk_summary_at_epoch(MOON, at_seconds(25.0)).unwrap().1, 1);
    let ends: Vec<Epoch> =
        almanac.spk_summaries(MOON).unwrap().iter().map(|s| s.end_epoch).collect();
    assert_eq!(ends, vec![at_seconds(30.0), at_seconds(20.0)]);
}

#[test]
fn loading_under_an_alias_in_use_keeps_the_others_in_order() {
    let spk = |id: i32| kernel(vec![block(0, vec![segment(id, 0.0, 10.0)])]);
    let almanac = Almanac::default()
        .with_spk_as(spk(1), Some("a".to_string()))
        .with_spk_as(spk(2), Some("b".to_string()))
        .with_spk_as(spk(3), Some("c".to_string()))
        .with_spk_as(spk(4), Some("a".to_string()));
    assert_eq!(almanac.num_loaded_spk(), 3);
    assert!(almanac.spk_summary(1).is_err());
    let places: Vec<usize> = [2, 3, 4].iter().map(|id| almanac.spk_summary(*id).unwrap().1).collect();
    assert_eq!(places, vec![0, 1, 2]);
}

#[test]
fn unload_moves_the_last_kernel() {
    let spk = |id: i32| kernel(vec![block(0, vec![segment(id, 0.0, 10.0)])]);
    let mut almanac = Almanac::default()
        .with_spk_as(spk(1), Some("a".to_string()))
        .with_spk_as(spk(2), Some("b".to_string()))
        .with_spk_as(spk(3), Some("c".to_string()));
    assert_eq!(almanac.spk_summary(3).unwrap().1, 2);
    assert!(almanac.spk_summary_at_epoch(2, at_seconds(1.0)).is_ok());
    assert!(almanac.cache.spk_segment(2).is_some());

    assert!(almanac.spk_unload("a").is_ok());
    assert_eq!(almanac.num_loaded_spk(), 2);
    assert!(almanac.cache.spk_segment(2).is_none(), "unloading must invalidate the cache");
    assert!(almanac.spk_summary(1).is_err());
    assert_eq!(almanac.spk_summary(3).unwrap().1, 0);
    assert_eq!(almanac.spk_summary(2).unwrap().1, 1);

    assert!(almanac.spk_summary_at_epoch(2, at_seconds(1.0)).is_ok());
    match almanac.spk_unload("a") {
        Err(EphemerisError::AliasNotFound { alias, action }) => {
            assert_eq!(alias, "a");
            assert_eq!(action, "unload ephemeris");
        }
        other => panic!("unexpected {other:?}"),
    }
    assert_eq!(almanac.num_loaded_spk(), 2);
    assert!(almanac.cache.spk_segment(2).is_some(), "a failed unload must change nothing");
}

#[test]
fn root_is_dropped_when_the_kernels_change() {
    let mut almanac = de440s_almanac().with_spk_as(de440s(), Some("copy".to_string()));
    almanac.cache.store_root(0);
    assert!(almanac.spk_unload("missing").is_err());
    assert_eq!(almanac.cache.root(), Some(0), "a failed unload must change nothing");
    almanac.spk_unload("copy").unwrap();
    assert!(almanac.cache.root().is_none(), "unloading must invalidate the cache");
    almanac.cache.store_root(10);
    let almanac = almanac.with_spk_as(de440s(), Some("../data/de440s.bsp".to_string()));
    assert!(almanac.cache.root().is_none(), "loading must invalidate the cache");
}

#[test]
fn queries_by_name_leave_the_cache_alone() {
    let (warm, cold) = (de440s_almanac(), de440s_almanac());
    warm.cache.store_root(0);
    warm.spk_summary_at_epoch(MOON, noon(2024)).unwrap();
    for almanac in [&warm, &cold] {
        let (summary, spk_no, daf_idx, idx) =
            almanac.spk_summary_from_name_at_epoch("BODY 399", noon(2030)).unwrap();
        assert_eq!((summary.target_id, spk_no, daf_idx, idx), (399, 0, None, 11));
        assert!(almanac.spk_summary_from_name_at_epoch("BODY 399", noon(2700)).is_err());
        assert!(almanac.cache.spk_segment(399).is_none());
    }
    assert_eq!(warm.cache.root(), Some(0));
    assert_eq!(warm.cache.spk_segment(MOON).unwrap().idx_in_spk, 10);
    assert!(cold.cache.root().is_none());
    assert!(cold.cache.spk_segment(MOON).is_none());
}

#[test]
fn unload_undoes_load() {
    let mut almanac = de440s_almanac().with_spk_as(de440s(), Some("copy".to_string()));
    assert_eq!(almanac.spk_summary(MOON).unwrap().1, 1);
    almanac.spk_unload("copy").unwrap();
    assert_eq!(almanac.num_loaded_spk(), 1);
    assert_eq!(almanac.spk_summary(MOON).unwrap().1, 0);
}

#[test]
fn kernels_without_alias_are_loaded() {
    let almanac = Almanac::from_spk(de440s());
    assert_eq!(almanac.num_loaded_spk(), 1);
    let almanac = Almanac::default().with_spk(de440s());
    assert_eq!(almanac.num_loaded_spk(), 1);
    assert!(almanac.spk_summary(MOON).is_ok());
    // The alias is the time of loading.
    let before = hifitime::Epoch::now().unwrap().to_string();
    let almanac = Almanac::from_spk(de440s());
    let after = hifitime::Epoch::now().unwrap().to_string();
    let alias = almanac.spk_data.keys().next().unwrap();
    assert!(before <= *alias && *alias <= after, "{before} {alias} {after}");
}

#[test]
fn summaries_are_listed_in_reverse_loading_order() {
    let first = kernel(vec![
        block(0, vec![segment(MOON, 0.0, 10.0), segment(399, 0.0, 10.0)]),
        block(4, vec![segment(MOON, 10.0, 20.0)]),
    ]);
    let second = kernel(vec![block(0, vec![segment(MOON, 5.0, 6.0)])]);
    let almanac = Almanac::from_spk(first).with_spk_as(second, Some("second".to_string()));
    let ends: Vec<Epoch> =
        almanac.spk_summaries(MOON).unwrap().iter().map(|s| s.end_epoch).collect();
    assert_eq!(ends, vec![at_seconds(6.0), at_seconds(10.0), at_seconds(20.0)]);
    match almanac.spk_summaries(10) {
        Err(EphemerisError::SPK { action, source: DAFError::SummaryIdError { kind, id } }) => {
            assert_eq!(action, "searching for SPK summary");
            assert_eq!(kind, "SPK");
            assert_eq!(id, 10);
        }
        other => panic!("unexpected {other:?}"),
    }
}

#[test]
fn domains_span_all_segments() {
    let first = kernel(vec![block(
        0,
        vec![segment(MOON, 0.0, 10.0), segment(399, -4.0, 1.0), segment(MOON, 30.0, 40.0)],
    )]);
    let second = kernel(vec![block(0, vec![segment(MOON, -20.0, 35.0)])]);
    let almanac = Almanac::from_spk(first).with_spk_as(second, Some("second".to_string()));
    assert_eq!(almanac.spk_domain(MOON).unwrap(), (at_seconds(-20.0), at_seconds(40.0)));
    assert_eq!(almanac.spk_domain(399).unwrap(), (at_seconds(-4.0), at_seconds(1.0)));
    assert!(almanac.spk_domain(10).is_err());

    let domains = almanac.spk_domains().unwrap();
    assert_eq!(domains.len(), 2);
    assert_eq!(domains[&MOON], almanac.spk_domain(MOON).unwrap());
    assert_eq!(domains[&399], almanac.spk_domain(399).unwrap());
    assert!(matches!(
        Almanac::default().spk_domains(),
        Err(EphemerisError::NoEphemerisLoaded)
    ));
}

#[test]
fn failed_query_reports_the_domain() {
    let almanac = Almanac::from_spk(kernel(vec![block(
        0,
        vec![segment(MOON, 0.0, 10.0), segment(MOON, 30.0, 40.0)],
    )]));
    let gap = at_seconds(20.0);
    match almanac.spk_summary_at_epoch(MOON, gap) {
        Err(EphemerisError::SPK {
            action,
            source: DAFError::SummaryIdAtEpochError { kind, id, epoch, start, end },
        }) => {
            assert_eq!(action, "searching for SPK summary");
            assert_eq!(kind, "SPK");
            assert_eq!((id, epoch), (MOON, gap));
            assert_eq!((start, end), (at_seconds(0.0), at_seconds(40.0)));
        }
        other => panic!("unexpected {other:?}"),
    }
    // An identifier that is not present at all is reported as such.
    assert!(matches!(
        almanac.spk_summary_at_epoch(10, gap),
        Err(EphemerisError::SPK { source: DAFError::SummaryIdError { id: 10, .. }, .. })
    ));
    assert!(matches!(
        almanac.spk_summary(10),
        Err(EphemerisError::SPK { source: DAFError::SummaryIdError { id: 10, .. }, .. })
    ));
}

#[test]
fn names_are_searched_by_precedence() {
    let first = kernel(vec![
        block(0, vec![segment(399, 0.0, 10.0), segment(MOON, 0.0, 10.0)]),
        block(3, vec![segment(MOON, 10.0, 20.0)]),
    ]);
    let second = kernel(vec![block(0, vec![segment(MOON, 50.0, 60.0)])]);
    let almanac = Almanac::from_spk(first).with_spk_as(second, Some("second".to_string()));

    let (summary, spk_no, daf_idx, idx) = almanac.spk_summary_from_name("BODY 301").unwrap();
    assert_eq!(summary.start_epoch, at_seconds(50.0));
    assert_eq!((spk_no, daf_idx, idx), (1, None, 0));

    let (summary, spk_no, daf_idx, idx) =
        almanac.spk_summary_from_name_at_epoch("BODY 301", at_seconds(5.0)).unwrap();
    assert_eq!(summary.end_epoch, at_seconds(10.0));
    assert_eq!((spk_no, daf_idx, idx), (0, None, 1));

    // Only the first summary of a name within a kernel is considered.
    match almanac.spk_summary_from_name_at_epoch("BODY 301", at_seconds(15.0)) {
        Err(EphemerisError::SPK {
            action,
            source: DAFError::SummaryNameAtEpochError { kind, name, epoch },
        }) => {
            assert_eq!(action, "searching for SPK summary");
            assert_eq!(kind, "SPK");
            assert_eq!(name, "BODY 301");
            assert_eq!(epoch, at_seconds(15.0));
        }
        other => panic!("unexpected {other:?}"),
    }
    match almanac.spk_summary_from_name("BODY 10") {
        Err(EphemerisError::SPK {
            action,
            source: DAFError::SummaryNameError { kind, name },
        }) => {
            assert_eq!(action, "searching for SPK summary");
            assert_eq!(kind, "SPK");
            assert_eq!(name, "BODY 10");
        }
        other => panic!("unexpected {other:?}"),
    }
}

#[test]
fn undecodable_blocks_are_skipped() {
    let mut broken = block(2, vec![segment(MOON, 0.0, 10.0)]);
    broken.summaries = None;
    let spk = kernel(vec![broken, block(5, vec![segment(399, 0.0, 10.0)])]);
    let almanac = Almanac::from_spk(spk);
    assert!(almanac.spk_summary(MOON).is_err());
    assert!(almanac.spk_summary_from_name("BODY 301").is_err());
    assert_eq!(almanac.spk_summary(399).unwrap().2, Some(5));
    assert_eq!(almanac.spk_summaries(399).unwrap().len(), 1);
    assert_eq!(almanac.spk_domains().unwrap().len(), 1);
}

#[test]
fn blocks_must_not_share_a_place() {
    let one = || block(1, vec![segment(MOON, 0.0, 10.0)]);
    assert!(SPK::new(vec![one(), one()]).is_none());
    let mut same_bytes = block(2, vec![]);
    same_bytes.summaries_byte_range = one().summaries_byte_range;
    assert!(SPK::new(vec![one(), same_bytes]).is_none());
    assert!(SPK::new(vec![one(), block(2, vec![])]).is_some());
}
