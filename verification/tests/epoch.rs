use almanac::epoch::{alias_or_now, alias_or_time, Duration, Epoch, EtSeconds, NANOSECONDS_PER_CENTURY};
use hifitime::TimeScale;

fn seconds(s: f64) -> EtSeconds {
    EtSeconds { bits: s.to_bits() }
}

fn instant(epoch: hifitime::Epoch) -> Epoch {
    let (centuries, nanoseconds) = epoch.to_et_duration().to_parts();
    Epoch { since_j2000: Duration { centuries, nanoseconds } }
}

#[test]
fn seconds_compare_as_doubles() {
    let samples = [
        0.0,
        -0.0,
        1.0,
        -1.0,
        f64::MIN_POSITIVE,
        -f64::MIN_POSITIVE,
        5e-324,
        -5e-324,
        1.0e9,
        -4734072000.0,
        4735368000.0,
        f64::MAX,
        f64::MIN,
        f64::INFINITY,
        f64::NEG_INFINITY,
        f64::NAN,
        -f64::NAN,
    ];
    for a in samples {
        for b in samples {
            assert_eq!(seconds(a).is_at_most(&seconds(b)), a <= b, "{a} <= {b}");
            assert_eq!(seconds(a).equals(&seconds(b)), a == b, "{a} == {b}");
        }
    }
}

#[test]
fn et_seconds_are_those_of_the_epoch() {
    let epoch = Epoch { since_j2000: Duration { centuries: 0, nanoseconds: 1_500_000_000 } };
    assert_eq!(epoch.to_et_seconds().bits, 1.5_f64.to_bits());
    let epoch = Epoch { since_j2000: Duration { centuries: 1, nanoseconds: 0 } };
    assert_eq!(epoch.to_et_seconds().bits, 3_155_760_000.0_f64.to_bits());
    for s in [-4734072000.0, -0.25, 86400.0, 757339200.125] {
        let epoch = hifitime::Epoch::from_et_seconds(s);
        assert_eq!(instant(epoch).to_et_seconds().bits, epoch.to_et_seconds().to_bits());
    }
}

#[test]
fn nanoseconds_are_counted_from_the_past() {
    let second = Duration { centuries: 0, nanoseconds: 1_000_000_000 };
    assert_eq!(second.total_nanoseconds(), 1_000_000_000);
    let before = Duration { centuries: -1, nanoseconds: NANOSECONDS_PER_CENTURY - 1 };
    assert_eq!(before.total_nanoseconds(), -1);
    let far = Duration { centuries: i16::MIN, nanoseconds: 0 };
    assert_eq!(far.total_nanoseconds(), -32_768 * 3_155_760_000_000_000_000);
}

#[test]
fn epochs_are_ordered_as_instants() {
    let years = [1850, 1999, 2000, 2024, 2149];
    for a in years {
        for b in years {
            let (x, y) = (
                hifitime::Epoch::from_gregorian_at_noon(a, 1, 1, TimeScale::ET),
                hifitime::Epoch::from_gregorian_at_noon(b, 1, 1, TimeScale::ET),
            );
            assert_eq!(instant(x).is_before(&instant(y)), x < y);
        }
    }
}

#[test]
fn alias_comes_before_the_clock() {
    let alias = || Some("de440s".to_string());
    let midnight = hifitime::Epoch::from_gregorian_utc_at_midnight(2024, 1, 1);
    let (centuries, nanoseconds) = midnight.duration.to_parts();
    let reading = Some(Duration { centuries, nanoseconds });
    assert_eq!(alias_or_time(alias(), reading), "de440s");
    assert_eq!(alias_or_time(alias(), None), "de440s");
    assert_eq!(alias_or_time(None, reading), "2024-01-01T00:00:00 UTC");
    assert_eq!(alias_or_time(None, reading), midnight.to_string());
    // Without a clock the origin of TAI is used.
    assert_eq!(alias_or_time(None, None), "1900-01-01T00:00:00 TAI");
    assert_eq!(alias_or_time(None, None), hifitime::Epoch::default().to_string());
}

#[test]
fn the_clock_is_read_without_an_alias() {
    assert_eq!(alias_or_now(Some("de440s".to_string())), "de440s");
    let before = hifitime::Epoch::now().unwrap().to_string();
    let name = alias_or_now(None);
    let after = hifitime::Epoch::now().unwrap().to_string();
    assert!(before <= name && name <= after, "{before} {name} {after}");
}

#[test]
fn readings_of_the_clock_are_printed() {
    let day = Duration { centuries: 0, nanoseconds: 86_400_000_000_000 + 5 };
    assert_eq!(alias_or_time(None, Some(day)), "1900-01-02T00:00:00.000000005 UTC");
    // From 1900 to 2000 there are 36524 days, one less than in a Julian century.
    let century = Duration { centuries: 1, nanoseconds: 0 };
    assert_eq!(alias_or_time(None, Some(century)), "2000-01-02T00:00:00 UTC");
    let before = Duration { centuries: -1, nanoseconds: NANOSECONDS_PER_CENTURY - 1 };
    assert_eq!(alias_or_time(None, Some(before)), "1899-12-31T23:59:59.999999999 UTC");
    for extreme in [
        Duration { centuries: i16::MIN, nanoseconds: 0 },
        Duration { centuries: i16::MIN, nanoseconds: u64::MAX },
        Duration { centuries: i16::MAX, nanoseconds: u64::MAX },
    ] {
        assert!(alias_or_time(None, Some(extreme)).ends_with(" UTC"));
    }
}
