use almanac::cache::{CacheState, DecodedSplineHeader, EphemerisCache, SpkSegmentMemo};
use almanac::epoch::{Duration, Epoch, EtSeconds};
use almanac::spk::DafDataType;
use hifitime::Unit;

fn seconds(s: f64) -> EtSeconds {
    EtSeconds { bits: s.to_bits() }
}

fn header() -> DecodedSplineHeader {
    let (centuries, nanoseconds) = (Unit::Day * 16).to_parts();
    let (c, ns) = hifitime::Epoch::from_et_seconds(0.0).to_et_duration().to_parts();
    DecodedSplineHeader {
        dtype: DafDataType::Type2ChebyshevTriplet,
        init_epoch: Epoch { since_j2000: Duration { centuries: c, nanoseconds: ns } },
        interval_length: Duration { centuries, nanoseconds },
        rsize: 41,
        num_records: 100,
        dbl_byte_range: (1024, 2048),
    }
}

fn memo(spk_no: usize, idx_in_spk: usize) -> SpkSegmentMemo {
    SpkSegmentMemo {
        spk_no,
        daf_idx: None,
        idx_in_spk,
        summaries_byte_range: (1024 + 24, 2048),
        start_et_s: seconds(-1.0e9),
        end_et_s: seconds(1.0e9),
        decoded: None,
    }
}

#[test]
fn store_and_lookup_segment() {
    let cache = EphemerisCache::default();
    assert!(cache.spk_segment(301).is_none());

    cache.store_spk_segment(301, memo(0, 3));
    let memo = cache.spk_segment(301).unwrap();
    assert_eq!(memo.spk_no, 0);
    assert_eq!(memo.idx_in_spk, 3);
    assert!(memo.decoded.is_none());
    assert!(cache.spk_segment(399).is_none());
}

#[test]
fn store_decoded_requires_matching_location() {
    let cache = EphemerisCache::default();
    cache.store_spk_segment(301, memo(0, 3));

    // Mismatched location: must be ignored.
    cache.store_decoded(301, 1, None, 3, header());
    assert!(cache.spk_segment(301).unwrap().decoded.is_none());
    cache.store_decoded(301, 0, None, 4, header());
    assert!(cache.spk_segment(301).unwrap().decoded.is_none());
    // No memo at all for this ID: must be ignored.
    cache.store_decoded(399, 0, None, 3, header());
    assert!(cache.spk_segment(399).is_none());

    // Matching location: stored.
    cache.store_decoded(301, 0, None, 3, header());
    assert_eq!(cache.spk_segment(301).unwrap().decoded.unwrap().rsize, 41);
}

#[test]
fn root_memo_and_invalidate() {
    let cache = EphemerisCache::default();
    assert!(cache.root().is_none());
    cache.store_root(0);
    assert_eq!(cache.root(), Some(0));

    cache.store_spk_segment(301, memo(0, 0));
    cache.invalidate();
    assert!(cache.root().is_none());
    assert!(cache.spk_segment(301).is_none());
}

#[test]
fn clone_is_cold() {
    let cache = EphemerisCache::default();
    cache.store_root(0);
    let cloned = cache.clone();
    assert!(cloned.root().is_none());
    // Original is untouched.
    assert_eq!(cache.root(), Some(0));
}

#[test]
fn decoded_header_needs_the_same_record() {
    let cache = EphemerisCache::default();
    cache.store_spk_segment(301, memo(0, 3));
    cache.store_decoded(301, 0, Some(7), 3, header());
    assert!(cache.spk_segment(301).unwrap().decoded.is_none());
}

#[test]
fn a_new_memo_drops_the_decoded_header() {
    let cache = EphemerisCache::default();
    cache.store_spk_segment(301, memo(0, 3));
    cache.store_decoded(301, 0, None, 3, header());
    cache.store_spk_segment(301, memo(2, 5));
    let memo = cache.spk_segment(301).unwrap();
    assert_eq!((memo.spk_no, memo.idx_in_spk), (2, 5));
    assert!(memo.decoded.is_none());
}

#[test]
fn state_holds_one_memo_per_id() {
    let mut state = CacheState::new();
    assert!(state.root.is_none());
    assert!(state.segment(301).is_none());
    state.memoize_root(10);
    state.store_segment(301, memo(0, 1));
    state.store_segment(399, memo(0, 2));
    state.store_segment(301, memo(4, 6));
    assert_eq!(state.segment(301).unwrap().spk_no, 4);
    assert_eq!(state.segment(399).unwrap().idx_in_spk, 2);
    state.attach_decoded(399, 0, None, 2, header());
    assert!(state.segment(301).unwrap().decoded.is_none());
    let decoded = state.segment(399).unwrap().decoded.unwrap();
    assert_eq!(decoded.dtype, DafDataType::Type2ChebyshevTriplet);
    assert_eq!(decoded.num_records, 100);
    assert_eq!(state.root, Some(10));
    assert_eq!(decoded.dbl_byte_range, (1024, 2048));
}
