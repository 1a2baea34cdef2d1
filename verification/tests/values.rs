use ro11y::attrs::{attrs_hash_unordered, owned_attrs, same_text};
use ro11y::clock::{now_nanos, timestamp};
use ro11y::double::{double_is_nan, double_le, double_lt};
use ro11y::histogram::{bucket_index, normalize_boundaries, HistogramState};

const DOUBLES: [f64; 14] = [
    f64::NEG_INFINITY,
    f64::MIN,
    -1.5,
    -f64::MIN_POSITIVE,
    -5e-324,
    -0.0,
    0.0,
    5e-324,
    f64::MIN_POSITIVE,
    1.0,
    1.5,
    f64::MAX,
    f64::INFINITY,
    f64::NAN,
];

#[test]
fn doubles_compare_as_ieee_754_says() {
    for a in DOUBLES {
        assert_eq!(double_is_nan(a.to_bits()), a.is_nan());
        for b in DOUBLES {
            assert_eq!(double_le(a.to_bits(), b.to_bits()), a <= b, "{} {}", a, b);
            assert_eq!(double_lt(a.to_bits(), b.to_bits()), a < b, "{} {}", a, b);
        }
    }
    assert!(double_is_nan((-f64::NAN).to_bits()));
}

#[test]
fn timestamps_are_the_low_bits() {
    assert_eq!(timestamp(None), 0);
    assert_eq!(timestamp(Some(5)), 5);
    assert_eq!(timestamp(Some(u64::MAX as u128)), u64::MAX);
    assert_eq!(timestamp(Some(u64::MAX as u128 + 8)), 7);
}

#[test]
fn the_clock_runs() {
    let before = now_nanos();
    let after = now_nanos();
    // Not before 2020.
    assert!(before > 1_577_836_800_000_000_000);
    assert!(after >= before);
}

#[test]
fn attribute_keys_are_sums_of_fnv_1a() {
    assert_eq!(attrs_hash_unordered(&[]), 0);
    // FNV-1a of the single byte 0xff.
    assert_eq!(attrs_hash_unordered(&[("", "")]), 0xaf64_724c_8602_eb6e);
    let mut h: u64 = 0xcbf29ce484222325;
    for byte in b"ab\xffc" {
        h = (h ^ *byte as u64).wrapping_mul(0x100000001b3);
    }
    assert_eq!(attrs_hash_unordered(&[("ab", "c")]), h);
    let a = attrs_hash_unordered(&[("x", "1")]);
    let b = attrs_hash_unordered(&[("y", "2")]);
    assert_eq!(attrs_hash_unordered(&[("x", "1"), ("y", "2")]), a.wrapping_add(b));
    assert_eq!(attrs_hash_unordered(&[("y", "2"), ("x", "1")]), a.wrapping_add(b));
}

#[test]
fn owned_attributes_are_sorted_by_their_bytes() {
    let pairs = [
        ("b", "2"),
        ("\u{e9}", "1"),
        ("b", "1"),
        ("", "z"),
        ("a", "\u{10000}"),
        ("a", "\u{ffff}"),
        ("b", "2"),
    ];
    let mut expected: Vec<(String, String)> = pairs
        .iter()
        .map(|(k, v)| (k.to_string(), v.to_string()))
        .collect();
    expected.sort();
    assert_eq!(*owned_attrs(&pairs), expected);
    assert!(owned_attrs(&[]).is_empty());
}

#[test]
fn texts_are_the_same_or_not() {
    assert!(same_text("", ""));
    assert!(same_text("message", "message"));
    assert!(!same_text("message", "messagf"));
    assert!(!same_text("a", "ab"));
    assert!(!same_text("\u{e9}", "e\u{301}"));
}

#[test]
fn boundaries_are_normal() {
    let bits = |v: &[f64]| v.iter().map(|x| x.to_bits()).collect::<Vec<u64>>();
    assert!(normalize_boundaries(&[]).is_empty());
    assert_eq!(
        normalize_boundaries(&bits(&[3.0, 1.0, 2.0, 1.0, 3.0])),
        bits(&[1.0, 2.0, 3.0])
    );
    // Of two equal values the first given stays.
    assert_eq!(normalize_boundaries(&bits(&[0.0, -0.0])), bits(&[0.0]));
    assert_eq!(normalize_boundaries(&bits(&[-0.0, 0.0])), bits(&[-0.0]));
}

#[test]
fn states_follow_their_observations() {
    let mut state = HistogramState::new(2);
    assert_eq!(state.bucket_counts, vec![0, 0, 0]);
    assert_eq!(f64::from_bits(state.sum), 0.0);
    assert_eq!(f64::from_bits(state.min), f64::INFINITY);
    assert_eq!(f64::from_bits(state.max), f64::NEG_INFINITY);
    let boundaries = [1.0f64.to_bits(), 2.0f64.to_bits()];
    for value in [1.5f64, 0.5, 7.0] {
        let bucket = bucket_index(&boundaries, value.to_bits());
        let sum = f64::from_bits(state.sum) + value;
        state.observe(bucket, value.to_bits(), sum.to_bits());
    }
    assert_eq!(state.bucket_counts, vec![1, 1, 1]);
    assert_eq!(state.count, 3);
    assert_eq!(f64::from_bits(state.sum), 9.0);
    assert_eq!(f64::from_bits(state.min), 0.5);
    assert_eq!(f64::from_bits(state.max), 7.0);
}
