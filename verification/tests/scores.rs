use ten_minute_art::clock::{Duration, Instant};
use ten_minute_art::score::{Score, CLOSE_BITS, ONE_BITS, SIX_TENTHS_BITS, ZERO_BITS};

fn score(v: f64) -> Score {
    Score { bits: v.to_bits() }
}

#[test]
fn constants_are_the_bits_of_their_values() {
    assert_eq!(f64::from_bits(ZERO_BITS), 0.0);
    assert_eq!(f64::from_bits(SIX_TENTHS_BITS), 0.6);
    assert_eq!(f64::from_bits(CLOSE_BITS), 0.85);
    assert_eq!(f64::from_bits(ONE_BITS), 1.0);
}

#[test]
fn scores_compare_as_floating_point_numbers_do() {
    let values = [
        f64::NEG_INFINITY,
        -1.5,
        -f64::MIN_POSITIVE,
        -5e-324,
        -0.0,
        0.0,
        5e-324,
        0.6,
        0.85,
        0.8500000000000001,
        1.0,
        f64::MAX,
        f64::INFINITY,
        f64::NAN,
        -f64::NAN,
    ];
    for a in values {
        for b in values {
            assert_eq!(score(a).at_least(score(b)), a >= b, "{a} {b}");
        }
    }
}

#[test]
fn time_passes_in_seconds_and_nanoseconds() {
    let start = Instant { nanos: 1_500_000_000 };
    let now = Instant { nanos: 4_000_000_001 };
    assert_eq!(start.elapsed(now), Duration { secs: 2, nanos: 500_000_001 });
    assert_eq!(now.elapsed(start), Duration { secs: 0, nanos: 0 });
    assert_eq!(Duration::from_secs(61).as_secs(), 61);
}
