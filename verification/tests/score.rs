use searus::score::{Score, SCORE_MAX, SCORE_ONE};

fn s(micros: u64) -> Score {
    Score::from_micros(micros)
}

#[test]
fn score_constants() {
    assert_eq!(Score::zero(), s(0));
    assert_eq!(Score::one(), s(SCORE_ONE));
    assert_eq!(SCORE_ONE, 1_000_000);
    assert_eq!(SCORE_MAX, u64::MAX);
}

#[test]
fn score_arithmetic_rounds_down() {
    assert_eq!(s(700_000).times(s(400_000)), s(280_000));
    assert_eq!(s(800_000).times(s(500_000)), s(400_000));
    assert_eq!(s(333_333).times(s(333_333)), s(111_110));
    assert_eq!(s(1).times(s(999_999)), s(0));
    assert_eq!(s(1_000_000).over(s(3_000_000)), s(333_333));
    assert_eq!(s(2_000_000).over(s(500_000)), s(4_000_000));
    assert_eq!(s(5).over(s(0)), s(0));
    assert_eq!(s(250_000).plus(s(750_001)), s(1_000_001));
    assert_eq!(s(250_000).minus(s(100_000)), s(150_000));
    assert_eq!(s(100_000).minus(s(250_000)), s(0));
    assert_eq!(s(1_500_000).scaled(3), s(4_500_000));
    assert_eq!(s(1_000_001).shared(2), s(500_000));
    assert_eq!(s(7).shared(0), s(0));
    assert_eq!(s(3).max(s(9)), s(9));
    assert_eq!(s(9).max(s(3)), s(9));
    assert_eq!(Score::from_ratio(1, 2), s(500_000));
    assert_eq!(Score::from_ratio(2, 3), s(666_666));
    assert_eq!(Score::from_ratio(5, 0), s(0));
    assert_eq!(Score::from_count(3), s(3_000_000));
}

#[test]
fn score_arithmetic_saturates() {
    assert_eq!(s(u64::MAX).plus(s(1)), s(u64::MAX));
    assert_eq!(s(u64::MAX).times(s(2_000_000)), s(u64::MAX));
    assert_eq!(s(u64::MAX).times(s(1_000_000)), s(u64::MAX));
    assert_eq!(s(u64::MAX).times(s(500_000)), s(u64::MAX / 2));
    assert_eq!(s(u64::MAX).over(s(1)), s(u64::MAX));
    assert_eq!(s(u64::MAX).scaled(u32::MAX), s(u64::MAX));
    assert_eq!(Score::from_count(usize::MAX), s(u64::MAX));
    assert_eq!(Score::from_ratio(usize::MAX, 1), s(u64::MAX));
}

#[test]
fn scores_from_binary64() {
    let of = |x: f64| Score::from_binary64_bits(x.to_bits());
    assert_eq!(of(0.0), s(0));
    assert_eq!(of(-0.0), s(0));
    assert_eq!(of(1.0), s(1_000_000));
    assert_eq!(of(0.5), s(500_000));
    assert_eq!(of(0.25), s(250_000));
    assert_eq!(of(0.8), s(800_000));
    assert_eq!(of(0.95), s(949_999));
    assert_eq!(of(0.1), s(100_000));
    assert_eq!(of(0.3), s(299_999));
    assert_eq!(of(1.5), s(1_500_000));
    assert_eq!(of(123456.789), s(123_456_789_000));
    assert_eq!(of(1e-7), s(0));
    assert_eq!(of(1e-6), s(0));
    assert_eq!(of(2.5e-6), s(2));
    assert_eq!(of(f64::MIN_POSITIVE), s(0));
    assert_eq!(of(5e-324), s(0));
    assert_eq!(of(-1.0), s(0));
    assert_eq!(of(f64::NAN), s(0));
    assert_eq!(of(f64::INFINITY), s(u64::MAX));
    assert_eq!(of(f64::NEG_INFINITY), s(0));
    assert_eq!(of(1e300), s(u64::MAX));
    assert_eq!(of(1e13), s(10_000_000_000_000_000_000));
    assert_eq!(of(2e13), s(u64::MAX));
    assert_eq!(of(4503599627370496.0), s(u64::MAX));
    for k in 0..1000u32 {
        let x = k as f64 / 1000.0 + 0.000_000_4;
        assert_eq!(of(x).micros, (x * 1e6).floor() as u64, "{}", x);
    }
}
