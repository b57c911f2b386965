use savina::error::Error;
use savina::pseudo_random::{PseudoRandomGenerator, DEFAULT_SEED};

#[test]
fn first_value_from_the_default_seed() {
    let mut g = PseudoRandomGenerator::default();
    assert_eq!(*g.next(), 22896);
    assert_eq!((74755_i64 * 1309 + 13849) & 65535, 22896);
}

#[test]
fn stream_from_the_default_seed() {
    let mut g = PseudoRandomGenerator::default();
    let expected = [22896_i64, 34761, 34014, 39231, 52540, 41445];
    for e in expected {
        assert_eq!(*g.next(), e);
    }
}

#[test]
fn default_is_the_generator_from_the_default_seed() {
    assert_eq!(DEFAULT_SEED, 74755);
    let mut a = PseudoRandomGenerator::default();
    let mut b = PseudoRandomGenerator::from(74755);
    for _ in 0..100 {
        assert_eq!(*a.next(), *b.next());
    }
}

#[test]
fn reseed_restarts_the_stream() {
    let mut g = PseudoRandomGenerator::from(1);
    g.next();
    g.next();
    g.reseed(74755);
    assert_eq!(*g.next(), 22896);
    assert_eq!(*g.next(), 34761);
}

#[test]
fn seeds_at_the_edges() {
    assert_eq!(*PseudoRandomGenerator::from(0).next(), 13849);
    assert_eq!(*PseudoRandomGenerator::from(65535).next(), 12540);
    assert_eq!(*PseudoRandomGenerator::from(-1).next(), 12540);
    assert_eq!(*PseudoRandomGenerator::from(i64::MAX).next(), 12540);
    assert_eq!(*PseudoRandomGenerator::from(i64::MIN).next(), 13849);
}

#[test]
fn state_repeats_within_65537_steps() {
    let mut g = PseudoRandomGenerator::from(74755);
    let mut first_seen = vec![0_usize; 65536];
    let mut repeat = None;
    for step in 1..=65537_usize {
        let value = g.next();
        assert!((0..=65535).contains(&*value));
        let slot = usize::from(value);
        if first_seen[slot] != 0 {
            repeat = Some((first_seen[slot], step));
            break;
        }
        first_seen[slot] = step;
    }
    assert_eq!(repeat, Some((1, 65537)));
}

#[test]
fn ten_thousand_values_stay_in_range() {
    let ranges = [(10_i64, 20_i64), (-7, -2), (0, 1), (-100_000, 100_000), (i64::MIN, i64::MAX)];
    for (a, b) in ranges {
        let mut g = PseudoRandomGenerator::default();
        for _ in 0..10_000 {
            let v = *g.next_in_range(a..b).unwrap();
            assert!(a <= v && v < b);
        }
    }
}

#[test]
fn values_in_range_follow_the_formula() {
    let mut g = PseudoRandomGenerator::default();
    let expected = [16_i64, 11, 14, 11, 10];
    for e in expected {
        assert_eq!(*g.next_in_range(10..20).unwrap(), e);
    }
    let mut g = PseudoRandomGenerator::default();
    let expected = [-9_i64, -9, -6];
    for e in expected {
        assert_eq!(*g.next_in_range(-10..-5).unwrap(), e);
    }
}

#[test]
fn range_of_width_one_gives_its_start() {
    let mut g = PseudoRandomGenerator::default();
    for _ in 0..10 {
        assert_eq!(*g.next_in_range(41..42).unwrap(), 41);
    }
    assert_eq!(*g.next(), {
        let mut h = PseudoRandomGenerator::default();
        for _ in 0..10 {
            h.next();
        }
        *h.next()
    });
}

#[test]
fn range_wider_than_the_state_adds_the_state_to_the_start() {
    let mut g = PseudoRandomGenerator::default();
    assert_eq!(*g.next_in_range(i64::MIN..i64::MAX).unwrap(), i64::MIN + 22896);
    assert_eq!(*g.next_in_range(-5..i64::MAX).unwrap(), -5 + 34761);
    assert_eq!(*g.next_in_range(1000..1_000_000).unwrap(), 1000 + 34014);
}

#[test]
fn degenerate_range_is_refused() {
    let mut g = PseudoRandomGenerator::default();
    assert_eq!(g.next_in_range(5..5).err(), Some(Error::DegenerateRange));
    assert_eq!(g.next_in_range(6..5).err(), Some(Error::DegenerateRange));
    assert_eq!(g.next_in_range(i64::MAX..i64::MIN).err(), Some(Error::DegenerateRange));
    assert_eq!(*g.next(), 22896);
}

#[test]
fn conversions_of_a_generated_value() {
    let mut g = PseudoRandomGenerator::default();
    assert_eq!(i32::from(g.next()), 22896_i32);
    assert_eq!(u32::from(g.next()), 34761_u32);
    assert_eq!(u64::from(g.next()), 34014_u64);
    assert_eq!(usize::from(g.next()), 39231_usize);
    assert_eq!(*g.next(), 52540_i64);
}

#[test]
fn conversions_cut_to_the_low_bits() {
    let mut g = PseudoRandomGenerator::default();
    assert_eq!(u32::from(g.next_in_range(-10..-5).unwrap()), 4_294_967_287_u32);
    assert_eq!(u64::from(g.next_in_range(-10..-5).unwrap()), 18_446_744_073_709_551_607_u64);
    assert_eq!(i32::from(g.next_in_range(-10..-5).unwrap()), -6_i32);
    let mut g = PseudoRandomGenerator::default();
    let start = 1_i64 << 40;
    assert_eq!(i32::from(g.next_in_range(start..start + 1).unwrap()), 0_i32);
    assert_eq!(u32::from(g.next_in_range(start + 7..start + 8).unwrap()), 7_u32);
    assert_eq!(u64::from(g.next_in_range(start..start + 1).unwrap()), 1_u64 << 40);
}
