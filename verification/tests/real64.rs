use loadwright::real64::Real64;

fn real64(value: f64) -> Real64 {
    Real64::from_bits(value.to_bits())
}

fn edge_values() -> Vec<f64> {
    vec![
        0.0,
        -0.0,
        f64::from_bits(1),
        -f64::from_bits(1),
        f64::MIN_POSITIVE,
        f64::from_bits(f64::MIN_POSITIVE.to_bits() - 1),
        0.1,
        0.95,
        1.0,
        -1.0,
        199.99999999999997,
        200.0,
        800.0,
        800.0000000000001,
        9007199254740991.0,
        9007199254740992.0,
        f64::MAX,
        f64::MIN,
        f64::INFINITY,
        f64::NEG_INFINITY,
        f64::NAN,
        -f64::NAN,
    ]
}

#[test]
fn comparison_agrees_with_the_machine() {
    for a in edge_values() {
        for b in edge_values() {
            assert_eq!(real64(a).gt(real64(b)), a > b, "{a} > {b}");
            assert_eq!(real64(a).lt(real64(b)), a < b, "{a} < {b}");
        }
    }
}

#[test]
fn bits_are_kept() {
    for a in edge_values() {
        assert_eq!(real64(a).to_bits(), a.to_bits());
    }
}

fn edge_counts() -> Vec<u64> {
    let mut counts: Vec<u64> = (0..3000).collect();
    for shift in 0..64u32 {
        let power = 1u64 << shift;
        for offset in 0..4u64 {
            counts.push(power.wrapping_add(offset));
            counts.push(power.wrapping_sub(offset));
            counts.push(power.wrapping_add(power / 2).wrapping_add(offset));
        }
    }
    counts.push(u64::MAX);
    counts.push((1 << 53) + 1);
    counts.push((1 << 54) + 2);
    counts.push((1 << 54) + 6);
    let mut state: u64 = 88172645463325252;
    for _ in 0..3000 {
        state ^= state << 13;
        state ^= state >> 7;
        state ^= state << 17;
        counts.push(state);
        counts.push(state >> 11);
        counts.push(state >> 37);
    }
    counts
}

#[test]
fn whole_numbers_round_as_the_machine_rounds() {
    for count in edge_counts() {
        assert_eq!(
            Real64::from_count(count).to_bits(),
            (count as f64).to_bits(),
            "{count}"
        );
    }
}

#[test]
fn quotients_round_as_the_machine_rounds() {
    for count in edge_counts() {
        for divisor in [1u32, 2, 3, 7, 60, 1000, 4294967295] {
            assert_eq!(
                Real64::quotient(count, divisor).to_bits(),
                (count as f64 / divisor as f64).to_bits(),
                "{count} / {divisor}"
            );
        }
    }
}

#[test]
fn exact_patterns() {
    assert_eq!(Real64::from_count(0).to_bits(), 0);
    assert_eq!(Real64::from_count(1).to_bits(), 0x3ff0_0000_0000_0000);
    assert_eq!(Real64::from_count(60).to_bits(), 0x404e_0000_0000_0000);
    assert_eq!(Real64::quotient(6, 60).to_bits(), 0x3fb9_9999_9999_999a);
}
