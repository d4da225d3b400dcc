use rusternetes_services::probability::{probability_text, rule_weight};

/// The part of the traffic that each of `n` endpoints gets.
fn shares_of(n: usize) -> Vec<f64> {
    let mut remaining = 1.0_f64;
    let mut shares = Vec::new();
    for idx in 0..n {
        match rule_weight(n, idx) {
            None => shares.push(remaining),
            Some(weight) => {
                let prob = 1.0 / weight as f64;
                let share = remaining * prob;
                shares.push(share);
                remaining -= share;
            }
        }
    }
    shares
}

#[test]
fn test_probability_calculation_uniform() {
    let shares = shares_of(4);
    assert_eq!(shares.len(), 4);
    for share in &shares {
        assert!((*share - 0.25).abs() < 1e-10, "Expected ~0.25, got {}", share);
    }
}

#[test]
fn test_probability_calculation_two_endpoints() {
    let shares = shares_of(2);
    assert!((shares[0] - 0.5).abs() < 1e-10);
    assert!((shares[1] - 0.5).abs() < 1e-10);
}

#[test]
fn test_probability_calculation_three_endpoints() {
    let shares = shares_of(3);
    let expected = 1.0 / 3.0;
    assert_eq!(shares.len(), 3);
    for (i, share) in shares.iter().enumerate() {
        assert!(
            (*share - expected).abs() < 1e-10,
            "Endpoint {}: expected ~{}, got {}",
            i,
            expected,
            share
        );
    }
}

#[test]
fn test_probability_single_endpoint() {
    let n = 1;
    let idx = 0;
    let is_last = rule_weight(n, idx).is_none();
    assert!(is_last, "Single endpoint should be the last");
}

#[test]
fn weights_count_down_to_the_last_rule() {
    assert_eq!(rule_weight(4, 0), Some(4));
    assert_eq!(rule_weight(4, 1), Some(3));
    assert_eq!(rule_weight(4, 2), Some(2));
    assert_eq!(rule_weight(4, 3), None);
}

#[test]
fn probabilities_have_ten_places() {
    assert_eq!(probability_text(2), "0.5000000000");
    assert_eq!(probability_text(3), "0.3333333333");
    assert_eq!(probability_text(6), "0.1666666667");
    assert_eq!(probability_text(7), "0.1428571429");
}

#[test]
fn probabilities_read_like_the_double() {
    for k in 2..60_000usize {
        assert_eq!(probability_text(k), format!("{:.10}", 1.0 / k as f64), "1 / {}", k);
    }
    let mut k: usize = 60_001;
    while k < 1_000_000_000_000 {
        assert_eq!(probability_text(k), format!("{:.10}", 1.0 / k as f64), "1 / {}", k);
        k = k * 101 / 100 + 7;
    }
}

#[test]
fn probabilities_at_the_middle_read_like_the_double() {
    // Each of these puts 1 / k half-way between two numbers of ten places.
    let mut ks: Vec<usize> = Vec::new();
    let mut two: usize = 1;
    for _ in 0..12 {
        let mut five: usize = 1;
        for _ in 0..12 {
            ks.push(two * five);
            five *= 5;
        }
        two *= 2;
    }
    for k in ks {
        for k in [k, k.saturating_sub(1), k + 1] {
            if k >= 2 {
                assert_eq!(probability_text(k), format!("{:.10}", 1.0 / k as f64), "1 / {}", k);
            }
        }
    }
    for k in [2048usize, 10_240, 51_200, 256_000, 1_280_000, 6_400_000, 32_000_000, 160_000_000,
        800_000_000, 4_000_000_000, 20_000_000_000, usize::MAX]
    {
        assert_eq!(probability_text(k), format!("{:.10}", 1.0 / k as f64), "1 / {}", k);
    }
}
