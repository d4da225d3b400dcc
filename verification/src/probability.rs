//! How traffic is shared among the endpoints of a service.
//!
//! The rules of a service stand one after the other, one per endpoint. Rule `i` of `n`
//! takes what reaches it with probability `1 / (n - i)`, and the last rule takes all that
//! is left.

use crate::text::digit;
use vstd::prelude::*;

verus! {

/// The number of parts of a unit interval that a rendered probability distinguishes.
pub const PROBABILITY_UNITS: u64 = 10_000_000_000;

/// The `k` for which rule `i` of `n` takes one packet in `k`; none for the last rule, which
/// takes every packet.
pub open spec fn weight(n: nat, i: nat) -> Option<nat> {
    if i + 1 >= n {
        None
    } else {
        Some((n - i) as nat)
    }
}

/// Computes the weight of rule `i` of `n`.
pub fn rule_weight(n: usize, i: usize) -> (w: Option<usize>)
    requires
        i < n,
    ensures
        match w {
            Some(k) => weight(n as nat, i as nat) == Some(k as nat) && k >= 2,
            None => weight(n as nat, i as nat) is None,
        },
{
    if i == n - 1 {
        None
    } else {
        Some(n - i)
    }
}

/// Whether `1 / k`, where it lies exactly half-way between two multiples of one unit, is
/// rendered as the greater one. Quotients are taken in IEEE 754 double precision and
/// rendered to the nearest unit, the even one where the double itself lies half-way:
/// the double nearest to `1 / k` is above the middle for these `k`, below it for
/// `32_000_000` and `160_000_000`, and exactly on it for `2048`.
pub open spec fn half_rounds_up(k: nat) -> bool {
    ||| k == 10_240
    ||| k == 51_200
    ||| k == 256_000
    ||| k == 1_280_000
    ||| k == 6_400_000
    ||| k == 800_000_000
    ||| k == 4_000_000_000
    ||| k == 20_000_000_000
}

/// The number of units nearest to `1 / k`.
pub open spec fn probability_units(k: nat) -> nat {
    let floor = PROBABILITY_UNITS as nat / k;
    let rest = PROBABILITY_UNITS as nat % k;
    if 2 * rest < k || (2 * rest == k && !half_rounds_up(k)) {
        floor
    } else {
        floor + 1
    }
}

/// The last `width` decimal digits of `u`, with leading zeros.
pub open spec fn fixed_digits(u: nat, width: nat) -> Seq<char>
    decreases width,
{
    if width == 0 {
        Seq::empty()
    } else {
        fixed_digits(u / 10, (width - 1) as nat).push(digit(u % 10))
    }
}

/// The probability `1 / k` with ten decimal places.
pub open spec fn probability(k: nat) -> Seq<char> {
    "0."@ + fixed_digits(probability_units(k), 10)
}

fn units(k: u64) -> (u: u64)
    requires
        k >= 2,
    ensures
        u == probability_units(k as nat),
        2 * u <= PROBABILITY_UNITS,
{
    let floor: u64 = PROBABILITY_UNITS / k;
    let rest: u64 = PROBABILITY_UNITS % k;
    let up = k == 10_240 || k == 51_200 || k == 256_000 || k == 1_280_000 || k == 6_400_000 || k
        == 800_000_000 || k == 4_000_000_000 || k == 20_000_000_000;
    proof {
        lemma_units_bounds(k as nat);
    }
    if rest < k - rest || (rest == k - rest && !up) {
        floor
    } else {
        floor + 1
    }
}

fn fixed_digits_text(u: u64, width: u32) -> (text: String)
    ensures
        text@ == fixed_digits(u as nat, width as nat),
    decreases width,
{
    if width == 0 {
        String::new()
    } else {
        let mut text = fixed_digits_text(u / 10, width - 1);
        text.append(crate::text::decimal_text((u % 10) as u128).as_str());
        assert(text@ =~= fixed_digits(u as nat, width as nat));
        text
    }
}

/// Renders the probability `1 / k` with ten decimal places.
pub fn probability_text(k: usize) -> (text: String)
    requires
        k >= 2,
    ensures
        text@ == probability(k as nat),
{
    let mut text = "0.".to_string();
    text.append(fixed_digits_text(units(k as u64), 10).as_str());
    text
}

/// What is rendered is at most half a unit away from `1 / k`, and never more than one half.
pub proof fn lemma_units_bounds(k: nat)
    requires
        k >= 2,
    ensures
        2 * (probability_units(k) * k - PROBABILITY_UNITS) <= k,
        2 * (PROBABILITY_UNITS - probability_units(k) * k) <= k,
        2 * probability_units(k) <= PROBABILITY_UNITS,
{
    let all = PROBABILITY_UNITS as nat;
    let floor = all / k;
    let rest = all % k;
    vstd::arithmetic::div_mod::lemma_fundamental_div_mod(all as int, k as int);
    assert((floor + 1) * k == floor * k + k) by (nonlinear_arith);
    assert(floor * k == k * floor) by (nonlinear_arith);
    assert(2 * floor <= all && (2 * (floor + 1) <= all || 2 * rest < k)) by {
        if k == 2 {
            assert(floor == 5_000_000_000);
        } else {
            assert(3 * floor <= all) by (nonlinear_arith)
                requires
                    k >= 3,
                    k * floor <= all,
            ;
            if 2 * (floor + 1) > all {
                assert(false);
            }
        }
    }
}

/// The part of the traffic that the first `i` of `n` rules let pass.
pub open spec fn passed(n: nat, i: nat) -> real
    decreases i,
{
    if i == 0 {
        1real
    } else {
        let reaching = passed(n, (i - 1) as nat);
        match weight(n, (i - 1) as nat) {
            Some(k) => reaching - reaching / (k as real),
            None => 0real,
        }
    }
}

/// The part of the traffic that rule `i` of `n` takes: of what reaches it, one packet in
/// `weight`, or all of it where it has none.
pub open spec fn taken(n: nat, i: nat) -> real {
    match weight(n, i) {
        Some(k) => passed(n, i) / (k as real),
        None => passed(n, i),
    }
}

/// Every endpoint gets the same share of the traffic, and nothing is left over.
pub proof fn law_equal_shares(n: nat, i: nat)
    requires
        i < n,
    ensures
        taken(n, i) == 1real / (n as real),
        passed(n, n) == 0real,
{
    lemma_passed(n, i);
    let all = n as real;
    let left = (n - i) as real;
    if i + 1 < n {
        assert(passed(n, i) / left == 1real / all) by (nonlinear_arith)
            requires
                passed(n, i) == left / all,
                all > 0real,
                left > 0real,
        ;
    }
}

/// What reaches rule `i` is what the endpoints from `i` on are to share.
proof fn lemma_passed(n: nat, i: nat)
    requires
        i < n,
    ensures
        passed(n, i) == ((n - i) as real) / (n as real),
    decreases i,
{
    let all = n as real;
    if i == 0 {
        assert(all / all == 1real) by (nonlinear_arith)
            requires
                all > 0real,
        ;
    } else {
        lemma_passed(n, (i - 1) as nat);
        let before = passed(n, (i - 1) as nat);
        let k = (n - (i - 1)) as real;
        let left = (n - i) as real;
        assert(left == k - 1real);
        assert(before - before / k == left / all) by (nonlinear_arith)
            requires
                before == k / all,
                left == k - 1real,
                all > 0real,
                k > 0real,
        ;
    }
}

} // verus!
