//! Splitting an amount into parts that add back to it exactly.
use vstd::prelude::*;

use super::quotient::{lemma_quotient_grows, mul_div_parts};
use super::rounding_mode::{abs, signed};
use super::{fits_i128, restore_sign, unsigned_abs, Money};

verus! {

/// An error returned when weighted allocation input cannot produce valid allocations.
#[derive(Clone, Copy, Debug, PartialEq, Eq, Structural)]
pub enum MoneyAllocationError {
    /// No weights were supplied.
    EmptyWeights,
    /// Every supplied weight was zero.
    ZeroTotalWeight,
    /// Internal weighted allocation arithmetic exceeded the supported integer range.
    WeightOverflow,
}

/// The sum of the amounts of a sequence of money values.
pub open spec fn total_amount(s: Seq<Money>) -> int
    decreases s.len(),
{
    if s.len() == 0 {
        0
    } else {
        total_amount(s.drop_last()) + s.last().amount()
    }
}

/// The sum of a sequence of weights.
pub open spec fn weight_total(w: Seq<u32>) -> int
    decreases w.len(),
{
    if w.len() == 0 {
        0
    } else {
        weight_total(w.drop_last()) + w.last()
    }
}

/// The share of `magnitude` that `weight` out of `total` receives, rounded down.
pub open spec fn weighted_share(magnitude: int, weight: int, total: int) -> int {
    (magnitude * weight) / total
}

/// The sum of the rounded-down shares of the first `k` weights.
pub open spec fn shares_before(magnitude: int, w: Seq<u32>, total: int, k: int) -> int
    decreases k,
{
    if k <= 0 {
        0
    } else {
        shares_before(magnitude, w, total, k - 1) + weighted_share(magnitude, w[k - 1] as int, total)
    }
}

proof fn lemma_total_amount_push(s: Seq<Money>, m: Money)
    ensures
        total_amount(s.push(m)) == total_amount(s) + m.amount(),
{
    assert(s.push(m).drop_last() =~= s);
}

proof fn lemma_weight_total_step(w: Seq<u32>, i: int)
    requires
        0 <= i < w.len(),
    ensures
        weight_total(w.take(i + 1)) == weight_total(w.take(i)) + w[i],
{
    assert(w.take(i + 1).drop_last() =~= w.take(i));
}

proof fn lemma_weight_total_prefix(w: Seq<u32>, i: int)
    requires
        0 <= i <= w.len(),
    ensures
        0 <= weight_total(w.take(i)) <= weight_total(w),
    decreases w.len(),
{
    if i < w.len() {
        lemma_weight_total_prefix(w.drop_last(), i);
        assert(w.drop_last().take(i) =~= w.take(i));
    } else {
        assert(w.take(i) =~= w);
        lemma_weight_total_nonnegative(w);
    }
}

proof fn lemma_weight_total_nonnegative(w: Seq<u32>)
    ensures
        weight_total(w) >= 0,
    decreases w.len(),
{
    if w.len() > 0 {
        lemma_weight_total_nonnegative(w.drop_last());
    }
}

/// A rounded-down share is the largest whole number of units not above the exact share:
/// `share * total <= magnitude * weight < (share + 1) * total`.
pub proof fn lemma_share_bounds(magnitude: int, weight: int, total: int)
    requires
        magnitude >= 0,
        weight >= 0,
        total > 0,
    ensures
        weighted_share(magnitude, weight, total) >= 0,
        weighted_share(magnitude, weight, total) * total <= magnitude * weight,
        magnitude * weight < (weighted_share(magnitude, weight, total) + 1) * total,
{
    let x = magnitude * weight;
    assert(x >= 0) by (nonlinear_arith)
        requires
            magnitude >= 0,
            weight >= 0,
            x == magnitude * weight,
    ;
    vstd::arithmetic::div_mod::lemma_fundamental_div_mod(x, total);
    vstd::arithmetic::div_mod::lemma_mod_pos_bound(x, total);
    let q = x / total;
    assert(q >= 0 && q * total <= x && x < (q + 1) * total) by (nonlinear_arith)
        requires
            x == total * q + x % total,
            0 <= x % total < total,
            x >= 0,
            total > 0,
    ;
}

impl Money {
    /// Splits this amount into `parts` equal parts; the remainder goes to the last part, so
    /// the parts add back to the original amount exactly.
    pub fn allocate(&self, parts: u8) -> (r: Vec<Money>)
        requires
            parts > 0,
        ensures
            r.len() == parts,
            forall|i: int| 0 <= i < parts - 1 ==> #[trigger] r[i].amount() == signed(
                abs(self.amount() as int) / (parts as int),
                self.amount() < 0,
            ),
            r[parts - 1].amount() == signed(
                abs(self.amount() as int) / (parts as int) + abs(self.amount() as int) % (
                parts as int),
                self.amount() < 0,
            ),
            forall|i: int| 0 <= i < parts ==> #[trigger] r[i].currency_view()
                == self.currency_view(),
            total_amount(r@) == self.amount(),
    {
        let count = parts;
        let divisor = count as u128;
        let magnitude = unsigned_abs(self.minor_units());
        let quotient = magnitude / divisor;
        let remainder = magnitude % divisor;
        let is_negative = self.minor_units() < 0;
        let ghost a = self.amount() as int;
        proof {
            vstd::arithmetic::div_mod::lemma_fundamental_div_mod(magnitude as int, divisor as int);
            assert(magnitude == quotient * divisor + remainder) by (nonlinear_arith)
                requires
                    magnitude == divisor * (magnitude / divisor) + magnitude % divisor,
                    quotient == magnitude / divisor,
                    remainder == magnitude % divisor,
            ;
            assert(quotient + remainder <= magnitude) by (nonlinear_arith)
                requires
                    magnitude == quotient * divisor + remainder,
                    divisor >= 1,
                    quotient >= 0,
                    remainder >= 0,
            ;
        }
        let mut allocations: Vec<Money> = Vec::new();
        let mut i: u8 = 0;
        let ghost mut allocated: int = 0;
        while i < count - 1
            invariant
                0 <= i <= count - 1,
                count == parts > 0,
                allocations.len() == i,
                allocated == i * quotient,
                quotient + remainder <= magnitude,
                magnitude == abs(a),
                is_negative == (a < 0),
                a == self.amount(),
                fits_i128(a),
                total_amount(allocations@) == signed(allocated, is_negative),
                forall|j: int| 0 <= j < i ==> #[trigger] allocations[j].amount() == signed(
                    quotient as int,
                    is_negative,
                ),
                forall|j: int| 0 <= j < i ==> #[trigger] allocations[j].currency_view()
                    == self.currency_view(),
            decreases count - 1 - i,
        {
            let m = self.with_magnitude(quotient, is_negative);
            proof {
                lemma_total_amount_push(allocations@, m);
                assert((i + 1) * quotient == i * quotient + quotient) by (nonlinear_arith);
                allocated = allocated + quotient;
            }
            allocations.push(m);
            i = i + 1;
        }
        let last = self.with_magnitude(quotient + remainder, is_negative);
        proof {
            lemma_total_amount_push(allocations@, last);
            assert(allocated + quotient + remainder == magnitude) by (nonlinear_arith)
                requires
                    allocated == (count - 1) * quotient,
                    magnitude == quotient * count + remainder,
            ;
        }
        allocations.push(last);
        allocations
    }

    /// Splits this amount according to non-negative integer weights. Each part but the last
    /// receives its weight's share rounded down; the last part receives the rest, so the
    /// parts add back to the original amount exactly.
    ///
    /// Fails with `EmptyWeights` when no weights are given and with `ZeroTotalWeight` when
    /// every weight is zero.
    pub fn allocate_weighted(&self, weights: &[u32]) -> (r: Result<Vec<Money>, MoneyAllocationError>)
        ensures
            match r {
                Ok(v) => {
                    let n = weights@.len() as int;
                    let magnitude = abs(self.amount() as int);
                    let total = weight_total(weights@);
                    &&& n > 0
                    &&& total > 0
                    &&& v.len() == n
                    &&& forall|i: int| 0 <= i < n - 1 ==> #[trigger] v[i].amount() == signed(
                        weighted_share(magnitude, weights@[i] as int, total),
                        self.amount() < 0,
                    )
                    &&& v[n - 1].amount() == signed(
                        magnitude - shares_before(magnitude, weights@, total, n - 1),
                        self.amount() < 0,
                    )
                    &&& forall|i: int| 0 <= i < n ==> #[trigger] v[i].currency_view()
                        == self.currency_view()
                    &&& total_amount(v@) == self.amount()
                    &&& forall|i: int| 0 <= i < n - 1 ==> {
                        let part = abs(#[trigger] v[i].amount() as int);
                        &&& part * total <= magnitude * weights@[i] < (part + 1) * total
                        &&& (v[i].amount() < 0 ==> self.amount() < 0)
                        &&& (v[i].amount() > 0 ==> self.amount() > 0)
                    }
                },
                Err(MoneyAllocationError::EmptyWeights) => weights@.len() == 0,
                Err(MoneyAllocationError::ZeroTotalWeight) => weights@.len() > 0 && weight_total(
                    weights@,
                ) == 0,
                Err(MoneyAllocationError::WeightOverflow) => false,
            },
    {
        let n = weights.len();
        if n == 0 {
            return Err(MoneyAllocationError::EmptyWeights);
        }
        let ghost w = weights@;
        let mut total_weight: u128 = 0;
        let mut i: usize = 0;
        assert(w.take(0) =~= Seq::<u32>::empty());
        while i < n
            invariant
                0 <= i <= n == w.len(),
                w == weights@,
                total_weight == weight_total(w.take(i as int)),
                total_weight <= i * 0xFFFF_FFFFu128,
            decreases n - i,
        {
            proof {
                lemma_weight_total_step(w, i as int);
                assert(total_weight + weights[i as int] <= (i + 1) * 0xFFFF_FFFFu128) by (
                nonlinear_arith)
                    requires
                        total_weight <= i * 0xFFFF_FFFFu128,
                        weights[i as int] <= 0xFFFF_FFFFu128,
                ;
                assert((i + 1) * 0xFFFF_FFFFu128 <= 0x1_0000_0000_0000_0000 * 0xFFFF_FFFFu128)
                    by (nonlinear_arith)
                    requires
                        i + 1 <= 0x1_0000_0000_0000_0000,
                ;
            }
            total_weight = match total_weight.checked_add(weights[i] as u128) {
                Some(t) => t,
                None => {
                    return Err(MoneyAllocationError::WeightOverflow);
                },
            };
            i = i + 1;
        }
        assert(w.take(n as int) =~= w);
        if total_weight == 0 {
            return Err(MoneyAllocationError::ZeroTotalWeight);
        }
        let magnitude = unsigned_abs(self.minor_units());
        let is_negative = self.minor_units() < 0;
        let ghost a = self.amount() as int;
        let ghost t = total_weight as int;
        let mut allocated_magnitude: u128 = 0;
        let mut allocations: Vec<Money> = Vec::new();
        let mut i: usize = 0;
        while i < n - 1
            invariant
                0 <= i <= n - 1,
                n == w.len() == weights@.len(),
                w == weights@,
                t == total_weight == weight_total(w),
                t > 0,
                magnitude == abs(a),
                is_negative == (a < 0),
                a == self.amount(),
                fits_i128(a),
                allocations.len() == i,
                allocated_magnitude == shares_before(magnitude as int, w, t, i as int),
                allocated_magnitude * t <= magnitude * weight_total(w.take(i as int)),
                total_amount(allocations@) == signed(allocated_magnitude as int, is_negative),
                forall|j: int| 0 <= j < i ==> #[trigger] allocations[j].amount() == signed(
                    weighted_share(magnitude as int, w[j] as int, t),
                    is_negative,
                ),
                forall|j: int| 0 <= j < i ==> #[trigger] allocations[j].currency_view()
                    == self.currency_view(),
            decreases n - 1 - i,
        {
            let weight = weights[i];
            proof {
                lemma_weight_total_step(w, i as int);
                lemma_weight_total_prefix(w, i as int + 1);
                lemma_weight_total_prefix(w, i as int);
                lemma_quotient_grows(magnitude as int, weight as int, t, t);
                vstd::arithmetic::div_mod::lemma_div_by_multiple(magnitude as int, t);
                assert(magnitude * t == t * magnitude) by (nonlinear_arith);
            }
            let share = match mul_div_floor(magnitude, weight as u128, total_weight) {
                Ok(s) => s,
                Err(e) => {
                    return Err(e);
                },
            };
            proof {
                let wp = weight_total(w.take(i as int));
                vstd::arithmetic::div_mod::lemma_fundamental_div_mod(magnitude * weight, t);
                vstd::arithmetic::div_mod::lemma_mod_pos_bound(magnitude * weight, t);
                assert((allocated_magnitude + share) * t <= magnitude * (wp + weight)) by (
                nonlinear_arith)
                    requires
                        allocated_magnitude * t <= magnitude * wp,
                        share == (magnitude * weight) / t,
                        magnitude * weight == t * ((magnitude * weight) / t) + (magnitude
                            * weight) % t,
                        (magnitude * weight) % t >= 0,
                ;
                assert(magnitude * (wp + weight) <= magnitude * t) by (nonlinear_arith)
                    requires
                        wp + weight <= t,
                        magnitude >= 0,
                ;
                assert(allocated_magnitude + share <= magnitude) by (nonlinear_arith)
                    requires
                        (allocated_magnitude + share) * t <= magnitude * t,
                        t > 0,
                ;
            }
            allocated_magnitude = match allocated_magnitude.checked_add(share) {
                Some(x) => x,
                None => {
                    return Err(MoneyAllocationError::WeightOverflow);
                },
            };
            let m = self.with_magnitude(share, is_negative);
            proof {
                lemma_total_amount_push(allocations@, m);
            }
            allocations.push(m);
            i = i + 1;
        }
        proof {
            lemma_weight_total_prefix(w, i as int);
            assert(allocated_magnitude <= magnitude) by (nonlinear_arith)
                requires
                    allocated_magnitude * t <= magnitude * weight_total(w.take(i as int)),
                    weight_total(w.take(i as int)) <= t,
                    t > 0,
                    magnitude >= 0,
            ;
        }
        let last_share = match magnitude.checked_sub(allocated_magnitude) {
            Some(x) => x,
            None => {
                return Err(MoneyAllocationError::WeightOverflow);
            },
        };
        let last = self.with_magnitude(last_share, is_negative);
        proof {
            lemma_total_amount_push(allocations@, last);
        }
        let ghost before = allocations@;
        allocations.push(last);
        proof {
            assert forall|j: int| 0 <= j < n - 1 implies {
                let part = abs(#[trigger] allocations[j].amount() as int);
                &&& part * t <= magnitude * w[j] < (part + 1) * t
                &&& (allocations[j].amount() < 0 ==> a < 0)
                &&& (allocations[j].amount() > 0 ==> a > 0)
            } by {
                assert(allocations@[j] == before[j]);
                assert(before[j].amount() == signed(
                    weighted_share(magnitude as int, w[j] as int, t),
                    is_negative,
                ));
                lemma_share_bounds(magnitude as int, w[j] as int, t);
                let share = weighted_share(magnitude as int, w[j] as int, t);
                assert(abs(allocations[j].amount() as int) == share);
                if magnitude == 0 {
                    assert(magnitude * w[j] == 0);
                    assert(share == 0);
                }
            }
        }
        Ok(allocations)
    }

    fn with_magnitude(&self, magnitude: u128, is_negative: bool) -> (r: Money)
        requires
            fits_i128(signed(magnitude as int, is_negative)),
        ensures
            r.amount() == signed(magnitude as int, is_negative),
            r.currency_view() == self.currency_view(),
    {
        Money::from_minor_units(restore_sign(magnitude, is_negative), self.currency().clone())
    }
}

/// `value * multiplier / denominator`, rounded down.
fn mul_div_floor(value: u128, multiplier: u128, denominator: u128) -> (r: Result<
    u128,
    MoneyAllocationError,
>)
    requires
        denominator > 0,
    ensures
        match r {
            Ok(q) => q == (value * multiplier) / (denominator as int),
            Err(e) => e == MoneyAllocationError::WeightOverflow && (value * multiplier) / (
            denominator as int) > u128::MAX,
        },
{
    match mul_div_parts(value, multiplier, denominator) {
        Some((quotient, _)) => Ok(quotient),
        None => Err(MoneyAllocationError::WeightOverflow),
    }
}

impl MoneyAllocationError {
    /// The error message.
    pub fn to_string(&self) -> (r: String)
        ensures
            r@ == match *self {
                MoneyAllocationError::EmptyWeights => "allocation weights are empty"@,
                MoneyAllocationError::ZeroTotalWeight => "allocation weights sum to zero"@,
                MoneyAllocationError::WeightOverflow => "allocation weight arithmetic overflowed"@,
            },
    {
        match self {
            MoneyAllocationError::EmptyWeights => String::from_str("allocation weights are empty"),
            MoneyAllocationError::ZeroTotalWeight => String::from_str(
                "allocation weights sum to zero",
            ),
            MoneyAllocationError::WeightOverflow => String::from_str(
                "allocation weight arithmetic overflowed",
            ),
        }
    }
}

} // verus!
