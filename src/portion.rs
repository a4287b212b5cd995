//! Fixed-point fractions with eighteen decimal places, and the royalty split
//! that a sale pays out.

use vstd::prelude::*;
use cosmwasm_std::{Decimal, Uint128};

verus! {

/// The atomic count of the fraction 1.
pub const ONE_ATOMICS: u128 = 1_000_000_000_000_000_000;

/// `amount * atomics / 10^18`, rounded down.
pub open spec fn mul_floor(amount: int, atomics: int) -> int {
    amount * atomics / (ONE_ATOMICS as int)
}

/// Relies on `Decimal::checked_from_ratio` of cosmwasm_std: the fraction
/// `numerator / denominator` as atomics, `numerator * 10^18 / denominator`
/// rounded down; an error for a zero denominator or a quotient past `u128`.
#[verifier::external_body]
fn checked_ratio_atomics(numerator: u128, denominator: u128) -> (r: Option<u128>)
    ensures
        denominator == 0 ==> r is None,
        denominator != 0 ==> (r is Some <==> (numerator as int) * (ONE_ATOMICS as int)
            / (denominator as int) <= u128::MAX as int),
        r matches Some(a) ==> denominator != 0 && a as int == (numerator as int) * (
        ONE_ATOMICS as int) / (denominator as int),
{
    match Decimal::checked_from_ratio(numerator, denominator) {
        Ok(d) => Some(d.atomics().u128()),
        Err(_) => None,
    }
}

/// Relies on `Uint128 * Decimal` of cosmwasm_std: `amount * atomics / 10^18`
/// rounded down, computed through `Uint128::multiply_ratio`, which panics only
/// when that quotient does not fit in `u128`.
#[verifier::external_body]
fn mul_decimal(amount: u128, atomics: u128) -> (r: u128)
    requires
        mul_floor(amount as int, atomics as int) <= u128::MAX as int,
    ensures
        r as int == mul_floor(amount as int, atomics as int),
{
    (Uint128::new(amount) * Decimal::raw(atomics)).u128()
}

/// The atomic count of one times the atomic count of one: the scale of a
/// product of two fractions.
pub const ONE_SQUARED: u128 = 1_000_000_000_000_000_000_000_000_000_000_000_000;

/// Relies on `Uint128::multiply_ratio` of cosmwasm_std: `amount * numerator /
/// denominator` rounded down, through a 256-bit product; it panics only for a
/// zero denominator or a quotient past `u128`.
#[verifier::external_body]
fn multiply_ratio(amount: u128, numerator: u128, denominator: u128) -> (r: u128)
    requires
        denominator > 0,
        (amount as int) * (numerator as int) / (denominator as int) <= u128::MAX as int,
    ensures
        r as int == (amount as int) * (numerator as int) / (denominator as int),
{
    Uint128::new(amount).multiply_ratio(numerator, denominator).u128()
}

/// A fraction with eighteen decimal places, held as its atomic count.
#[derive(Clone, Copy, Debug, PartialEq, Eq, Structural)]
pub struct Portion {
    pub atomics: u128,
}

impl Portion {
    /// A fraction in `[0, 1]`.
    pub open spec fn wf(self) -> bool {
        self.atomics <= ONE_ATOMICS
    }

    pub fn one() -> (r: Portion)
        ensures
            r.atomics == ONE_ATOMICS,
    {
        Portion { atomics: ONE_ATOMICS }
    }

    pub fn zero() -> (r: Portion)
        ensures
            r.atomics == 0,
    {
        Portion { atomics: 0 }
    }

    /// The fraction `numerator / denominator`, rounded down to eighteen
    /// decimal places; `None` for a zero denominator or a value past `u128`
    /// atomics.
    pub fn from_ratio(numerator: u128, denominator: u128) -> (r: Option<Portion>)
        ensures
            denominator == 0 ==> r is None,
            denominator != 0 ==> (r is Some <==> (numerator as int) * (ONE_ATOMICS as int)
                / (denominator as int) <= u128::MAX as int),
            r matches Some(p) ==> p.atomics as int == (numerator as int) * (ONE_ATOMICS as int)
                / (denominator as int),
    {
        match checked_ratio_atomics(numerator, denominator) {
            Some(a) => Some(Portion { atomics: a }),
            None => None,
        }
    }

    /// `1 - self`.
    pub fn complement(self) -> (r: Portion)
        requires
            self.wf(),
        ensures
            r.wf(),
            r.atomics == ONE_ATOMICS - self.atomics,
    {
        Portion { atomics: ONE_ATOMICS - self.atomics }
    }

    /// `amount * self`, rounded down.
    pub fn apply(self, amount: u128) -> (r: u128)
        requires
            self.wf(),
        ensures
            r as int == mul_floor(amount as int, self.atomics as int),
            r <= amount,
    {
        proof {
            lemma_mul_floor_le(amount as int, self.atomics as int);
        }
        mul_decimal(amount, self.atomics)
    }
}

/// A fraction of at most one never scales an amount up.
pub proof fn lemma_mul_floor_le(amount: int, atomics: int)
    requires
        amount >= 0,
        0 <= atomics <= ONE_ATOMICS as int,
    ensures
        0 <= mul_floor(amount, atomics) <= amount,
{
    let d = ONE_ATOMICS as int;
    assert(0 <= amount * atomics <= amount * d) by (nonlinear_arith)
        requires
            amount >= 0,
            0 <= atomics <= d,
    ;
    assert(0 <= amount * atomics / d <= amount * d / d) by (nonlinear_arith)
        requires
            0 <= amount * atomics <= amount * d,
            d > 0,
    ;
    assert(amount * d / d == amount) by (nonlinear_arith)
        requires
            d > 0,
    ;
}

/// Floor division by the atomic count of one never overshoots.
proof fn lemma_floor_times_one_le(x: int)
    requires
        x >= 0,
    ensures
        (x / (ONE_ATOMICS as int)) * (ONE_ATOMICS as int) <= x,
        x / (ONE_ATOMICS as int) >= 0,
{
    let d = ONE_ATOMICS as int;
    assert((x / d) * d <= x && x / d >= 0) by (nonlinear_arith)
        requires
            x >= 0,
            d > 0,
    ;
}

/// One recipient of a collection's royalty cut.
#[derive(Clone, Debug, PartialEq, Eq)]
pub struct Payee {
    pub address: String,
    pub portion: Portion,
}

impl Payee {
    pub fn duplicate(&self) -> (r: Payee)
        ensures
            r == *self,
    {
        Payee { address: self.address.clone(), portion: self.portion }
    }
}

/// Sum of the payees' portions, in atomics.
pub open spec fn portion_sum(ps: Seq<Payee>) -> int
    decreases ps.len(),
{
    if ps.len() == 0 {
        0
    } else {
        portion_sum(ps.drop_last()) + ps.last().portion.atomics
    }
}

/// Every payee's portion lies in `[0, 1]`.
pub open spec fn payees_wf(ps: Seq<Payee>) -> bool {
    forall|i: int| 0 <= i < ps.len() ==> (#[trigger] ps[i]).portion.wf()
}

/// The portions of a payee list sum to one exactly.
pub open spec fn payees_complete(ps: Seq<Payee>) -> bool {
    payees_wf(ps) && portion_sum(ps) == ONE_ATOMICS as int
}

/// What the seller of a sale at `amount` receives: `amount * (1 - royalty)`.
pub open spec fn seller_share(amount: int, royalty: int) -> int {
    mul_floor(amount, ONE_ATOMICS as int - royalty)
}

/// What a payee with `portion` receives of a sale at `amount`:
/// `amount * royalty * portion`, rounded down once.
pub open spec fn payee_share(amount: int, royalty: int, portion: int) -> int {
    amount * (royalty * portion) / (ONE_SQUARED as int)
}

/// The payees' shares of a sale at `amount`, summed.
pub open spec fn shares_total(amount: int, royalty: int, ps: Seq<Payee>) -> int
    decreases ps.len(),
{
    if ps.len() == 0 {
        0
    } else {
        shares_total(amount, royalty, ps.drop_last()) + payee_share(
            amount,
            royalty,
            ps.last().portion.atomics as int,
        )
    }
}

proof fn lemma_portion_sum_prefix(ps: Seq<Payee>, i: int)
    requires
        0 <= i <= ps.len(),
    ensures
        portion_sum(ps.take(i)) <= portion_sum(ps),
        portion_sum(ps.take(i)) >= 0,
    decreases ps.len(),
{
    if ps.len() > 0 {
        if i == ps.len() {
            assert(ps.take(i) =~= ps);
            lemma_portion_sum_prefix(ps.drop_last(), i - 1);
            assert(ps.drop_last().take(i - 1) =~= ps.take(i - 1));
        } else {
            lemma_portion_sum_prefix(ps.drop_last(), i);
            assert(ps.drop_last().take(i) =~= ps.take(i));
        }
    }
}

proof fn lemma_portion_le_sum(ps: Seq<Payee>, i: int)
    requires
        0 <= i < ps.len(),
    ensures
        ps[i].portion.atomics <= portion_sum(ps),
    decreases ps.len(),
{
    lemma_portion_sum_prefix(ps.drop_last(), ps.len() - 1);
    assert(ps.drop_last().take(ps.len() - 1) =~= ps.drop_last());
    if i < ps.len() - 1 {
        lemma_portion_le_sum(ps.drop_last(), i);
        assert(ps.drop_last()[i] == ps[i]);
    } else {
        assert(ps.last() == ps[i]);
    }
}

/// Portions that sum to one are each at most one.
pub proof fn lemma_sum_one_complete(ps: Seq<Payee>)
    requires
        portion_sum(ps) == ONE_ATOMICS as int,
    ensures
        payees_complete(ps),
{
    assert forall|i: int| 0 <= i < ps.len() implies (#[trigger] ps[i]).portion.wf() by {
        lemma_portion_le_sum(ps, i);
    }
}

/// The sum of the payees' portions in atomics, or `None` where it does not
/// fit in `u128`.
pub fn sum_portions(payees: &Vec<Payee>) -> (r: Option<u128>)
    ensures
        r matches Some(s) ==> s as int == portion_sum(payees@),
        r is None <==> portion_sum(payees@) > u128::MAX as int,
{
    let mut total: u128 = 0;
    let mut i: usize = 0;
    while i < payees.len()
        invariant
            i <= payees.len(),
            total as int == portion_sum(payees@.take(i as int)),
        decreases payees.len() - i,
    {
        assert(payees@.take(i as int + 1).drop_last() =~= payees@.take(i as int));
        let p = payees[i].portion.atomics;
        match total.checked_add(p) {
            Some(t) => {
                total = t;
            },
            None => {
                proof {
                    lemma_portion_sum_prefix(payees@, i as int + 1);
                }
                return None;
            },
        }
        i = i + 1;
    }
    assert(payees@.take(i as int) =~= payees@);
    Some(total)
}

/// A ratio of at most one never scales an amount up.
pub proof fn lemma_ratio_le(amount: int, numerator: int, denominator: int)
    requires
        amount >= 0,
        0 <= numerator <= denominator,
        denominator > 0,
    ensures
        0 <= amount * numerator / denominator <= amount,
{
    assert(0 <= amount * numerator <= amount * denominator) by (nonlinear_arith)
        requires
            amount >= 0,
            0 <= numerator <= denominator,
    ;
    assert(0 <= amount * numerator / denominator <= amount * denominator / denominator)
        by (nonlinear_arith)
        requires
            0 <= amount * numerator <= amount * denominator,
            denominator > 0,
    ;
    assert(amount * denominator / denominator == amount) by (nonlinear_arith)
        requires
            denominator > 0,
    ;
}

/// What a payee with `portion` receives of a sale at `amount`.
pub fn payee_amount(amount: u128, royalty: Portion, portion: Portion) -> (r: u128)
    requires
        royalty.wf(),
        portion.wf(),
    ensures
        r as int == payee_share(amount as int, royalty.atomics as int, portion.atomics as int),
        r <= amount,
{
    let ghost rr = royalty.atomics as int;
    let ghost pp = portion.atomics as int;
    assert(0 <= rr * pp <= (ONE_ATOMICS as int) * (ONE_ATOMICS as int)) by (nonlinear_arith)
        requires
            0 <= rr <= ONE_ATOMICS as int,
            0 <= pp <= ONE_ATOMICS as int,
    ;
    let numerator = royalty.atomics * portion.atomics;
    proof {
        lemma_ratio_le(amount as int, numerator as int, ONE_SQUARED as int);
    }
    multiply_ratio(amount, numerator, ONE_SQUARED)
}

/// The payout of a sale at `amount`: the seller's share, and one share per
/// payee, in the payees' order.
pub fn split_payment(amount: u128, royalty: Portion, payees: &Vec<Payee>) -> (r: (
    u128,
    Vec<u128>,
))
    requires
        royalty.wf(),
        payees_wf(payees@),
    ensures
        r.0 as int == seller_share(amount as int, royalty.atomics as int),
        r.1@.len() == payees@.len(),
        forall|i: int|
            0 <= i < payees@.len() ==> #[trigger] r.1@[i] as int == payee_share(
                amount as int,
                royalty.atomics as int,
                payees@[i].portion.atomics as int,
            ),
{
    let seller = royalty.complement().apply(amount);
    let mut shares: Vec<u128> = Vec::new();
    let mut i: usize = 0;
    while i < payees.len()
        invariant
            i <= payees.len(),
            royalty.wf(),
            payees_wf(payees@),
            shares@.len() == i,
            forall|j: int|
                0 <= j < i ==> #[trigger] shares@[j] as int == payee_share(
                    amount as int,
                    royalty.atomics as int,
                    payees@[j].portion.atomics as int,
                ),
        decreases payees.len() - i,
    {
        assert(payees@[i as int].portion.wf());
        let s = payee_amount(amount, royalty, payees[i].portion);
        shares.push(s);
        i = i + 1;
    }
    (seller, shares)
}

proof fn lemma_shares_total_bound(amount: int, royalty: int, ps: Seq<Payee>)
    requires
        amount >= 0,
        0 <= royalty <= ONE_ATOMICS as int,
        payees_wf(ps),
    ensures
        shares_total(amount, royalty, ps) * (ONE_SQUARED as int) <= (amount * royalty)
            * portion_sum(ps),
        shares_total(amount, royalty, ps) >= 0,
        portion_sum(ps) >= 0,
    decreases ps.len(),
{
    if ps.len() > 0 {
        let init = ps.drop_last();
        assert(payees_wf(init)) by {
            assert forall|i: int| 0 <= i < init.len() implies (#[trigger] init[i]).portion.wf() by {
                assert(init[i] == ps[i]);
            }
        }
        lemma_shares_total_bound(amount, royalty, init);
        let p = ps.last().portion.atomics as int;
        assert(ps.last() == ps[ps.len() - 1]);
        let d2 = ONE_SQUARED as int;
        let x = amount * (royalty * p);
        assert(x >= 0) by (nonlinear_arith)
            requires
                amount >= 0,
                royalty >= 0,
                p >= 0,
                x == amount * (royalty * p),
        ;
        assert((x / d2) * d2 <= x && x / d2 >= 0) by (nonlinear_arith)
            requires
                x >= 0,
                d2 > 0,
        ;
        let st = shares_total(amount, royalty, init);
        let s = portion_sum(init);
        assert((st + x / d2) * d2 <= (amount * royalty) * (s + p)) by (nonlinear_arith)
            requires
                st * d2 <= (amount * royalty) * s,
                (x / d2) * d2 <= x,
                x == amount * (royalty * p),
        ;
    }
}

/// A sale never pays out more than was paid: the seller's share and all the
/// payees' shares together stay within `amount`, when the payees' portions
/// sum to at most one.
pub proof fn lemma_split_conserves(amount: u128, royalty: Portion, payees: Seq<Payee>)
    requires
        royalty.wf(),
        payees_wf(payees),
        portion_sum(payees) <= ONE_ATOMICS as int,
    ensures
        seller_share(amount as int, royalty.atomics as int) + shares_total(
            amount as int,
            royalty.atomics as int,
            payees,
        ) <= amount as int,
{
    let a = amount as int;
    let r = royalty.atomics as int;
    let d = ONE_ATOMICS as int;
    let d2 = ONE_SQUARED as int;
    assert(d2 == d * d);
    lemma_shares_total_bound(a, r, payees);
    let st = shares_total(a, r, payees);
    let s = portion_sum(payees);
    assert(a * (d - r) >= 0 && a * r >= 0) by (nonlinear_arith)
        requires
            a >= 0,
            0 <= r <= d,
    ;
    assert(st * d <= a * r) by (nonlinear_arith)
        requires
            st * d2 <= (a * r) * s,
            d2 == d * d,
            s <= d,
            a * r >= 0,
            st >= 0,
            d > 0,
    ;
    let y = a * r / d;
    vstd::arithmetic::div_mod::lemma_fundamental_div_mod(a * r, d);
    vstd::arithmetic::div_mod::lemma_mod_pos_bound(a * r, d);
    assert(st <= y) by (nonlinear_arith)
        requires
            st * d <= a * r,
            a * r == d * y + (a * r) % d,
            0 <= (a * r) % d < d,
            d > 0,
    ;
    lemma_floor_times_one_le(a * (d - r));
    lemma_floor_times_one_le(a * r);
    let x = a * (d - r) / d;
    assert(x + y <= a) by (nonlinear_arith)
        requires
            x * d <= a * (d - r),
            y * d <= a * r,
            d > 0,
    ;
}

} // verus!
