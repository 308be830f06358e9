//! The concentration rating of a portfolio.
//!
//! A portfolio description is a JSON object whose member `holdings` lists the
//! holdings, each an object whose member `balance` is an amount written as
//! text: digits, with or without a decimal point and an exponent, as
//! [`decimal_of`] says. The rating is decided on
//! the concentration index: the sum, over the holdings, of the square of each
//! holding's share of the total in percent. One holding alone gives 10000,
//! the highest index there is.
//!
//! The index is computed exactly, whatever the size of the balances, and
//! reported with its first twelve decimals. The tier is decided on its whole
//! part: the thresholds are whole numbers, so leaving the decimals out moves
//! no portfolio into another tier.
//!
//! A holding without a usable balance is left out, of the index and of the
//! count of assets alike. A description that cannot be read, or that names no
//! holdings, or whose balances add up to nothing, is rated like a single
//! holding.

use vstd::prelude::*;
use vstd::string::*;
use crate::decimal::{decimal_of, Decimal, DecimalView};
use crate::json::{json_document, parse_json, Json};
use crate::natural::{lemma_pow10_positive, pow10, Natural};
use crate::text::{append_decimal, decimal_text};

verus! {

/// The index of a portfolio that is all in one holding, and the default where
/// no index can be computed.
pub const MAX_INDEX: u64 = 10_000;

/// How many trillionths make one.
pub const TRILLION: u64 = 1_000_000_000_000;

/// The three ratings.
#[derive(Clone, Copy, Debug, PartialEq, Eq, Structural)]
pub enum Tier {
    /// An index below 1500.
    Diversified,
    /// An index from 1500 up to, but not including, 2500.
    Moderate,
    /// An index of 2500 or more.
    Concentrated,
}

impl Tier {
    /// The risk score of the tier, out of 100.
    pub open spec fn score(self) -> u32 {
        match self {
            Tier::Diversified => 30,
            Tier::Moderate => 55,
            Tier::Concentrated => 82,
        }
    }

    /// The tier's name.
    pub open spec fn label(self) -> Seq<char> {
        match self {
            Tier::Diversified => "Well diversified"@,
            Tier::Moderate => "Moderate concentration"@,
            Tier::Concentrated => "High concentration"@,
        }
    }

    /// The advice that goes with the tier.
    pub open spec fn recommendation(self) -> Seq<char> {
        match self {
            Tier::Diversified => "Your portfolio shows healthy diversification. Maintain current allocation."@,
            Tier::Moderate => "Consider rebalancing top holdings to reduce concentration risk."@,
            Tier::Concentrated => "Urgent: Your portfolio is heavily concentrated. Diversify to reduce risk."@,
        }
    }

    /// The tier's name together with the number of assets rated.
    pub open spec fn diversification(self, assets: nat) -> Seq<char> {
        self.label() + " ("@ + decimal_text(assets) + " assets)"@
    }
}

/// The tier of a concentration index.
pub open spec fn tier_of(index: nat) -> Tier {
    if index < 1500 {
        Tier::Diversified
    } else if index < 2500 {
        Tier::Moderate
    } else {
        Tier::Concentrated
    }
}

/// The contents of a list of amounts, in the list's order.
pub open spec fn decimal_views(list: Seq<Decimal>) -> Seq<DecimalView> {
    list.map_values(|amount: Decimal| amount@)
}

/// The largest number of digits that any of the amounts has behind the point.
pub open spec fn max_scale(amounts: Seq<DecimalView>) -> nat
    decreases amounts.len(),
{
    if amounts.len() == 0 {
        0
    } else {
        let earlier = max_scale(amounts.drop_last());
        if amounts.last().scale > earlier {
            amounts.last().scale
        } else {
            earlier
        }
    }
}

/// An amount counted in units of which the `scale`-th power of ten make one:
/// a whole number for every `scale` that is at least the amount's own.
pub open spec fn units(amount: DecimalView, scale: nat) -> nat {
    amount.mantissa * pow10((scale - amount.scale) as nat)
}

/// The sum of the amounts, in units of the given scale.
pub open spec fn total(amounts: Seq<DecimalView>, scale: nat) -> nat
    decreases amounts.len(),
{
    if amounts.len() == 0 {
        0
    } else {
        total(amounts.drop_last(), scale) + units(amounts.last(), scale)
    }
}

/// The sum of the squares of the amounts, in units of the given scale.
pub open spec fn sum_squares(amounts: Seq<DecimalView>, scale: nat) -> nat
    decreases amounts.len(),
{
    if amounts.len() == 0 {
        0
    } else {
        sum_squares(amounts.drop_last(), scale) + units(amounts.last(), scale) * units(
            amounts.last(),
            scale,
        )
    }
}

/// The concentration index, rounded down to a whole number: with the shares
/// in percent, the sum of their squares is 10000 times the sum of the squared
/// balances, divided by the square of the total. The balances are counted in
/// the smallest unit that any of them is written in.
pub open spec fn concentration_index(balances: Seq<DecimalView>) -> nat {
    let scale = max_scale(balances);
    let t = total(balances, scale);
    if t > 0 {
        10000 * sum_squares(balances, scale) / (t * t)
    } else {
        MAX_INDEX as nat
    }
}

/// The concentration index in trillionths, rounded down to a whole number of
/// them: the index with its first twelve decimals.
pub open spec fn concentration_trillionths(balances: Seq<DecimalView>) -> nat {
    let scale = max_scale(balances);
    let t = total(balances, scale);
    if t > 0 {
        10_000_000_000_000_000 * sum_squares(balances, scale) / (t * t)
    } else {
        10_000_000_000_000_000
    }
}

/// The rating of a portfolio.
#[derive(Debug, PartialEq, Eq)]
pub struct RiskScore {
    /// The risk score, out of 100.
    pub score: u32,
    /// The concentration index, rounded down to a whole number.
    pub concentration: u64,
    /// The first twelve decimals of the concentration index, as trillionths.
    pub concentration_fraction: u64,
    /// The tier's name and the number of assets rated.
    pub diversification: String,
    /// The advice that goes with the tier.
    pub recommendation: String,
}

/// The mathematical content of a [`RiskScore`].
pub struct RiskView {
    pub score: u32,
    pub concentration: u64,
    pub concentration_fraction: u64,
    pub diversification: Seq<char>,
    pub recommendation: Seq<char>,
}

impl View for RiskScore {
    type V = RiskView;

    open spec fn view(&self) -> RiskView {
        RiskView {
            score: self.score,
            concentration: self.concentration,
            concentration_fraction: self.concentration_fraction,
            diversification: self.diversification@,
            recommendation: self.recommendation@,
        }
    }
}

/// The rating of the holdings with these balances.
pub open spec fn risk_of(balances: Seq<DecimalView>) -> RiskView {
    let index = concentration_index(balances);
    let tier = tier_of(index);
    RiskView {
        score: tier.score(),
        concentration: index as u64,
        concentration_fraction: (concentration_trillionths(balances) % 1_000_000_000_000) as u64,
        diversification: tier.diversification(balances.len()),
        recommendation: tier.recommendation(),
    }
}

/// The balance of one holding: the amount that the text under `balance`
/// denotes. A holding that is no object, or has no such member, or whose
/// balance is no text or no amount, has none.
pub open spec fn holding_balance(holding: Json) -> Option<DecimalView> {
    match holding.member("balance"@) {
        Some(value) => match value.text() {
            Some(text) => decimal_of(text),
            None => None,
        },
        None => None,
    }
}

/// The balances of those holdings that have one, in the holdings' order.
pub open spec fn usable_balances(holdings: Seq<Json>) -> Seq<DecimalView>
    decreases holdings.len(),
{
    if holdings.len() == 0 {
        Seq::empty()
    } else {
        let earlier = usable_balances(holdings.drop_last());
        match holding_balance(holdings.last()) {
            Some(balance) => earlier.push(balance),
            None => earlier,
        }
    }
}

/// The usable balances that a document lists under `holdings`; none where
/// there is no document, or no such member, or where it is no list.
pub open spec fn document_balances(doc: Option<Json>) -> Seq<DecimalView> {
    match doc {
        Some(root) => match root.member("holdings"@) {
            Some(value) => match value.items() {
                Some(holdings) => usable_balances(holdings),
                None => Seq::empty(),
            },
            None => Seq::empty(),
        },
        None => Seq::empty(),
    }
}

/// The sum of squares never exceeds the square of the sum.
pub proof fn lemma_squares_within_square(amounts: Seq<DecimalView>, scale: nat)
    ensures
        sum_squares(amounts, scale) <= total(amounts, scale) * total(amounts, scale),
    decreases amounts.len(),
{
    if amounts.len() > 0 {
        lemma_squares_within_square(amounts.drop_last(), scale);
        let t = total(amounts.drop_last(), scale);
        let q = sum_squares(amounts.drop_last(), scale);
        let u = units(amounts.last(), scale);
        assert(q + u * u <= (t + u) * (t + u)) by (nonlinear_arith)
            requires
                q <= t * t,
        ;
    } else {
        assert(0 * 0 == 0) by (nonlinear_arith);
    }
}

/// No amount has more digits behind the point than [`max_scale`] says.
pub proof fn lemma_max_scale_is_largest(amounts: Seq<DecimalView>, k: int)
    requires
        0 <= k < amounts.len(),
    ensures
        amounts[k].scale <= max_scale(amounts),
    decreases amounts.len(),
{
    if k < amounts.len() - 1 {
        lemma_max_scale_is_largest(amounts.drop_last(), k);
    }
}

/// The index lies between 0 and 10000, whatever the balances.
pub proof fn lemma_index_bounded(balances: Seq<DecimalView>)
    ensures
        concentration_index(balances) <= MAX_INDEX,
{
    let scale = max_scale(balances);
    let t = total(balances, scale);
    let q = sum_squares(balances, scale);
    if t > 0 {
        lemma_squares_within_square(balances, scale);
        assert(10000 * q / (t * t) <= 10000) by (nonlinear_arith)
            requires
                q <= t * t,
                t > 0,
        ;
    }
}

/// Rounding the index down moves no portfolio across a threshold: the index
/// is below a whole number exactly if the exact quotient is.
pub proof fn law_rounding_keeps_tier(balances: Seq<DecimalView>, threshold: nat)
    requires
        total(balances, max_scale(balances)) > 0,
    ensures
        ({
            let scale = max_scale(balances);
            let t = total(balances, scale);
            concentration_index(balances) < threshold <==> 10000 * sum_squares(balances, scale)
                < threshold * (t * t)
        }),
{
    let scale = max_scale(balances);
    let t = total(balances, scale);
    let n = 10000 * sum_squares(balances, scale);
    let d = t * t;
    assert(d > 0) by (nonlinear_arith)
        requires
            d == t * t,
            t > 0,
    ;
    assert((n / d < threshold) <==> (n < threshold * d)) by (nonlinear_arith)
        requires
            d > 0,
            n >= 0,
            threshold >= 0,
    ;
}

/// The index in trillionths holds the index: leaving the twelve decimals out
/// gives the index rounded down to a whole number.
pub proof fn lemma_trillionths_hold_index(balances: Seq<DecimalView>)
    ensures
        concentration_trillionths(balances) / 1_000_000_000_000 == concentration_index(balances),
        concentration_trillionths(balances) <= 10_000_000_000_000_000,
{
    let scale = max_scale(balances);
    let t = total(balances, scale) as int;
    let q = sum_squares(balances, scale) as int;
    if t > 0 {
        lemma_squares_within_square(balances, scale);
        let x = 10000 * q;
        let d = t * t;
        assert(d > 0 && 10_000_000_000_000_000 * q == 1_000_000_000_000 * x && x >= 0 && 1_000_000_000_000 * d == d
            * 1_000_000_000_000 && 10_000_000_000_000_000 * q / d <= 10_000_000_000_000_000) by (nonlinear_arith)
            requires
                d == t * t,
                t > 0,
                x == 10000 * q,
                0 <= q <= t * t,
        ;
        vstd::arithmetic::div_mod::lemma_div_denominator(1_000_000_000_000 * x, d, 1_000_000_000_000);
        vstd::arithmetic::div_mod::lemma_div_multiples_vanish_quotient(1_000_000_000_000, x, d);
    }
}

/// Every rating is a valid one: a score above 0 and of at most 100, and an
/// index of at most 10000.
pub proof fn law_rating_is_valid(balances: Seq<DecimalView>)
    ensures
        0 < risk_of(balances).score <= 100,
        risk_of(balances).concentration == concentration_index(balances),
        risk_of(balances).concentration <= MAX_INDEX,
{
    lemma_index_bounded(balances);
}

/// Where the balances add up to nothing, and so where there are none, the
/// rating is that of a single holding: the highest index and the highest
/// score.
pub proof fn law_nothing_to_rate(balances: Seq<DecimalView>)
    requires
        total(balances, max_scale(balances)) == 0,
    ensures
        concentration_index(balances) == MAX_INDEX,
        risk_of(balances).score == 82,
        risk_of(balances).concentration == MAX_INDEX,
        risk_of(balances).concentration_fraction == 0,
{
}

/// What equal amounts add up to.
proof fn lemma_equal_amounts(balances: Seq<DecimalView>, amount: DecimalView, scale: nat)
    requires
        forall|i: int| 0 <= i < balances.len() ==> #[trigger] balances[i] == amount,
    ensures
        balances.len() > 0 ==> max_scale(balances) == amount.scale,
        total(balances, scale) == balances.len() * units(amount, scale),
        sum_squares(balances, scale) == balances.len() * (units(amount, scale) * units(
            amount,
            scale,
        )),
    decreases balances.len(),
{
    let u = units(amount, scale);
    if balances.len() > 0 {
        let earlier = balances.drop_last();
        assert forall|i: int| 0 <= i < earlier.len() implies #[trigger] earlier[i] == amount by {
            assert(earlier[i] == balances[i]);
        }
        lemma_equal_amounts(earlier, amount, scale);
        assert(balances.last() == balances[balances.len() - 1]);
        if earlier.len() == 0 {
            assert(max_scale(earlier) == 0);
        }
        assert(max_scale(balances) == amount.scale);
        let n = earlier.len();
        assert(n * u + u == (n + 1) * u) by (nonlinear_arith);
        assert(n * (u * u) + u * u == (n + 1) * (u * u)) by (nonlinear_arith);
    } else {
        assert(0 * u == 0 && 0 * (u * u) == 0) by (nonlinear_arith);
    }
}

/// Equal holdings, however many and however large, give the index 10000
/// divided by their number: 5000 for two, 2500 for four.
pub proof fn law_equal_holdings(balances: Seq<DecimalView>, amount: DecimalView)
    requires
        balances.len() > 0,
        amount.mantissa > 0,
        forall|i: int| 0 <= i < balances.len() ==> #[trigger] balances[i] == amount,
    ensures
        concentration_index(balances) == 10000nat / balances.len(),
{
    let scale = amount.scale;
    lemma_equal_amounts(balances, amount, scale);
    let n = balances.len() as int;
    let u = units(amount, scale) as int;
    assert(u == amount.mantissa) by (nonlinear_arith)
        requires
            u == amount.mantissa * pow10(0),
            pow10(0) == 1,
    ;
    let c = n * (u * u);
    let t = total(balances, scale) as int;
    assert(c > 0 && t == n * u && t > 0 && t * t == c * n && 10000 * c == c * 10000)
        by (nonlinear_arith)
        requires
            c == n * (u * u),
            t == n * u,
            n > 0,
            u > 0,
    ;
    vstd::arithmetic::div_mod::lemma_div_multiples_vanish_quotient(c, 10000, n);
}

/// What amounts add up to in a finer unit.
proof fn lemma_finer_units(balances: Seq<DecimalView>, coarse: nat, fine: nat)
    requires
        coarse <= fine,
        forall|i: int| 0 <= i < balances.len() ==> (#[trigger] balances[i]).scale <= coarse,
    ensures
        total(balances, fine) == total(balances, coarse) * pow10((fine - coarse) as nat),
        sum_squares(balances, fine) == sum_squares(balances, coarse) * (pow10(
            (fine - coarse) as nat,
        ) * pow10((fine - coarse) as nat)),
    decreases balances.len(),
{
    let f = pow10((fine - coarse) as nat);
    if balances.len() > 0 {
        let earlier = balances.drop_last();
        let last = balances.last();
        assert forall|i: int| 0 <= i < earlier.len() implies (#[trigger] earlier[i]).scale
            <= coarse by {
            assert(earlier[i] == balances[i]);
        }
        lemma_finer_units(earlier, coarse, fine);
        assert(last == balances[balances.len() - 1]);
        crate::natural::lemma_pow10_add((coarse - last.scale) as nat, (fine - coarse) as nat);
        let m = last.mantissa;
        let g = pow10((coarse - last.scale) as nat);
        let t = total(earlier, coarse);
        let q = sum_squares(earlier, coarse);
        assert(units(last, fine) == m * (g * f));
        assert(t * f + m * (g * f) == (t + m * g) * f) by (nonlinear_arith);
        assert(q * (f * f) + (m * (g * f)) * (m * (g * f)) == (q + (m * g) * (m * g)) * (f * f))
            by (nonlinear_arith);
    } else {
        assert(0 * f == 0 && 0 * (f * f) == 0) by (nonlinear_arith);
    }
}

/// The index does not depend on the unit: counted in any unit that all the
/// balances are whole numbers of, they give the same index.
pub proof fn law_index_in_any_unit(balances: Seq<DecimalView>, scale: nat)
    requires
        scale >= max_scale(balances),
        total(balances, max_scale(balances)) > 0,
    ensures
        total(balances, scale) > 0,
        10000 * sum_squares(balances, scale) / (total(balances, scale) * total(balances, scale))
            == concentration_index(balances),
{
    let coarse = max_scale(balances);
    assert forall|i: int| 0 <= i < balances.len() implies (#[trigger] balances[i]).scale
        <= coarse by {
        lemma_max_scale_is_largest(balances, i);
    }
    lemma_finer_units(balances, coarse, scale);
    let f = pow10((scale - coarse) as nat) as int;
    lemma_pow10_positive((scale - coarse) as nat);
    let t = total(balances, coarse) as int;
    let q = sum_squares(balances, coarse) as int;
    let x = f * f;
    let finer_t = total(balances, scale) as int;
    let finer_q = sum_squares(balances, scale) as int;
    assert(x > 0 && finer_t > 0 && t * t > 0 && finer_t * finer_t == x * (t * t) && 10000
        * finer_q == x * (10000 * q)) by (nonlinear_arith)
        requires
            x == f * f,
            f > 0,
            t > 0,
            finer_t == t * f,
            finer_q == q * (f * f),
    ;
    vstd::arithmetic::div_mod::lemma_div_multiples_vanish_quotient(x, 10000 * q, t * t);
}

/// What amounts add up to when each is taken `factor` times.
proof fn lemma_scaled_amounts(
    balances: Seq<DecimalView>,
    scaled: Seq<DecimalView>,
    factor: nat,
    scale: nat,
)
    requires
        scaled.len() == balances.len(),
        forall|i: int|
            0 <= i < balances.len() ==> (#[trigger] scaled[i]).scale == balances[i].scale
                && scaled[i].mantissa == factor * balances[i].mantissa,
    ensures
        max_scale(scaled) == max_scale(balances),
        total(scaled, scale) == factor * total(balances, scale),
        sum_squares(scaled, scale) == (factor * factor) * sum_squares(balances, scale),
    decreases balances.len(),
{
    if balances.len() > 0 {
        let earlier = balances.drop_last();
        let scaled_earlier = scaled.drop_last();
        assert forall|i: int| 0 <= i < earlier.len() implies (#[trigger] scaled_earlier[i]).scale
            == earlier[i].scale && scaled_earlier[i].mantissa == factor * earlier[i].mantissa by {
            assert(scaled_earlier[i] == scaled[i]);
            assert(earlier[i] == balances[i]);
        }
        lemma_scaled_amounts(earlier, scaled_earlier, factor, scale);
        let last = balances.last();
        assert(scaled.last() == scaled[balances.len() - 1]);
        assert(last == balances[balances.len() - 1]);
        let m = last.mantissa;
        let p = pow10((scale - last.scale) as nat);
        let u = units(last, scale);
        let t = total(earlier, scale);
        let q = sum_squares(earlier, scale);
        assert(units(scaled.last(), scale) == (factor * m) * p);
        assert((factor * m) * p == factor * u && factor * t + factor * u == factor * (t + u) && (
        factor * factor) * q + (factor * u) * (factor * u) == (factor * factor) * (q + u * u))
            by (nonlinear_arith)
            requires
                u == m * p,
        ;
    } else {
        assert(factor * 0 == 0 && (factor * factor) * 0 == 0) by (nonlinear_arith);
    }
}

/// The rating does not depend on how large the balances are, only on how
/// they compare: taking every balance the same number of times changes
/// neither the index nor anything else of the rating.
pub proof fn law_rating_unchanged_by_scaling(
    balances: Seq<DecimalView>,
    scaled: Seq<DecimalView>,
    factor: nat,
)
    requires
        factor > 0,
        scaled.len() == balances.len(),
        forall|i: int|
            0 <= i < balances.len() ==> (#[trigger] scaled[i]).scale == balances[i].scale
                && scaled[i].mantissa == factor * balances[i].mantissa,
    ensures
        concentration_index(scaled) == concentration_index(balances),
        concentration_trillionths(scaled) == concentration_trillionths(balances),
        risk_of(scaled) == risk_of(balances),
{
    let scale = max_scale(balances);
    lemma_scaled_amounts(balances, scaled, factor, scale);
    let f = factor as int;
    let t = total(balances, scale) as int;
    let q = sum_squares(balances, scale) as int;
    let scaled_t = total(scaled, scale) as int;
    let scaled_q = sum_squares(scaled, scale) as int;
    let x = f * f;
    if t > 0 {
        assert(x > 0 && scaled_t > 0 && t * t > 0 && scaled_t * scaled_t == x * (t * t) && 10000
            * scaled_q == x * (10000 * q) && 10_000_000_000_000_000 * scaled_q == x * (
        10_000_000_000_000_000 * q)) by (nonlinear_arith)
            requires
                x == f * f,
                f > 0,
                t > 0,
                scaled_t == f * t,
                scaled_q == (f * f) * q,
        ;
        vstd::arithmetic::div_mod::lemma_div_multiples_vanish_quotient(x, 10000 * q, t * t);
        vstd::arithmetic::div_mod::lemma_div_multiples_vanish_quotient(
            x,
            10_000_000_000_000_000 * q,
            t * t,
        );
    } else {
        assert(scaled_t == 0) by (nonlinear_arith)
            requires
                scaled_t == f * t,
                t == 0,
        ;
    }
}

/// The whole part of a quotient is the one number whose multiples of the
/// divisor enclose the dividend.
proof fn lemma_quotient_found(n: nat, d: nat, k: nat)
    requires
        d > 0,
        k * d <= n < (k + 1) * d,
    ensures
        n / d == k,
{
    assert(n / d == k) by (nonlinear_arith)
        requires
            d > 0,
            k * d <= n < (k + 1) * d,
    ;
}

impl Tier {
    /// The tier of a concentration index.
    pub fn of_index(index: u64) -> (tier: Tier)
        ensures
            tier == tier_of(index as nat),
    {
        if index < 1500 {
            Tier::Diversified
        } else if index < 2500 {
            Tier::Moderate
        } else {
            Tier::Concentrated
        }
    }

    /// The risk score of the tier, out of 100.
    pub fn risk_score(&self) -> (score: u32)
        ensures
            score == self.score(),
            0 < score <= 100,
    {
        match self {
            Tier::Diversified => 30,
            Tier::Moderate => 55,
            Tier::Concentrated => 82,
        }
    }

    /// The tier's name.
    pub fn name(&self) -> (text: &'static str)
        ensures
            text@ == self.label(),
    {
        match self {
            Tier::Diversified => "Well diversified",
            Tier::Moderate => "Moderate concentration",
            Tier::Concentrated => "High concentration",
        }
    }

    /// The advice that goes with the tier.
    pub fn advice(&self) -> (text: &'static str)
        ensures
            text@ == self.recommendation(),
    {
        match self {
            Tier::Diversified => "Your portfolio shows healthy diversification. Maintain current allocation.",
            Tier::Moderate => "Consider rebalancing top holdings to reduce concentration risk.",
            Tier::Concentrated => "Urgent: Your portfolio is heavily concentrated. Diversify to reduce risk.",
        }
    }
}

/// The largest number of digits that any of the amounts has behind the point.
fn largest_scale(balances: &Vec<Decimal>) -> (scale: usize)
    ensures
        scale == max_scale(decimal_views(balances@)),
{
    let mut scale: usize = 0;
    let mut i: usize = 0;
    let ghost amounts = decimal_views(balances@);
    assert(amounts.take(0) =~= Seq::<DecimalView>::empty());
    while i < balances.len()
        invariant
            i <= balances@.len(),
            amounts == decimal_views(balances@),
            scale == max_scale(amounts.take(i as int)),
        decreases balances@.len() - i,
    {
        proof {
            assert(amounts.take(i + 1).drop_last() =~= amounts.take(i as int));
            assert(amounts.take(i + 1).last() == balances@[i as int]@);
        }
        if balances[i].scale > scale {
            scale = balances[i].scale;
        }
        i += 1;
    }
    assert(amounts.take(i as int) =~= amounts);
    scale
}

/// The concentration index of the holdings with these balances, in
/// trillionths.
pub fn concentration_in_trillionths(balances: &Vec<Decimal>) -> (trillionths: u64)
    ensures
        trillionths == concentration_trillionths(decimal_views(balances@)),
        trillionths <= MAX_INDEX * TRILLION,
{
    let ghost amounts = decimal_views(balances@);
    let scale = largest_scale(balances);
    let mut sum = Natural::zero();
    let mut squares = Natural::zero();
    let mut i: usize = 0;
    proof {
        lemma_trillionths_hold_index(amounts);
        assert(amounts.take(0) =~= Seq::<DecimalView>::empty());
    }
    while i < balances.len()
        invariant
            i <= balances@.len(),
            amounts == decimal_views(balances@),
            scale == max_scale(amounts),
            sum@ == total(amounts.take(i as int), scale as nat),
            squares@ == sum_squares(amounts.take(i as int), scale as nat),
        decreases balances@.len() - i,
    {
        proof {
            assert(amounts.take(i + 1).drop_last() =~= amounts.take(i as int));
            assert(amounts.take(i + 1).last() == balances@[i as int]@);
            lemma_max_scale_is_largest(amounts, i as int);
        }
        let amount = balances[i].mantissa.times_pow10(scale - balances[i].scale);
        sum = sum.plus(&amount);
        squares = squares.plus(&amount.times(&amount));
        i += 1;
    }
    proof {
        assert(amounts.take(i as int) =~= amounts);
        lemma_squares_within_square(amounts, scale as nat);
    }
    if sum.is_zero() {
        return MAX_INDEX * TRILLION;
    }
    let divisor = sum.times(&sum);
    let dividend = squares.times(&Natural::from_u64(MAX_INDEX * TRILLION));
    let ghost d = divisor@;
    let ghost n = dividend@;
    let ghost t = sum@;
    let ghost q = squares@;
    let mut low: u64 = 0;
    let mut high: u64 = MAX_INDEX * TRILLION + 1;
    proof {
        assert(d > 0 && n < 10_000_000_000_000_001 * d && 0 * d <= n && n == 10_000_000_000_000_000 * q)
            by (nonlinear_arith)
            requires
                d == t * t,
                t > 0,
                n == q * 10_000_000_000_000_000,
                q <= t * t,
        ;
    }
    while high - low > 1
        invariant
            low < high <= 10_000_000_000_000_001,
            d == divisor@,
            n == dividend@,
            d > 0,
            low * d <= n < high * d,
        decreases high - low,
    {
        let middle = low + (high - low) / 2;
        let multiple = divisor.times(&Natural::from_u64(middle));
        assert(d * middle == middle * d) by (nonlinear_arith);
        if multiple.at_most(&dividend) {
            low = middle;
        } else {
            high = middle;
        }
    }
    proof {
        lemma_quotient_found(n, d, low as nat);
    }
    low
}

/// The concentration index of the holdings with these balances, rounded down
/// to a whole number.
pub fn concentration(balances: &Vec<Decimal>) -> (index: u64)
    ensures
        index == concentration_index(decimal_views(balances@)),
        index <= MAX_INDEX,
{
    proof {
        lemma_trillionths_hold_index(decimal_views(balances@));
        lemma_index_bounded(decimal_views(balances@));
    }
    concentration_in_trillionths(balances) / TRILLION
}

/// The rating of the holdings with these balances.
pub fn score_balances(balances: &Vec<Decimal>) -> (risk: RiskScore)
    ensures
        risk@ == risk_of(decimal_views(balances@)),
{
    proof {
        lemma_trillionths_hold_index(decimal_views(balances@));
        lemma_index_bounded(decimal_views(balances@));
    }
    let trillionths = concentration_in_trillionths(balances);
    let index = trillionths / TRILLION;
    let tier = Tier::of_index(index);
    let mut diversification = String::from_str(tier.name());
    diversification.append(" (");
    append_decimal(&mut diversification, balances.len() as u64);
    diversification.append(" assets)");
    RiskScore {
        score: tier.risk_score(),
        concentration: index,
        concentration_fraction: trillionths % TRILLION,
        diversification,
        recommendation: String::from_str(tier.advice()),
    }
}

/// The balance of one holding, if it has a usable one.
pub fn balance_of_holding(holding: &Json) -> (balance: Option<Decimal>)
    ensures
        match balance {
            Some(amount) => holding_balance(*holding) == Some(amount@),
            None => holding_balance(*holding) is None,
        },
{
    match holding.get("balance") {
        Some(value) => match value.as_text() {
            Some(text) => Decimal::parse(text.as_str()),
            None => None,
        },
        None => None,
    }
}

/// The balances of those holdings that have one, in the holdings' order.
pub fn balances_of_holdings(holdings: &Vec<Json>) -> (balances: Vec<Decimal>)
    ensures
        decimal_views(balances@) == usable_balances(holdings@),
{
    let mut balances: Vec<Decimal> = Vec::new();
    let mut i: usize = 0;
    assert(decimal_views(balances@) =~= usable_balances(holdings@.take(0)));
    while i < holdings.len()
        invariant
            i <= holdings@.len(),
            decimal_views(balances@) =~= usable_balances(holdings@.take(i as int)),
        decreases holdings@.len() - i,
    {
        proof {
            assert(holdings@.take(i + 1).drop_last() =~= holdings@.take(i as int));
        }
        match balance_of_holding(&holdings[i]) {
            Some(balance) => {
                balances.push(balance);
            },
            None => {},
        }
        i += 1;
    }
    proof {
        assert(holdings@.take(i as int) =~= holdings@);
    }
    balances
}

/// The usable balances that a document lists under `holdings`.
pub fn balances_of_document(doc: &Option<Json>) -> (balances: Vec<Decimal>)
    ensures
        decimal_views(balances@) == document_balances(*doc),
{
    let listed = match doc {
        Some(root) => match root.get("holdings") {
            Some(value) => value.as_list(),
            None => None,
        },
        None => None,
    };
    match listed {
        Some(holdings) => balances_of_holdings(holdings),
        None => {
            let none: Vec<Decimal> = Vec::new();
            assert(decimal_views(none@) =~= Seq::<DecimalView>::empty());
            none
        },
    }
}

/// The rating of the portfolio that a document describes; `None` stands for
/// a description that could not be read.
pub fn score_document(doc: &Option<Json>) -> (risk: RiskScore)
    ensures
        risk@ == risk_of(document_balances(*doc)),
{
    let balances = balances_of_document(doc);
    score_balances(&balances)
}

/// The rating of the portfolio that a text describes. Every text has one:
/// what cannot be read is rated like a single holding.
pub fn score_portfolio(text: &str) -> (risk: RiskScore)
    ensures
        risk@ == risk_of(document_balances(json_document(text@))),
{
    let doc = parse_json(text);
    score_document(&doc)
}

} // verus!
