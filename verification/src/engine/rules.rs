//! The rules of a market: board lots and the costs of a trade.
use crate::data::Market;
use crate::fixed;
use crate::fixed::{of_units, Fixed, SCALE};
use crate::num;
use crate::num::Scalar;
use vstd::prelude::*;

verus! {

// ---------------------------------------------------------------------------
// Board lots
// ---------------------------------------------------------------------------
/// The integer quotient, rounded towards zero.
pub open spec fn quotient_toward_zero(a: int, b: int) -> int {
    if a >= 0 {
        a / b
    } else {
        -((-a) / b)
    }
}

/// A number of shares rounded towards zero to whole lots; a lot of no shares rounds
/// nothing.
pub open spec fn in_lots(shares: int, lot: int) -> int {
    if lot <= 0 {
        shares
    } else {
        quotient_toward_zero(shares, lot) * lot
    }
}

/// Rounding to lots leaves a multiple of the lot, on the same side of zero, less than one
/// lot away.
pub proof fn whole_lots(shares: int, lot: int)
    requires
        lot > 0,
    ensures
        in_lots(shares, lot) % lot == 0,
        shares >= 0 ==> shares - lot < in_lots(shares, lot) <= shares && in_lots(shares, lot) >= 0,
        shares < 0 ==> shares <= in_lots(shares, lot) < shares + lot && in_lots(shares, lot) <= 0,
        in_lots(in_lots(shares, lot), lot) == in_lots(shares, lot),
{
    let q = quotient_toward_zero(shares, lot);
    let a = if shares >= 0 {
        shares
    } else {
        -shares
    };
    vstd::arithmetic::div_mod::lemma_fundamental_div_mod(a, lot);
    vstd::arithmetic::mul::lemma_mul_is_commutative(lot, a / lot);
    assert((-(a / lot)) * lot == -((a / lot) * lot)) by (nonlinear_arith);
    assert((a / lot) * lot >= 0) by (nonlinear_arith)
        requires
            a >= 0,
            lot > 0,
    ;
    vstd::arithmetic::div_mod::lemma_mod_multiples_basic(q, lot);
    let p = a / lot;
    vstd::arithmetic::div_mod::lemma_div_multiples_vanish(p, lot);
    vstd::arithmetic::mul::lemma_mul_is_commutative(lot, p);
}

/// A number of shares rounded towards zero to whole lots. A `lot` of 0 or less rounds
/// nothing.
pub fn floor_to_lot(shares: i64, lot: i64) -> (r: i64)
    ensures
        r == in_lots(shares as int, lot as int),
{
    if lot <= 0 {
        shares
    } else {
        proof {
            whole_lots(shares as int, lot as int);
        }
        (shares / lot) * lot
    }
}

// ---------------------------------------------------------------------------
// Costs
// ---------------------------------------------------------------------------
/// The costs of a trade in Hong Kong: official charges and what the broker takes. They are
/// due on both sides.
#[derive(Debug)]
pub struct HkFees<N: Scalar> {
    /// Stamp duty, rounded up to a whole dollar.
    pub stamp_rate: N,
    pub trading_fee_rate: N,
    pub sfc_rate: N,
    pub afrc_rate: N,
    pub settlement_rate: N,
    /// The least settlement fee; 0 for none.
    pub settlement_min: N,
    /// The largest settlement fee; 0 for none.
    pub settlement_max: N,
    pub commission_rate: N,
    pub commission_min: N,
    pub platform_fee: N,
}

impl<N: Scalar> Clone for HkFees<N> {
    fn clone(&self) -> (r: Self)
        ensures
            r == *self,
    {
        *self
    }
}

impl<N: Scalar> Copy for HkFees<N> {

}

/// The costs of a trade.
#[derive(Debug)]
pub enum FeeModel<N: Scalar> {
    /// The mainland: a rate for each side, and stamp duty on a sale.
    AShare { buy_rate: N, sell_rate: N, stamp_rate: N },
    /// Hong Kong.
    Hk(HkFees<N>),
}

impl<N: Scalar> Clone for FeeModel<N> {
    fn clone(&self) -> (r: Self)
        ensures
            r == *self,
    {
        *self
    }
}

impl<N: Scalar> Copy for FeeModel<N> {

}

/// The settlement fee, within its bounds.
pub open spec fn settlement<N: Scalar>(h: HkFees<N>, notional: N) -> N {
    let raw = notional.product(h.settlement_rate);
    let floored = if num::above_zero(h.settlement_min) {
        num::larger(raw, h.settlement_min)
    } else {
        raw
    };
    if num::above_zero(h.settlement_max) {
        num::smaller(floored, h.settlement_max)
    } else {
        floored
    }
}

/// What one side of a trade costs in Hong Kong.
pub open spec fn hk_cost<N: Scalar>(h: HkFees<N>, notional: N) -> N {
    let stamp = notional.product(h.stamp_rate).ceiling();
    let commission = num::larger(notional.product(h.commission_rate), h.commission_min).sum(
        h.platform_fee,
    );
    stamp.sum(notional.product(h.trading_fee_rate)).sum(notional.product(h.sfc_rate)).sum(
        notional.product(h.afrc_rate),
    ).sum(settlement(h, notional)).sum(commission)
}

/// The rates of Hong Kong added up, least charges left aside.
pub open spec fn hk_rate<N: Scalar>(h: HkFees<N>) -> N {
    h.stamp_rate.sum(h.trading_fee_rate).sum(h.sfc_rate).sum(h.afrc_rate).sum(
        h.settlement_rate,
    ).sum(h.commission_rate)
}

/// The official charges and a broker that takes nothing.
pub open spec fn retail_fees<N: Scalar>() -> HkFees<N> {
    HkFees {
        stamp_rate: num::fraction::<N>(1, 1_000),
        trading_fee_rate: num::fraction::<N>(565, 10_000_000),
        sfc_rate: num::fraction::<N>(27, 1_000_000),
        afrc_rate: num::fraction::<N>(15, 10_000_000),
        settlement_rate: num::fraction::<N>(42, 1_000_000),
        settlement_min: num::nil::<N>(),
        settlement_max: num::nil::<N>(),
        commission_rate: num::nil::<N>(),
        commission_min: num::nil::<N>(),
        platform_fee: num::nil::<N>(),
    }
}

/// 0.03% on each side and 0.1% stamp duty on a sale.
pub open spec fn mainland_fees<N: Scalar>() -> FeeModel<N> {
    FeeModel::AShare {
        buy_rate: num::fraction::<N>(3, 10_000),
        sell_rate: num::fraction::<N>(3, 10_000),
        stamp_rate: num::fraction::<N>(1, 1_000),
    }
}

/// What a purchase costs.
pub open spec fn cost_to_buy<N: Scalar>(f: FeeModel<N>, notional: N) -> N {
    match f {
        FeeModel::AShare { buy_rate, .. } => notional.product(buy_rate),
        FeeModel::Hk(h) => hk_cost(h, notional),
    }
}

/// What a sale costs.
pub open spec fn cost_to_sell<N: Scalar>(f: FeeModel<N>, notional: N) -> N {
    match f {
        FeeModel::AShare { sell_rate, stamp_rate, .. } => notional.product(
            sell_rate.sum(stamp_rate),
        ),
        FeeModel::Hk(h) => hk_cost(h, notional),
    }
}

/// The rate by which it is estimated how many shares can be bought.
pub open spec fn rate_to_buy<N: Scalar>(f: FeeModel<N>) -> N {
    match f {
        FeeModel::AShare { buy_rate, .. } => buy_rate,
        FeeModel::Hk(h) => hk_rate(h),
    }
}

/// The costs of a trade on a market.
pub open spec fn market_fees<N: Scalar>(m: Market) -> FeeModel<N> {
    if m == Market::HK {
        FeeModel::Hk(retail_fees::<N>())
    } else {
        mainland_fees::<N>()
    }
}

impl<N: Scalar> HkFees<N> {
    /// The official charges, with a broker that takes nothing: 0.1% stamp duty, 0.00565%
    /// trading fee, levies of 0.0027% and 0.00015%, and 0.0042% for settlement.
    pub fn retail() -> (r: HkFees<N>)
        ensures
            r == retail_fees::<N>(),
    {
        HkFees {
            stamp_rate: num::ratio::<N>(1, 1_000),
            trading_fee_rate: num::ratio::<N>(565, 10_000_000),
            sfc_rate: num::ratio::<N>(27, 1_000_000),
            afrc_rate: num::ratio::<N>(15, 10_000_000),
            settlement_rate: num::ratio::<N>(42, 1_000_000),
            settlement_min: num::zero::<N>(),
            settlement_max: num::zero::<N>(),
            commission_rate: num::zero::<N>(),
            commission_min: num::zero::<N>(),
            platform_fee: num::zero::<N>(),
        }
    }

    fn cost(&self, notional: N) -> (r: N)
        ensures
            r == hk_cost(*self, notional),
    {
        let stamp = notional.times(self.stamp_rate).ceil();
        let trading = notional.times(self.trading_fee_rate);
        let sfc = notional.times(self.sfc_rate);
        let afrc = notional.times(self.afrc_rate);
        let mut settlement = notional.times(self.settlement_rate);
        if num::positive(self.settlement_min) {
            settlement = num::max(settlement, self.settlement_min);
        }
        if num::positive(self.settlement_max) {
            settlement = num::min(settlement, self.settlement_max);
        }
        let commission = num::max(notional.times(self.commission_rate), self.commission_min).plus(
            self.platform_fee,
        );
        stamp.plus(trading).plus(sfc).plus(afrc).plus(settlement).plus(commission)
    }

    fn approx_rate(&self) -> (r: N)
        ensures
            r == hk_rate(*self),
    {
        self.stamp_rate.plus(self.trading_fee_rate).plus(self.sfc_rate).plus(self.afrc_rate).plus(
            self.settlement_rate,
        ).plus(self.commission_rate)
    }
}

impl<N: Scalar> FeeModel<N> {
    /// The mainland: 0.03% on each side and 0.1% stamp duty on a sale.
    pub fn a_share() -> (r: FeeModel<N>)
        ensures
            r == mainland_fees::<N>(),
    {
        FeeModel::AShare {
            buy_rate: num::ratio::<N>(3, 10_000),
            sell_rate: num::ratio::<N>(3, 10_000),
            stamp_rate: num::ratio::<N>(1, 1_000),
        }
    }

    /// Hong Kong, with a broker that takes nothing.
    pub fn hk() -> (r: FeeModel<N>)
        ensures
            r == FeeModel::Hk(retail_fees::<N>()),
    {
        FeeModel::Hk(HkFees::retail())
    }

    /// The costs on a market.
    pub fn for_market(m: Market) -> (r: FeeModel<N>)
        ensures
            r == market_fees::<N>(m),
    {
        match m {
            Market::HK => FeeModel::hk(),
            _ => FeeModel::a_share(),
        }
    }

    /// What a purchase of shares that are worth `notional` costs.
    pub fn buy_cost(&self, notional: N) -> (r: N)
        ensures
            r == cost_to_buy(*self, notional),
    {
        match self {
            FeeModel::AShare { buy_rate, .. } => notional.times(*buy_rate),
            FeeModel::Hk(h) => h.cost(notional),
        }
    }

    /// What a sale of shares that are worth `notional` costs.
    pub fn sell_cost(&self, notional: N) -> (r: N)
        ensures
            r == cost_to_sell(*self, notional),
    {
        match self {
            FeeModel::AShare { sell_rate, stamp_rate, .. } => notional.times(
                sell_rate.plus(*stamp_rate),
            ),
            FeeModel::Hk(h) => h.cost(notional),
        }
    }

    /// The rate by which it is estimated how many shares can be bought.
    pub fn buy_rate_approx(&self) -> (r: N)
        ensures
            r == rate_to_buy(*self),
    {
        match self {
            FeeModel::AShare { buy_rate, .. } => *buy_rate,
            FeeModel::Hk(h) => h.approx_rate(),
        }
    }
}

/// In Hong Kong a purchase and a sale of the same worth cost the same.
pub proof fn hk_costs_are_symmetric<N: Scalar>(h: HkFees<N>, notional: N)
    ensures
        cost_to_buy(FeeModel::Hk(h), notional) == cost_to_sell(FeeModel::Hk(h), notional),
{
}

/// A fraction in units, rounded down.
pub proof fn fraction_in_units(n: int, d: int, u: int)
    requires
        0 < d,
        Fixed::whole(n).defined,
        Fixed::whole(d).defined,
        fixed::is_ratio_of(u, n * SCALE, d),
    ensures
        num::fraction::<Fixed>(n, d) == of_units(u),
{
    fixed::share_is_ratio(Fixed::whole(n), d);
    fixed::one_ratio(u, num::fraction::<Fixed>(n, d).units as int, n * SCALE, d);
}

/// The usual rates, in units of a millionth: 0.03% on each side and 0.1% stamp duty on the
/// mainland; in Hong Kong 0.1% stamp duty, and rates of which what is below a millionth is
/// left out, with nothing for the broker. Only Hong Kong has its own.
pub proof fn usual_rates()
    ensures
        mainland_fees::<Fixed>() == (FeeModel::AShare {
            buy_rate: of_units(300),
            sell_rate: of_units(300),
            stamp_rate: of_units(1_000),
        }),
        retail_fees::<Fixed>() == (HkFees {
            stamp_rate: of_units(1_000),
            trading_fee_rate: of_units(56),
            sfc_rate: of_units(27),
            afrc_rate: of_units(1),
            settlement_rate: of_units(42),
            settlement_min: of_units(0),
            settlement_max: of_units(0),
            commission_rate: of_units(0),
            commission_min: of_units(0),
            platform_fee: of_units(0),
        }),
        forall|m: Market|
            m != Market::HK ==> #[trigger] market_fees::<Fixed>(m) == mainland_fees::<Fixed>(),
        market_fees::<Fixed>(Market::HK) == FeeModel::Hk(retail_fees::<Fixed>()),
{
    fraction_in_units(3, 10_000, 300);
    fraction_in_units(1, 1_000, 1_000);
    fraction_in_units(565, 10_000_000, 56);
    fraction_in_units(27, 1_000_000, 27);
    fraction_in_units(15, 10_000_000, 1);
    fraction_in_units(42, 1_000_000, 42);
}

/// The rate by which it is estimated how many shares can be bought is what a purchase is
/// charged: on the mainland its rate, in Hong Kong all rates together.
pub proof fn estimate_covers_the_rates(h: HkFees<Fixed>, buy: Fixed, sell: Fixed, stamp: Fixed)
    requires
        hk_rate(h).defined,
    ensures
        rate_to_buy(FeeModel::AShare { buy_rate: buy, sell_rate: sell, stamp_rate: stamp }) == buy,
        rate_to_buy(FeeModel::Hk(h)).units == h.stamp_rate.units + h.trading_fee_rate.units
            + h.sfc_rate.units + h.afrc_rate.units + h.settlement_rate.units
            + h.commission_rate.units,
{
}

} // verus!
