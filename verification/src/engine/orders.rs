use vstd::prelude::*;
use crate::engine::numeric::{
    divs, ints, moved, muls, randoms, relates, subs, Numbers, Relation,
};
use crate::engine::position::{is_long_side, long_side};
use crate::engine::series::equal;
use crate::models::config::InstrumentConfig;
use crate::models::strategy::{CommissionType, TradeDirection, TradingCosts};

verus! {

/// `out` is the slippage of one fill: the configured pips times the pip
/// size, and where slippage is random, that times a draw from zero to one.
pub open spec fn slippage_of<V, N: Numbers<V>>(numbers: &N, costs: &TradingCosts<V>, instrument: &InstrumentConfig<V>, out: V) -> bool {
    exists|full: V| #[trigger]
        muls(numbers, costs.slippage_pips, instrument.pip_size, full) && (if costs.slippage_random {
            exists|share: V| #[trigger] randoms(numbers, share) && muls(numbers, full, share, out)
        } else {
            out == full
        })
}

/// The slippage of one fill: the configured pips times the pip size, and
/// where slippage is random, a random share of that.
fn slippage<V: Copy, N: Numbers<V>>(numbers: &N, costs: &TradingCosts<V>, instrument: &InstrumentConfig<V>) -> (out: V)
    ensures
        slippage_of(numbers, costs, instrument, out),
{
    let full: V = numbers.mul(costs.slippage_pips, instrument.pip_size);
    assert(muls(numbers, costs.slippage_pips, instrument.pip_size, full));
    if costs.slippage_random {
        let share: V = numbers.random_unit();
        assert(randoms(numbers, share));
        numbers.mul(full, share)
    } else {
        full
    }
}

/// `out` is an entry price with its costs: the price moved by the spread
/// and then by the slippage, up for a long position and down for a short
/// one.
pub open spec fn entry_cost_of<V, N: Numbers<V>>(numbers: &N, price: V, direction: TradeDirection, costs: &TradingCosts<V>, instrument: &InstrumentConfig<V>, out: V) -> bool {
    exists|spread: V| #[trigger]
        muls(numbers, costs.spread_pips, instrument.pip_size, spread) && exists|slip: V| #[trigger]
            slippage_of(numbers, costs, instrument, slip) && exists|spreaded: V| #[trigger]
                moved(numbers, long_side(direction), price, spread, spreaded) && moved(numbers, long_side(direction), spreaded, slip, out)
}

/// Applies spread and slippage to an entry price: a long position buys
/// higher, a short one sells lower.
pub fn apply_entry_costs<V: Copy, N: Numbers<V>>(numbers: &N, price: V, direction: TradeDirection, costs: &TradingCosts<V>, instrument: &InstrumentConfig<V>) -> (out: V)
    ensures
        entry_cost_of(numbers, price, direction, costs, instrument, out),
{
    let spread: V = numbers.mul(costs.spread_pips, instrument.pip_size);
    let slip: V = slippage(numbers, costs, instrument);
    assert(muls(numbers, costs.spread_pips, instrument.pip_size, spread));
    if is_long_side(direction) {
        let spreaded: V = numbers.add(price, spread);
        assert(moved(numbers, long_side(direction), price, spread, spreaded));
        numbers.add(spreaded, slip)
    } else {
        let spreaded: V = numbers.sub(price, spread);
        assert(moved(numbers, long_side(direction), price, spread, spreaded));
        numbers.sub(spreaded, slip)
    }
}

/// `out` is an exit price with its costs: the price moved by the slippage,
/// down for a long position and up for a short one.
pub open spec fn exit_cost_of<V, N: Numbers<V>>(numbers: &N, price: V, direction: TradeDirection, costs: &TradingCosts<V>, instrument: &InstrumentConfig<V>, out: V) -> bool {
    exists|slip: V| #[trigger] slippage_of(numbers, costs, instrument, slip) && moved(numbers, !long_side(direction), price, slip, out)
}

/// Applies slippage to an exit price: a long position sells lower, a short
/// one buys back higher.
pub fn apply_exit_costs<V: Copy, N: Numbers<V>>(numbers: &N, price: V, direction: TradeDirection, costs: &TradingCosts<V>, instrument: &InstrumentConfig<V>) -> (out: V)
    ensures
        exit_cost_of(numbers, price, direction, costs, instrument, out),
{
    let slip: V = slippage(numbers, costs, instrument);
    if is_long_side(direction) {
        numbers.sub(price, slip)
    } else {
        numbers.add(price, slip)
    }
}

/// `out` is the move from entry to exit in the direction of the position,
/// over the pip size.
pub open spec fn move_in_pips<V, N: Numbers<V>>(numbers: &N, direction: TradeDirection, entry_price: V, exit_price: V, pip_size: V, out: V) -> bool {
    if long_side(direction) {
        exists|gain: V| #[trigger] subs(numbers, exit_price, entry_price, gain) && divs(numbers, gain, pip_size, out)
    } else {
        exists|gain: V| #[trigger] subs(numbers, entry_price, exit_price, gain) && divs(numbers, gain, pip_size, out)
    }
}

/// `out` is the profit or loss in pips: zero where the pip size compares as
/// equal to zero, else the move from entry to exit over the pip size.
pub open spec fn pnl_pips_of<V, N: Numbers<V>>(numbers: &N, direction: TradeDirection, entry_price: V, exit_price: V, instrument: &InstrumentConfig<V>, out: V) -> bool {
    exists|zero: V| #[trigger]
        ints(numbers, 0, zero) && exists|r: Relation| #[trigger]
            relates(numbers, instrument.pip_size, zero, r) && (if r == Relation::Equal {
                out == zero
            } else {
                move_in_pips(numbers, direction, entry_price, exit_price, instrument.pip_size, out)
            })
}

/// Profit or loss in pips: the move from entry to exit in the position's
/// direction over the pip size; zero where the pip size is zero.
pub fn calculate_pnl_pips<V: Copy, N: Numbers<V>>(numbers: &N, direction: TradeDirection, entry_price: V, exit_price: V, instrument: &InstrumentConfig<V>) -> (out: V)
    ensures
        pnl_pips_of(numbers, direction, entry_price, exit_price, instrument, out),
{
    let zero: V = numbers.from_int(0);
    assert(ints(numbers, 0, zero));
    if equal(numbers, instrument.pip_size, zero) {
        return zero;
    }
    if is_long_side(direction) {
        let gain: V = numbers.sub(exit_price, entry_price);
        assert(subs(numbers, exit_price, entry_price, gain));
        numbers.div(gain, instrument.pip_size)
    } else {
        let gain: V = numbers.sub(entry_price, exit_price);
        assert(subs(numbers, entry_price, exit_price, gain));
        numbers.div(gain, instrument.pip_size)
    }
}

/// `out` is the profit or loss in money: the pips times the value of a pip
/// times the lots.
pub open spec fn pnl_of<V, N: Numbers<V>>(numbers: &N, direction: TradeDirection, entry_price: V, exit_price: V, lots: V, instrument: &InstrumentConfig<V>, out: V) -> bool {
    exists|pips: V| #[trigger]
        pnl_pips_of(numbers, direction, entry_price, exit_price, instrument, pips) && exists|per_lot: V| #[trigger]
            muls(numbers, pips, instrument.pip_value, per_lot) && muls(numbers, per_lot, lots, out)
}

/// Profit or loss in money: the pips times the value of a pip times the
/// lots.
pub fn calculate_pnl<V: Copy, N: Numbers<V>>(numbers: &N, direction: TradeDirection, entry_price: V, exit_price: V, lots: V, instrument: &InstrumentConfig<V>) -> (out: V)
    ensures
        pnl_of(numbers, direction, entry_price, exit_price, lots, instrument, out),
{
    let pips: V = calculate_pnl_pips(numbers, direction, entry_price, exit_price, instrument);
    let per_lot: V = numbers.mul(pips, instrument.pip_value);
    assert(muls(numbers, pips, instrument.pip_value, per_lot));
    numbers.mul(per_lot, lots)
}

/// `out` is a percentage of the value of a position: price times lots
/// times the size of a lot, times the percentage, over a hundred.
pub open spec fn share_of_value<V, N: Numbers<V>>(numbers: &N, percentage: V, lots: V, entry_price: V, lot_size: V, out: V) -> bool {
    exists|units: V| #[trigger]
        muls(numbers, entry_price, lots, units) && exists|value: V| #[trigger]
            muls(numbers, units, lot_size, value) && exists|scaled: V| #[trigger]
                muls(numbers, value, percentage, scaled) && exists|hundred: V| #[trigger] ints(numbers, 100, hundred) && divs(numbers, scaled, hundred, out)
}

/// `out` is the commission of a trade: the fixed amount times the lots, or
/// the percentage of the position's value.
pub open spec fn commission_of<V, N: Numbers<V>>(numbers: &N, costs: &TradingCosts<V>, lots: V, entry_price: V, instrument: &InstrumentConfig<V>, out: V) -> bool {
    match costs.commission_type {
        CommissionType::FixedPerLot => muls(numbers, costs.commission_value, lots, out),
        CommissionType::Percentage => share_of_value(numbers, costs.commission_value, lots, entry_price, instrument.lot_size, out),
    }
}

/// Commission of a trade: a fixed amount per lot, or a percentage of the
/// position's value.
pub fn calculate_commission<V: Copy, N: Numbers<V>>(numbers: &N, costs: &TradingCosts<V>, lots: V, entry_price: V, instrument: &InstrumentConfig<V>) -> (out: V)
    ensures
        commission_of(numbers, costs, lots, entry_price, instrument, out),
{
    match costs.commission_type {
        CommissionType::FixedPerLot => numbers.mul(costs.commission_value, lots),
        CommissionType::Percentage => {
            let units: V = numbers.mul(entry_price, lots);
            let value: V = numbers.mul(units, instrument.lot_size);
            let scaled: V = numbers.mul(value, costs.commission_value);
            let hundred: V = numbers.from_int(100);
            assert(muls(numbers, entry_price, lots, units));
            assert(muls(numbers, units, instrument.lot_size, value));
            assert(muls(numbers, value, costs.commission_value, scaled));
            assert(ints(numbers, 100, hundred));
            numbers.div(scaled, hundred)
        },
    }
}

} // verus!
