//! Tick-aware prices and lot-aware quantities.

use crate::money::decimal::{self, Decimal, DecimalView, RoundingMode};
use vstd::arithmetic::power::pow;
use vstd::prelude::*;

verus! {

/// An instrument price.
#[derive(Debug, Clone, Copy, PartialEq, Eq, PartialOrd)]
pub struct Price(Decimal);

/// An order or position quantity.
#[derive(Debug, Clone, Copy, PartialEq, Eq, PartialOrd)]
pub struct Qty(Decimal);

impl View for Price {
    type V = DecimalView;

    closed spec fn view(&self) -> DecimalView {
        self.0@
    }
}

impl View for Qty {
    type V = DecimalView;

    closed spec fn view(&self) -> DecimalView {
        self.0@
    }
}

/// The whole number of ticks that a quotient is rounded to.
pub open spec fn nearest(quotient: DecimalView) -> DecimalView {
    decimal::rounded(quotient, 0, RoundingMode::BankersRounding)
}

/// `price` on the grid of `tick`, or nothing where a step has no room. A tick
/// that is not positive changes nothing.
pub open spec fn on_tick(
    price: DecimalView,
    tick: DecimalView,
    quotient: Option<DecimalView>,
) -> Option<DecimalView> {
    if tick.mantissa <= 0 {
        Some(price)
    } else {
        match quotient {
            Some(q) => decimal::decimal_product(nearest(q), tick),
            None => None,
        }
    }
}

/// `qty` in whole lots, or nothing where a step has no room. A lot that is not
/// positive changes nothing.
pub open spec fn in_lots(
    qty: DecimalView,
    lot: DecimalView,
    quotient: Option<DecimalView>,
) -> Option<DecimalView> {
    if lot.mantissa <= 0 {
        Some(qty)
    } else {
        match quotient {
            Some(q) => decimal::decimal_product(decimal::floored(q), lot),
            None => None,
        }
    }
}

/// `r` is a whole multiple of `step`: `count` steps, if they have room.
pub open spec fn is_multiple(r: DecimalView, step: DecimalView, count: int) -> bool {
    decimal::fits(count * step.mantissa) ==> r.at(step.scale) == count * step.mantissa && r.scale
        <= step.scale
}

impl Price {
    /// A price from an exact decimal.
    pub fn new(value: Decimal) -> (r: Price)
        ensures
            r@ == value@,
    {
        Price(value)
    }

    /// The exact decimal.
    pub fn value(self) -> (r: Decimal)
        ensures
            r@ == self@,
    {
        self.0
    }

    /// The nearest multiple of `tick`, a tie to the even multiple. A tick that
    /// is not positive changes nothing. The quotient and the multiple must have
    /// room: see [`Price::checked_round_to_tick`].
    pub fn round_to_tick(self, tick: Decimal) -> (r: Price)
        requires
            on_tick(self@, tick@, decimal::decimal_quotient(self@, tick@)) is Some,
        ensures
            Some(r@) == on_tick(self@, tick@, decimal::decimal_quotient(self@, tick@)),
            tick@.mantissa > 0 ==> is_multiple(
                r@,
                tick@,
                nearest(decimal::decimal_quotient(self@, tick@)->0).mantissa,
            ),
            decimal::is_quotient(self@, tick@, decimal::decimal_quotient(self@, tick@)),
    {
        let quotient: Option<Decimal> = decimal::checked_div(&self.0, &tick);
        match self.snap(tick, quotient) {
            Some(r) => r,
            None => self,
        }
    }

    /// [`Price::round_to_tick`], or nothing where the quotient or the multiple
    /// has no room.
    pub fn checked_round_to_tick(self, tick: Decimal) -> (r: Option<Price>)
        ensures
            r is Some <==> on_tick(self@, tick@, decimal::decimal_quotient(self@, tick@)) is Some,
            r matches Some(p) ==> {
                &&& Some(p@) == on_tick(self@, tick@, decimal::decimal_quotient(self@, tick@))
                &&& tick@.mantissa > 0 ==> is_multiple(
                    p@,
                    tick@,
                    nearest(decimal::decimal_quotient(self@, tick@)->0).mantissa,
                )
            },
            decimal::is_quotient(self@, tick@, decimal::decimal_quotient(self@, tick@)),
    {
        let quotient: Option<Decimal> = decimal::checked_div(&self.0, &tick);
        match self.snap(tick, quotient) {
            Some(_) => Some(self.round_to_tick(tick)),
            None => None,
        }
    }

    /// The price on the grid of `tick`, given the price in ticks.
    pub fn snap(self, tick: Decimal, quotient: Option<Decimal>) -> (r: Option<Price>)
        ensures
            r is Some <==> on_tick(self@, tick@, decimal::view_of(quotient)) is Some,
            r matches Some(p) ==> {
                &&& Some(p@) == on_tick(self@, tick@, decimal::view_of(quotient))
                &&& tick@.mantissa > 0 ==> is_multiple(
                    p@,
                    tick@,
                    nearest(decimal::view_of(quotient)->0).mantissa,
                )
            },
    {
        let step: i128 = tick.mantissa();
        if step <= 0 {
            return Some(self);
        }
        match quotient {
            Some(q) => {
                let ticks: Decimal = decimal::round_to(&q, 0, RoundingMode::BankersRounding);
                match decimal::checked_mul(&ticks, &tick) {
                    Some(d) => Some(Price(d)),
                    None => None,
                }
            },
            None => None,
        }
    }
}

impl Qty {
    /// A quantity from an exact decimal.
    pub fn new(value: Decimal) -> (r: Qty)
        ensures
            r@ == value@,
    {
        Qty(value)
    }

    /// The exact decimal.
    pub fn value(self) -> (r: Decimal)
        ensures
            r@ == self@,
    {
        self.0
    }

    /// The largest multiple of `lot` that is not above the quantity: no part of
    /// a lot is traded. A lot that is not positive changes nothing. The quotient
    /// and the multiple must have room: see [`Qty::checked_round_to_lot`].
    pub fn round_to_lot(self, lot: Decimal) -> (r: Qty)
        requires
            in_lots(self@, lot@, decimal::decimal_quotient(self@, lot@)) is Some,
        ensures
            Some(r@) == in_lots(self@, lot@, decimal::decimal_quotient(self@, lot@)),
            lot@.mantissa > 0 ==> is_multiple(
                r@,
                lot@,
                decimal::floored(decimal::decimal_quotient(self@, lot@)->0).mantissa,
            ),
            decimal::is_quotient(self@, lot@, decimal::decimal_quotient(self@, lot@)),
    {
        let quotient: Option<Decimal> = decimal::checked_div(&self.0, &lot);
        match self.snap(lot, quotient) {
            Some(r) => r,
            None => self,
        }
    }

    /// [`Qty::round_to_lot`], or nothing where the quotient or the multiple has
    /// no room.
    pub fn checked_round_to_lot(self, lot: Decimal) -> (r: Option<Qty>)
        ensures
            r is Some <==> in_lots(self@, lot@, decimal::decimal_quotient(self@, lot@)) is Some,
            r matches Some(q) ==> {
                &&& Some(q@) == in_lots(self@, lot@, decimal::decimal_quotient(self@, lot@))
                &&& lot@.mantissa > 0 ==> is_multiple(
                    q@,
                    lot@,
                    decimal::floored(decimal::decimal_quotient(self@, lot@)->0).mantissa,
                )
            },
            decimal::is_quotient(self@, lot@, decimal::decimal_quotient(self@, lot@)),
    {
        let quotient: Option<Decimal> = decimal::checked_div(&self.0, &lot);
        match self.snap(lot, quotient) {
            Some(_) => Some(self.round_to_lot(lot)),
            None => None,
        }
    }

    /// The quantity in whole lots, given the quantity in lots.
    pub fn snap(self, lot: Decimal, quotient: Option<Decimal>) -> (r: Option<Qty>)
        ensures
            r is Some <==> in_lots(self@, lot@, decimal::view_of(quotient)) is Some,
            r matches Some(q) ==> {
                &&& Some(q@) == in_lots(self@, lot@, decimal::view_of(quotient))
                &&& lot@.mantissa > 0 ==> is_multiple(
                    q@,
                    lot@,
                    decimal::floored(decimal::view_of(quotient)->0).mantissa,
                )
            },
    {
        let step: i128 = lot.mantissa();
        if step <= 0 {
            return Some(self);
        }
        match quotient {
            Some(q) => {
                let lots: Decimal = decimal::floor(&q);
                match decimal::checked_mul(&lots, &lot) {
                    Some(d) => Some(Qty(d)),
                    None => None,
                }
            },
            None => None,
        }
    }
}

// ---------------------------------------------------------------------------
// Laws
// ---------------------------------------------------------------------------
proof fn lemma_exact_steps(count: int, step: DecimalView, quotient: Option<DecimalView>)
    requires
        step.mantissa > 0,
        decimal::is_quotient(
            decimal::decimal_of(count * step.mantissa, step.scale),
            step,
            quotient,
        ),
    ensures
        quotient is Some,
        quotient->0.mantissa == count,
        count != 0 ==> quotient->0.scale == 0,
{
    let m = step.mantissa;
    vstd::arithmetic::div_mod::lemma_fundamental_div_mod_converse(count * m, m, count, 0);
    assert(count * m == 0 ==> count == 0) by (nonlinear_arith)
        requires
            m > 0,
    ;
}

/// A price that is on the grid of its tick already stays where it is.
pub proof fn grid_prices_are_kept(
    count: int,
    tick: DecimalView,
    quotient: Option<DecimalView>,
    r: DecimalView,
)
    requires
        tick.valid(),
        tick.mantissa > 0,
        decimal::fits(count * tick.mantissa),
        decimal::is_quotient(
            decimal::decimal_of(count * tick.mantissa, tick.scale),
            tick,
            quotient,
        ),
        quotient is Some ==> is_multiple(r, tick, nearest(quotient->0).mantissa),
    ensures
        r.units() == decimal::decimal_of(count * tick.mantissa, tick.scale).units(),
{
    lemma_exact_steps(count, tick, quotient);
    let q = quotient->0;
    let price = decimal::decimal_of(count * tick.mantissa, tick.scale);
    if count == 0 {
        let d = pow(10, q.scale) as nat;
        vstd::arithmetic::power::lemma_pow_positive(10, q.scale);
        vstd::arithmetic::div_mod::lemma_small_mod(0, d);
        vstd::arithmetic::div_mod::lemma_basic_div(0, d as int);
    }
    assert(nearest(q).mantissa == count);
    vstd::arithmetic::power::lemma_pow0(10);
    assert(price.at(tick.scale) == price.mantissa * 1);
    decimal::lemma_same_number(r, price, tick.scale);
}

/// A number of `count` steps, in the smallest unit.
proof fn lemma_steps(r: DecimalView, step: DecimalView, count: int)
    requires
        step.valid(),
        decimal::fits(count * step.mantissa),
        is_multiple(r, step, count),
    ensures
        r.units() == count * step.units(),
{
    decimal::lemma_more_places(r, step.scale, decimal::MAX_SCALE as nat);
    let p = pow(10, (decimal::MAX_SCALE - step.scale) as nat);
    let m = step.mantissa;
    assert((count * m) * p == count * (m * p)) by (nonlinear_arith);
}

/// What the number of steps and the quotient are apart, and the quotient and the
/// number divided, adds up.
proof fn lemma_apart(value: int, step: int, unit: int, q: int, n: int, e: int, far: int)
    requires
        -(far * step) <= (value * unit - q * step) * e <= far * step,
    ensures
        e * unit * (value - n * step) <= (far + e * (q - n * unit)) * step,
        e * unit * (value - n * step) >= (e * (q - n * unit) - far) * step,
{
    let a = value * unit - q * step;
    let b = q - n * unit;
    let w = unit * (value - n * step);
    assert(w == value * unit - (n * unit) * step) by (nonlinear_arith)
        requires
            w == unit * (value - n * step),
    ;
    assert(b * step == q * step - (n * unit) * step) by (nonlinear_arith)
        requires
            b == q - n * unit,
    ;
    assert(e * unit * (value - n * step) == e * w) by (nonlinear_arith)
        requires
            w == unit * (value - n * step),
    ;
    assert(e * (a + b * step) == a * e + e * b * step) by (nonlinear_arith);
    assert((far + e * (q - n * unit)) * step == far * step + e * (q - n * unit) * step)
        by (nonlinear_arith);
    assert((e * (q - n * unit) - far) * step == e * (q - n * unit) * step - far * step)
        by (nonlinear_arith);
}

/// The bound on what a quotient is off, without absolute values.
proof fn lemma_close(a: DecimalView, b: DecimalView, q: DecimalView)
    requires
        b.mantissa > 0,
        b.valid(),
        decimal::is_close(a, b, q),
    ensures
        b.units() > 0,
        ({
            let e = pow(10, decimal::QUOTIENT_DIGITS as nat);
            let far = precision(q);
            -(far * b.units()) <= (a.units() * pow(10, q.scale) - q.mantissa * b.units()) * e
                <= far * b.units()
        }),
{
    let p = pow(10, (decimal::MAX_SCALE - b.scale) as nat);
    let e = pow(10, decimal::QUOTIENT_DIGITS as nat);
    vstd::arithmetic::power::lemma_pow_positive(10, (decimal::MAX_SCALE - b.scale) as nat);
    vstd::arithmetic::power::lemma_pow_positive(10, decimal::QUOTIENT_DIGITS as nat);
    let m = b.mantissa;
    assert(m * p > 0) by (nonlinear_arith)
        requires
            m > 0,
            p > 0,
    ;
    let x = a.units() * pow(10, q.scale) - q.mantissa * b.units();
    assert((-x) * e == -(x * e)) by (nonlinear_arith);
    assert(x >= 0 ==> x * e >= 0) by (nonlinear_arith)
        requires
            e > 0,
    ;
    assert(x < 0 ==> (-x) * e >= 0) by (nonlinear_arith)
        requires
            e > 0,
    ;
}

/// By how much a quotient may be off, in parts of its last place and of
/// `10^QUOTIENT_DIGITS`.
pub open spec fn precision(q: DecimalView) -> int {
    decimal::larger(pow(10, q.scale), decimal::magnitude(q.mantissa) as int)
}

/// A price is moved to the nearest multiple of its tick: by at most half a tick,
/// up to the precision of the quotient, and by at most half a tick exactly where
/// the quotient is exact.
pub proof fn prices_move_to_the_nearest_tick(
    price: DecimalView,
    tick: DecimalView,
    q: DecimalView,
    r: DecimalView,
)
    requires
        tick.valid(),
        tick.mantissa > 0,
        decimal::is_quotient(price, tick, Some(q)),
        decimal::fits(nearest(q).mantissa * tick.mantissa),
        is_multiple(r, tick, nearest(q).mantissa),
    ensures
        ({
            let e = pow(10, decimal::QUOTIENT_DIGITS as nat);
            let unit = pow(10, q.scale);
            2 * (e * unit) * decimal::magnitude(price.units() - r.units()) <= (e * unit + 2
                * precision(q)) * tick.units()
        }),
        price.units() * pow(10, q.scale) == q.mantissa * tick.units() ==> 2 * decimal::magnitude(
            price.units() - r.units(),
        ) <= tick.units(),
{
    let e = pow(10, decimal::QUOTIENT_DIGITS as nat);
    let unit = pow(10, q.scale);
    let n = nearest(q).mantissa;
    let far = precision(q);
    let (v, t) = (price.units(), tick.units());
    vstd::arithmetic::power::lemma_pow_positive(10, decimal::QUOTIENT_DIGITS as nat);
    vstd::arithmetic::power::lemma_pow_positive(10, q.scale);
    lemma_steps(r, tick, n);
    lemma_close(price, tick, q);
    lemma_apart(v, t, unit, q.mantissa, n, e, far);
    lemma_nearest(q);
    let y = q.mantissa - n * unit;
    let z = v - n * t;
    assert(-unit <= 2 * y <= unit);
    assert(2 * (e * y) <= e * unit && 2 * (e * y) >= -(e * unit)) by (nonlinear_arith)
        requires
            -unit <= 2 * y <= unit,
            e > 0,
    ;
    assert(2 * ((far + e * y) * t) <= (e * unit + 2 * far) * t) by (nonlinear_arith)
        requires
            2 * (e * y) <= e * unit,
            t > 0,
    ;
    assert(2 * ((e * y - far) * t) >= -((e * unit + 2 * far) * t)) by (nonlinear_arith)
        requires
            2 * (e * y) >= -(e * unit),
            t > 0,
    ;
    assert(2 * (e * unit) * z == 2 * (e * unit * z)) by (nonlinear_arith);
    assert(2 * (e * unit) * (-z) == -(2 * (e * unit * z))) by (nonlinear_arith);
    if v * unit == q.mantissa * t {
        lemma_apart(v, t, unit, q.mantissa, n, 1, 0);
        assert(1 * unit * z == unit * z);
        assert((0 + 1 * y) * t == y * t && (1 * y - 0) * t == y * t);
        assert(2 * (unit * z) <= unit * t && 2 * (unit * z) >= -(unit * t)) by (nonlinear_arith)
            requires
                unit * z == y * t,
                -unit <= 2 * y <= unit,
                t > 0,
        ;
        assert(2 * z <= t && 2 * z >= -t) by (nonlinear_arith)
            requires
                2 * (unit * z) <= unit * t,
                2 * (unit * z) >= -(unit * t),
                unit > 0,
        ;
    }
}

/// What the nearest whole number is off a quotient.
proof fn lemma_nearest(q: DecimalView)
    ensures
        -pow(10, q.scale) <= 2 * (q.mantissa - nearest(q).mantissa * pow(10, q.scale)) <= pow(
            10,
            q.scale,
        ),
{
    vstd::arithmetic::power::lemma_pow_positive(10, q.scale);
    if q.scale > 0 {
        decimal::rounding_is_close(q, 0, RoundingMode::BankersRounding);
        assert((q.scale - 0) as nat == q.scale);
    } else {
        vstd::arithmetic::power::lemma_pow0(10);
        assert(nearest(q) == q);
        assert(q.mantissa * 1 == q.mantissa);
    }
}

/// A quantity goes down to whole lots: they do not exceed it, and less than one
/// lot is left over, both up to the precision of the quotient, and both exactly
/// where the quotient is exact.
pub proof fn whole_lots_do_not_exceed(
    qty: DecimalView,
    lot: DecimalView,
    q: DecimalView,
    r: DecimalView,
)
    requires
        lot.valid(),
        lot.mantissa > 0,
        decimal::is_quotient(qty, lot, Some(q)),
        decimal::fits(decimal::floored(q).mantissa * lot.mantissa),
        is_multiple(r, lot, decimal::floored(q).mantissa),
    ensures
        ({
            let e = pow(10, decimal::QUOTIENT_DIGITS as nat);
            let unit = pow(10, q.scale);
            &&& e * unit * (r.units() - qty.units()) <= precision(q) * lot.units()
            &&& e * unit * (qty.units() - r.units()) < (e * unit + precision(q)) * lot.units()
        }),
        qty.units() * pow(10, q.scale) == q.mantissa * lot.units() ==> r.units() <= qty.units()
            < r.units() + lot.units(),
{
    let e = pow(10, decimal::QUOTIENT_DIGITS as nat);
    let unit = pow(10, q.scale);
    let n = decimal::floored(q).mantissa;
    let far = precision(q);
    let (v, t) = (qty.units(), lot.units());
    vstd::arithmetic::power::lemma_pow_positive(10, decimal::QUOTIENT_DIGITS as nat);
    vstd::arithmetic::power::lemma_pow_positive(10, q.scale);
    lemma_steps(r, lot, n);
    lemma_close(qty, lot, q);
    lemma_apart(v, t, unit, q.mantissa, n, e, far);
    vstd::arithmetic::div_mod::lemma_fundamental_div_mod(q.mantissa, unit);
    vstd::arithmetic::div_mod::lemma_mod_bound(q.mantissa, unit);
    let y = q.mantissa - n * unit;
    let z = v - n * t;
    assert(n * unit == unit * n) by (nonlinear_arith);
    assert(0 <= y < unit);
    assert(0 <= e * y < e * unit) by (nonlinear_arith)
        requires
            0 <= y < unit,
            e > 0,
    ;
    assert((far + e * y) * t < (e * unit + far) * t) by (nonlinear_arith)
        requires
            e * y < e * unit,
            t > 0,
    ;
    assert((e * y - far) * t >= -(far * t)) by (nonlinear_arith)
        requires
            e * y >= 0,
            t > 0,
    ;
    assert(e * unit * (-z) == -(e * unit * z)) by (nonlinear_arith);
    if v * unit == q.mantissa * t {
        lemma_apart(v, t, unit, q.mantissa, n, 1, 0);
        assert(1 * unit * z == unit * z);
        assert((0 + 1 * y) * t == y * t && (1 * y - 0) * t == y * t);
        assert(0 <= z < t) by (nonlinear_arith)
            requires
                unit * z == y * t,
                0 <= y < unit,
                t > 0,
        ;
    }
}

/// A tick or a lot of zero or less changes nothing, whatever the quotient. With a
/// positive one the result is the product of a whole number and the step, and
/// there is none where the quotient or the product has no room.
pub proof fn only_positive_steps_count(
    v: DecimalView,
    step: DecimalView,
    quotient: Option<DecimalView>,
)
    ensures
        step.mantissa <= 0 ==> on_tick(v, step, quotient) == Some(v) && in_lots(v, step, quotient)
            == Some(v),
        step.mantissa > 0 && quotient is None ==> on_tick(v, step, quotient) is None && in_lots(
            v,
            step,
            quotient,
        ) is None,
        step.mantissa > 0 ==> (quotient matches Some(q) ==> {
            &&& on_tick(v, step, quotient) == decimal::decimal_product(nearest(q), step)
            &&& in_lots(v, step, quotient) == decimal::decimal_product(decimal::floored(q), step)
            &&& -pow(10, q.scale) <= 2 * (q.mantissa - nearest(q).mantissa * pow(10, q.scale))
                <= pow(10, q.scale)
            &&& decimal::floored(q).mantissa * pow(10, q.scale) <= q.mantissa < (decimal::floored(
                q,
            ).mantissa + 1) * pow(10, q.scale)
        }),
{
    if let Some(q) = quotient {
        lemma_nearest(q);
        decimal::floor_is_just_below(q);
    }
}

/// Half-way between two ticks a price goes to the even one.
pub proof fn prices_between_ticks_go_to_the_even_one(q: DecimalView)
    requires
        q.scale > 0,
        ({
            let off = q.mantissa - nearest(q).mantissa * pow(10, q.scale);
            2 * off == pow(10, q.scale) || 2 * off == -pow(10, q.scale)
        }),
    ensures
        nearest(q).mantissa % 2 == 0,
{
    decimal::ties_go_as_the_mode_says(q, 0, RoundingMode::BankersRounding);
    decimal::rounding_is_close(q, 0, RoundingMode::BankersRounding);
    assert((q.scale - 0) as nat == q.scale);
}

/// A number of whole steps is that number times the step, with no more places
/// than the step, wherever the product has room.
pub proof fn multiples_are_exact(r: DecimalView, step: DecimalView, count: int)
    requires
        step.valid(),
        is_multiple(r, step, count),
        decimal::fits(count * step.mantissa),
    ensures
        r.scale <= step.scale,
        r.mantissa * pow(10, (step.scale - r.scale) as nat) == count * step.mantissa,
        r.units() == count * step.units(),
{
    lemma_steps(r, step, count);
}

} // verus!
