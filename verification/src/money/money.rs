//! Exact amounts in a currency.

use crate::money::currency::{self, Currency, CurrencyView};
use crate::money::decimal::{self, Decimal, DecimalView, RoundingMode};
use crate::money::error::{ErrorView, MoneyError};
use vstd::arithmetic::power::pow;
use vstd::prelude::*;

verus! {

/// An exact amount in a currency. Amounts come from decimals, from a count of
/// minor units, or from text: never from a binary fraction.
#[derive(Debug, Clone, PartialEq, Eq)]
pub struct Money {
    amount: Decimal,
    currency: Currency,
}

/// The model of [`Money`].
pub struct MoneyView {
    pub amount: DecimalView,
    pub currency: CurrencyView,
}

impl View for Money {
    type V = MoneyView;

    closed spec fn view(&self) -> MoneyView {
        MoneyView { amount: self.amount@, currency: self.currency@ }
    }
}

impl MoneyView {
    /// The amount in whole minor units, rounded to the nearest, a tie to the
    /// even neighbour.
    pub open spec fn minor_count(self) -> int {
        let places = self.currency.minor_units;
        decimal::rounded(self.amount, places, RoundingMode::BankersRounding).at(places)
    }
}

/// The view of what an operation on amounts gives.
pub open spec fn money_result(r: Result<Money, MoneyError>) -> Result<MoneyView, ErrorView> {
    match r {
        Ok(m) => Ok(m@),
        Err(e) => Err(e@),
    }
}

/// `amount` in `currency`, or an overflow where there is none.
pub open spec fn priced(currency: CurrencyView, amount: Option<DecimalView>) -> Result<
    MoneyView,
    ErrorView,
> {
    match amount {
        Some(d) => Ok(MoneyView { amount: d, currency }),
        None => Err(ErrorView::Overflow),
    }
}

/// What an operation on two amounts gives: a mismatch where the currencies
/// differ, else `amount`, the result on their decimals.
pub open spec fn combined(a: MoneyView, b: MoneyView, amount: Option<DecimalView>) -> Result<
    MoneyView,
    ErrorView,
> {
    if a.currency == b.currency {
        priced(a.currency, amount)
    } else {
        Err(
            ErrorView::CurrencyMismatch {
                lhs: currency::code_text(a.currency.code),
                rhs: currency::code_text(b.currency.code),
            },
        )
    }
}

/// What a text gives as an amount in `currency`, given what it spells.
pub open spec fn read_as(currency: CurrencyView, amount: Result<DecimalView, Seq<char>>) -> Result<
    MoneyView,
    ErrorView,
> {
    match amount {
        Ok(d) => Ok(MoneyView { amount: d, currency }),
        Err(e) => Err(ErrorView::BadAmount(e)),
    }
}

impl Money {
    /// An exact amount.
    pub fn new(amount: Decimal, currency: Currency) -> (r: Money)
        ensures
            r@ == (MoneyView { amount: amount@, currency: currency@ }),
    {
        Money { amount, currency }
    }

    /// An amount from a count of minor units, such as cents.
    pub fn from_minor(units: i128, currency: Currency) -> (r: Money)
        requires
            decimal::fits(units as int),
            currency@.minor_units <= decimal::MAX_SCALE,
        ensures
            r@.amount == decimal::decimal_of(units as int, currency@.minor_units),
            r@.currency == currency@,
    {
        let amount: Decimal = Decimal::from_i128_with_scale(units, currency.minor_units() as u32);
        Money { amount, currency }
    }

    /// The amount that a text spells, such as `10.25`.
    pub fn from_str_amount(s: &str, currency: Currency) -> (r: Result<Money, MoneyError>)
        ensures
            money_result(r) == read_as(currency@, decimal::decimal_parsed(s@)),
            forall|v: DecimalView|
                v.valid() && s@ == #[trigger] decimal::decimal_text(v) ==> r is Ok
                    && r->Ok_0@.amount == v,
    {
        Money::from_parsed(Decimal::parse(s), currency)
    }

    /// The amount in `currency` of a number that was read from a text.
    pub fn from_parsed(amount: Result<Decimal, String>, currency: Currency) -> (r: Result<
        Money,
        MoneyError,
    >)
        ensures
            money_result(r) == read_as(currency@, decimal::view_of_parsed(amount)),
    {
        match amount {
            Ok(amount) => Ok(Money { amount, currency }),
            Err(e) => Err(MoneyError::BadAmount(e)),
        }
    }

    /// The exact amount.
    pub fn amount(&self) -> (r: Decimal)
        ensures
            r@ == self@.amount,
    {
        self.amount
    }

    /// The currency.
    pub fn currency(&self) -> (r: Currency)
        ensures
            r@ == self@.currency,
    {
        self.currency
    }

    /// `amount` as the result of an operation on `self` and `other`, where both
    /// are in the same currency.
    pub fn combine(&self, other: &Money, amount: Option<Decimal>) -> (r: Result<Money, MoneyError>)
        ensures
            money_result(r) == combined(self@, other@, decimal::view_of(amount)),
    {
        if !self.currency.same(&other.currency) {
            return Err(
                MoneyError::CurrencyMismatch {
                    lhs: self.currency.code(),
                    rhs: other.currency.code(),
                },
            );
        }
        self.reprice(amount)
    }

    /// `amount` in the currency of `self`.
    pub fn reprice(&self, amount: Option<Decimal>) -> (r: Result<Money, MoneyError>)
        ensures
            money_result(r) == priced(self@.currency, decimal::view_of(amount)),
    {
        match amount {
            Some(amount) => Ok(Money { amount, currency: self.currency }),
            None => Err(MoneyError::Overflow),
        }
    }

    /// The sum of two amounts in the same currency.
    pub fn checked_add(&self, other: &Money) -> (r: Result<Money, MoneyError>)
        ensures
            money_result(r) == combined(
                self@,
                other@,
                decimal::decimal_sum(self@.amount, other@.amount),
            ),
            decimal::is_sum(
                self@.amount,
                other@.amount,
                decimal::decimal_sum(self@.amount, other@.amount),
            ),
    {
        self.combine(other, decimal::checked_add(&self.amount, &other.amount))
    }

    /// The difference of two amounts in the same currency.
    pub fn checked_sub(&self, other: &Money) -> (r: Result<Money, MoneyError>)
        ensures
            money_result(r) == combined(
                self@,
                other@,
                decimal::decimal_difference(self@.amount, other@.amount),
            ),
            decimal::is_difference(
                self@.amount,
                other@.amount,
                decimal::decimal_difference(self@.amount, other@.amount),
            ),
    {
        self.combine(other, decimal::checked_sub(&self.amount, &other.amount))
    }

    /// The amount times a number, such as a quantity or a rate.
    pub fn checked_mul_scalar(&self, scalar: Decimal) -> (r: Result<Money, MoneyError>)
        ensures
            money_result(r) == priced(
                self@.currency,
                decimal::decimal_product(self@.amount, scalar@),
            ),
            decimal::is_product(
                self@.amount,
                scalar@,
                decimal::decimal_product(self@.amount, scalar@),
            ),
    {
        self.reprice(decimal::checked_mul(&self.amount, &scalar))
    }

    /// The amount, rounded to the currency's minor units.
    pub fn round(&self, mode: RoundingMode) -> (r: Money)
        ensures
            r@.amount == decimal::rounded(self@.amount, self@.currency.minor_units, mode),
            r@.currency == self@.currency,
    {
        let places: u32 = self.currency.minor_units() as u32;
        Money { amount: decimal::round_to(&self.amount, places, mode), currency: self.currency }
    }

    /// The amount as a count of minor units.
    pub fn to_minor(&self) -> (r: i128)
        requires
            i128::MIN <= self@.minor_count() <= i128::MAX,
        ensures
            r == self@.minor_count(),
    {
        let places: u32 = self.currency.minor_units() as u32;
        let rounded: Decimal = decimal::round_to(
            &self.amount,
            places,
            RoundingMode::BankersRounding,
        );
        let mut count: i128 = rounded.mantissa();
        let mut at: u32 = rounded.scale();
        let ghost total = self@.minor_count();
        proof {
            assert(rounded@.at(places as nat) == total);
        }
        while at < places
            invariant
                at <= places,
                total == self@.minor_count(),
                i128::MIN <= total <= i128::MAX,
                count * pow(10, (places - at) as nat) == total,
            decreases places - at,
        {
            let ghost k = (places - at - 1) as nat;
            let ghost p = pow(10, k);
            proof {
                vstd::arithmetic::power::lemma_pow_positive(10, k);
                vstd::arithmetic::power::lemma_pow_adds(10, 1, k);
                vstd::arithmetic::power::lemma_pow1(10);
                assert(count * (10 * p) == (count * 10) * p) by (nonlinear_arith);
                let n = count * 10;
                assert(n >= 0 ==> n <= n * p) by (nonlinear_arith)
                    requires
                        p >= 1,
                ;
                assert(n < 0 ==> n * p <= n) by (nonlinear_arith)
                    requires
                        p >= 1,
                ;
            }
            count = count * 10;
            at = at + 1;
        }
        proof {
            vstd::arithmetic::power::lemma_pow0(10);
            assert(pow(10, (places - at) as nat) == 1);
            assert(count * 1 == total);
        }
        count
    }

    /// The amount and the currency code, such as `10.25 USD`.
    pub fn to_text(&self) -> (r: String)
        ensures
            r@ == decimal::decimal_text(self@.amount) + seq![' '] + currency::code_text(
                self@.currency.code,
            ),
    {
        let mut out: String = self.amount.to_text();
        out.push(' ');
        let code: String = self.currency.code();
        out.append(code.as_str());
        out
    }
}

// ---------------------------------------------------------------------------
// Laws
// ---------------------------------------------------------------------------
/// Counting minor units gives back the count that an amount was made from.
pub proof fn minor_round_trip(units: int, currency: CurrencyView)
    ensures
        (MoneyView {
            amount: decimal::decimal_of(units, currency.minor_units),
            currency,
        }).minor_count() == units,
{
    vstd::arithmetic::power::lemma_pow0(10);
}

/// What is written as text is read back unchanged: no digit is lost.
pub proof fn text_round_trip(
    m: MoneyView,
    s: Seq<char>,
    read: Result<DecimalView, Seq<char>>,
)
    requires
        m.amount.valid(),
        s == decimal::decimal_text(m.amount),
        decimal::reads_back(s, read),
    ensures
        read_as(m.currency, read) == Ok::<MoneyView, ErrorView>(m),
{
}

/// Addition is associative, without any rounding, as long as the operands and
/// the sums have room at `s` places.
pub proof fn addition_is_associative(
    a: DecimalView,
    b: DecimalView,
    c: DecimalView,
    ab: Option<DecimalView>,
    bc: Option<DecimalView>,
    left: Option<DecimalView>,
    right: Option<DecimalView>,
    s: nat,
)
    requires
        a.scale <= s <= decimal::MAX_SCALE,
        b.scale <= s,
        c.scale <= s,
        decimal::fits(a.at(s)),
        decimal::fits(b.at(s)),
        decimal::fits(c.at(s)),
        decimal::fits(a.at(s) + b.at(s)),
        decimal::fits(b.at(s) + c.at(s)),
        decimal::fits(a.at(s) + b.at(s) + c.at(s)),
        decimal::is_sum(a, b, ab),
        decimal::is_sum(b, c, bc),
        ab is Some ==> decimal::is_sum(ab->0, c, left),
        bc is Some ==> decimal::is_sum(a, bc->0, right),
    ensures
        left is Some,
        right is Some,
        left->0.units() == right->0.units(),
{
    decimal::sums_are_exact(a, b, ab, s);
    decimal::sums_are_exact(b, c, bc, s);
    decimal::sums_are_exact(ab->0, c, left, s);
    decimal::sums_are_exact(a, bc->0, right, s);
}

/// The sum of `units`.
pub open spec fn total(units: Seq<int>) -> int
    decreases units.len(),
{
    if units.len() == 0 {
        0
    } else {
        total(units.drop_last()) + units.last()
    }
}

/// `sums` starts from nothing and adds `units`, one after the other, each taken
/// at `places`.
pub open spec fn adds_up(units: Seq<int>, places: nat, sums: Seq<DecimalView>) -> bool
    decreases units.len(),
{
    if units.len() == 0 {
        sums == seq![decimal::decimal_of(0, places)]
    } else {
        &&& sums.len() == units.len() + 1
        &&& adds_up(units.drop_last(), places, sums.drop_last())
        &&& decimal::is_sum(
            sums[units.len() - 1],
            decimal::decimal_of(units.last(), places),
            Some(sums.last()),
        )
    }
}

/// Whether every term and every partial sum has room.
pub open spec fn all_fit(units: Seq<int>) -> bool
    decreases units.len(),
{
    units.len() > 0 ==> {
        &&& all_fit(units.drop_last())
        &&& decimal::fits(units.last())
        &&& decimal::fits(total(units))
    }
}

/// No penny is created or lost: adding amounts one after the other gives the
/// sum of their minor units.
pub proof fn no_penny_drift(units: Seq<int>, currency: CurrencyView, sums: Seq<DecimalView>)
    requires
        currency.minor_units <= decimal::MAX_SCALE,
        adds_up(units, currency.minor_units, sums),
        all_fit(units),
    ensures
        (MoneyView { amount: sums.last(), currency }).minor_count() == total(units),
        sums.last().scale <= currency.minor_units,
        sums.last().at(currency.minor_units) == total(units),
    decreases units.len(),
{
    let places = currency.minor_units;
    vstd::arithmetic::power::lemma_pow0(10);
    if units.len() > 0 {
        no_penny_drift(units.drop_last(), currency, sums.drop_last());
        let before = sums[units.len() - 1];
        assert(sums.drop_last().last() == before);
        let next = decimal::decimal_of(units.last(), places);
        lemma_prefix_fits(units.drop_last());
        decimal::sums_are_exact(before, next, Some(sums.last()), places);
    } else {
        assert(sums.last() == decimal::decimal_of(0, places));
    }
}

proof fn lemma_prefix_fits(units: Seq<int>)
    requires
        all_fit(units),
    ensures
        decimal::fits(total(units)),
{
}

proof fn lemma_total_of_same(n: nat, unit: int)
    ensures
        total(Seq::new(n, |i: int| unit)) == n * unit,
        unit >= 0 ==> 0 <= n * unit,
        unit < 0 ==> n * unit <= 0,
    decreases n,
{
    let s = Seq::new(n, |i: int| unit);
    if n > 0 {
        lemma_total_of_same((n - 1) as nat, unit);
        assert(s.drop_last() =~= Seq::new((n - 1) as nat, |i: int| unit));
        assert(n * unit == (n - 1) * unit + unit) by (nonlinear_arith);
    } else {
        assert(n * unit == 0) by (nonlinear_arith)
            requires
                n == 0,
        ;
    }
}

proof fn lemma_same_fit(n: nat, unit: int)
    requires
        decimal::fits(n * unit),
        decimal::fits(unit),
    ensures
        all_fit(Seq::new(n, |i: int| unit)),
    decreases n,
{
    let s = Seq::new(n, |i: int| unit);
    if n > 0 {
        lemma_total_of_same(n, unit);
        lemma_total_of_same((n - 1) as nat, unit);
        assert(s.drop_last() =~= Seq::new((n - 1) as nat, |i: int| unit));
        assert(n * unit == (n - 1) * unit + unit) by (nonlinear_arith);
        lemma_same_fit((n - 1) as nat, unit);
    }
}

/// Multiplying an amount by a whole number gives what adding it that many times
/// gives.
pub proof fn scalar_mul_matches_repeated_add(
    unit: int,
    n: nat,
    currency: CurrencyView,
    scaled: Option<DecimalView>,
    sums: Seq<DecimalView>,
)
    requires
        currency.minor_units <= decimal::MAX_SCALE,
        decimal::fits(unit),
        decimal::fits(n * unit),
        decimal::is_product(
            decimal::decimal_of(unit, currency.minor_units),
            decimal::decimal_of(n as int, 0),
            scaled,
        ),
        adds_up(Seq::new(n, |i: int| unit), currency.minor_units, sums),
    ensures
        scaled is Some,
        scaled->0.units() == sums.last().units(),
{
    let places = currency.minor_units;
    lemma_same_fit(n, unit);
    lemma_total_of_same(n, unit);
    no_penny_drift(Seq::new(n, |i: int| unit), currency, sums);
    assert(unit * (n as int) == n * unit) by (nonlinear_arith);
    decimal::lemma_same_number(scaled->0, sums.last(), places);
}

/// Amounts combine exactly where their currencies are the same, in code and in
/// minor units: the result is in that currency, or an overflow where it has no
/// room. Otherwise the mismatch names the code of each operand in its place,
/// whatever the amounts are.
pub proof fn currencies_do_not_mix(a: MoneyView, b: MoneyView, amount: Option<DecimalView>)
    ensures
        combined(a, b, amount) is Ok <==> a.currency.code == b.currency.code
            && a.currency.minor_units == b.currency.minor_units && amount is Some,
        combined(a, b, amount) matches Ok(m) ==> m.currency == a.currency && amount == Some(
            m.amount,
        ),
        a.currency != b.currency ==> combined(a, b, amount) == Err::<MoneyView, ErrorView>(
            ErrorView::CurrencyMismatch {
                lhs: currency::code_text(a.currency.code),
                rhs: currency::code_text(b.currency.code),
            },
        ),
        a.currency == b.currency && amount is None ==> combined(a, b, amount) == Err::<
            MoneyView,
            ErrorView,
        >(ErrorView::Overflow),
        priced(a.currency, amount) is Ok <==> amount is Some,
        priced(a.currency, amount) matches Ok(m) ==> m.currency == a.currency && amount == Some(
            m.amount,
        ),
        amount is None ==> priced(a.currency, amount) == Err::<MoneyView, ErrorView>(
            ErrorView::Overflow,
        ),
{
}

/// A text that spells a number is that amount in the currency; any other is
/// refused with what is wrong with it.
pub proof fn texts_are_read_or_refused(c: CurrencyView, read: Result<DecimalView, Seq<char>>)
    ensures
        read matches Ok(d) ==> read_as(c, read) == Ok::<MoneyView, ErrorView>(
            MoneyView { amount: d, currency: c },
        ),
        read matches Err(e) ==> read_as(c, read) == Err::<MoneyView, ErrorView>(
            ErrorView::BadAmount(e),
        ),
{
}

/// The count of minor units is the amount in minor units where it is whole, and
/// otherwise the nearest whole number to it, the even one of two that are equally
/// near.
pub proof fn minor_units_are_the_nearest(m: MoneyView)
    ensures
        m.amount.scale <= m.currency.minor_units ==> m.minor_count() == m.amount.mantissa * pow(
            10,
            (m.currency.minor_units - m.amount.scale) as nat,
        ),
        m.amount.scale > m.currency.minor_units ==> {
            let unit = pow(10, (m.amount.scale - m.currency.minor_units) as nat);
            let off = m.minor_count() * unit - m.amount.mantissa;
            &&& -unit <= 2 * off <= unit
            &&& 2 * off == unit || 2 * off == -unit ==> m.minor_count() % 2 == 0
        },
{
    let places = m.currency.minor_units;
    if m.amount.scale > places {
        decimal::rounding_is_close(m.amount, places, RoundingMode::BankersRounding);
        decimal::ties_go_as_the_mode_says(m.amount, places, RoundingMode::BankersRounding);
        vstd::arithmetic::power::lemma_pow0(10);
        let r = decimal::rounded(m.amount, places, RoundingMode::BankersRounding);
        assert(r.at(places) == r.mantissa * 1);
    }
}

} // verus!
