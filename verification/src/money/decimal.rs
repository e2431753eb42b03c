//! Exact decimals: a mantissa of at most 96 bits and a count of decimal places.
//! The arithmetic is that of `rust_decimal`, which rounds only where an exact
//! result has no room.

use crate::calendar;
use crate::text;
use std::cmp::Ordering;
use std::str::FromStr;
use vstd::arithmetic::power::pow;
use vstd::prelude::*;

verus! {

/// The most decimal places that a decimal can have.
pub const MAX_SCALE: u32 = 28;

/// The largest mantissa: 96 bits, all set.
pub const MAX_MANTISSA: i128 = 79_228_162_514_264_337_593_543_950_335;

/// How a decimal is rounded to fewer places.
#[derive(Debug, Clone, Copy, PartialEq, Eq, Structural)]
#[non_exhaustive]
pub enum RoundingMode {
    /// To the nearest, a tie to the even neighbour.
    BankersRounding,
    /// To the nearest, a tie away from zero.
    HalfUp,
    /// To the nearest, a tie toward zero.
    HalfDown,
    /// Toward negative infinity.
    Floor,
    /// Toward positive infinity.
    Ceil,
}

// ---------------------------------------------------------------------------
// Model
// ---------------------------------------------------------------------------
/// The number `mantissa / 10^scale`.
pub struct DecimalView {
    pub mantissa: int,
    pub scale: nat,
}

/// Whether a mantissa has room in 96 bits.
pub open spec fn fits(m: int) -> bool {
    -MAX_MANTISSA <= m <= MAX_MANTISSA
}

impl DecimalView {
    /// Whether a decimal can hold this number as it stands.
    pub open spec fn valid(self) -> bool {
        fits(self.mantissa) && self.scale <= MAX_SCALE
    }

    /// The mantissa of the same number with `scale` places.
    pub open spec fn at(self, scale: nat) -> int {
        self.mantissa * pow(10, (scale - self.scale) as nat)
    }

    /// The number, counted in the smallest unit of any decimal.
    pub open spec fn units(self) -> int {
        self.at(MAX_SCALE as nat)
    }
}

/// The number of `units` parts of `10^-scale`.
pub open spec fn decimal_of(units: int, scale: nat) -> DecimalView {
    DecimalView { mantissa: units, scale }
}

/// The view of an optional decimal.
pub open spec fn view_of(o: Option<Decimal>) -> Option<DecimalView> {
    match o {
        Some(d) => Some(d@),
        None => None,
    }
}

/// The places that both numbers can be written with.
pub open spec fn common_scale(a: DecimalView, b: DecimalView) -> nat {
    if a.scale >= b.scale {
        a.scale
    } else {
        b.scale
    }
}

/// Whether both numbers have room when written with the same places.
pub open spec fn aligned(a: DecimalView, b: DecimalView) -> bool {
    fits(a.at(common_scale(a, b))) && fits(b.at(common_scale(a, b)))
}

/// `r` is `a + b` exactly wherever nothing outgrows 96 bits.
pub open spec fn is_sum(a: DecimalView, b: DecimalView, r: Option<DecimalView>) -> bool {
    aligned(a, b) && fits(a.at(common_scale(a, b)) + b.at(common_scale(a, b))) ==> {
        &&& r is Some
        &&& r->0.units() == a.units() + b.units()
        &&& r->0.scale <= common_scale(a, b)
    }
}

/// `r` is `a - b` exactly wherever nothing outgrows 96 bits.
pub open spec fn is_difference(a: DecimalView, b: DecimalView, r: Option<DecimalView>) -> bool {
    aligned(a, b) && fits(a.at(common_scale(a, b)) - b.at(common_scale(a, b))) ==> {
        &&& r is Some
        &&& r->0.units() == a.units() - b.units()
        &&& r->0.scale <= common_scale(a, b)
    }
}

/// `r` is `a * b` exactly wherever the product of the mantissas and the sum of
/// the places have room.
pub open spec fn is_product(a: DecimalView, b: DecimalView, r: Option<DecimalView>) -> bool {
    fits(a.mantissa * b.mantissa) && a.scale + b.scale <= MAX_SCALE ==> {
        &&& r is Some
        &&& r->0.at(a.scale + b.scale) == a.mantissa * b.mantissa
        &&& r->0.scale <= a.scale + b.scale
    }
}

/// The larger of two integers.
pub open spec fn larger(a: int, b: int) -> int {
    if a >= b {
        a
    } else {
        b
    }
}

/// How many digits of a quotient can be relied on.
pub const QUOTIENT_DIGITS: u32 = 27;

/// `q` is off `a / b` by at most one part in `10^QUOTIENT_DIGITS` of itself, or
/// of one where it is smaller than one.
pub open spec fn is_close(a: DecimalView, b: DecimalView, q: DecimalView) -> bool {
    magnitude(a.units() * pow(10, q.scale) - q.mantissa * b.units()) * pow(
        10,
        QUOTIENT_DIGITS as nat,
    ) <= larger(pow(10, q.scale), magnitude(q.mantissa) as int) * magnitude(b.units())
}

/// `r` is `a / b`, close by, and exactly wherever the mantissas divide without
/// remainder and the dividend has at least the divisor's places. Nothing is
/// divided by zero.
pub open spec fn is_quotient(a: DecimalView, b: DecimalView, r: Option<DecimalView>) -> bool {
    &&& b.mantissa == 0 ==> r is None
    &&& r matches Some(q) ==> is_close(a, b, q)
    &&& b.mantissa != 0 && a.scale >= b.scale && a.mantissa % b.mantissa == 0 ==> {
        &&& r is Some
        &&& r->0.mantissa == a.mantissa / b.mantissa
        &&& a.mantissa != 0 ==> r->0.scale == a.scale - b.scale
    }
}

/// What `rust_decimal` makes of `a + b`.
pub uninterp spec fn decimal_sum(a: DecimalView, b: DecimalView) -> Option<DecimalView>;

/// What `rust_decimal` makes of `a - b`.
pub uninterp spec fn decimal_difference(a: DecimalView, b: DecimalView) -> Option<DecimalView>;

/// What `rust_decimal` makes of `a * b`.
pub uninterp spec fn decimal_product(a: DecimalView, b: DecimalView) -> Option<DecimalView>;

/// What `rust_decimal` makes of `a / b`.
pub uninterp spec fn decimal_quotient(a: DecimalView, b: DecimalView) -> Option<DecimalView>;

/// What `rust_decimal` reads from a text: a number, or what is wrong with it.
pub uninterp spec fn decimal_parsed(s: Seq<char>) -> Result<DecimalView, Seq<char>>;

/// The absolute value of `n`.
pub open spec fn magnitude(n: int) -> nat {
    if n < 0 {
        (-n) as nat
    } else {
        n as nat
    }
}

/// Whether a magnitude of `quotient` whole parts and a rest of
/// `remainder / divisor` is rounded away from zero.
pub open spec fn rounds_away(
    mode: RoundingMode,
    negative: bool,
    quotient: nat,
    remainder: nat,
    divisor: nat,
) -> bool {
    match mode {
        RoundingMode::BankersRounding => 2 * remainder > divisor || (2 * remainder == divisor
            && quotient % 2 == 1),
        RoundingMode::HalfUp => 2 * remainder >= divisor,
        RoundingMode::HalfDown => 2 * remainder > divisor,
        RoundingMode::Floor => negative && remainder > 0,
        RoundingMode::Ceil => !negative && remainder > 0,
    }
}

/// `v` rounded to `places`. A number with no more places stays as it is.
pub open spec fn rounded(v: DecimalView, places: nat, mode: RoundingMode) -> DecimalView {
    if v.scale <= places {
        v
    } else {
        let divisor = pow(10, (v.scale - places) as nat) as nat;
        let quotient = magnitude(v.mantissa) / divisor;
        let remainder = magnitude(v.mantissa) % divisor;
        let n: int = if rounds_away(mode, v.mantissa < 0, quotient, remainder, divisor) {
            (quotient + 1) as int
        } else {
            quotient as int
        };
        DecimalView {
            mantissa: if v.mantissa < 0 {
                -n
            } else {
                n
            },
            scale: places,
        }
    }
}

/// The largest whole number that is not above `v`.
pub open spec fn floored(v: DecimalView) -> DecimalView {
    DecimalView { mantissa: v.mantissa / pow(10, v.scale), scale: 0 }
}

/// `v` written out: a sign where it is negative, the whole part, and as many
/// digits behind the point as `v` has places.
pub open spec fn decimal_text(v: DecimalView) -> Seq<char> {
    let sign = if v.mantissa < 0 {
        seq!['-']
    } else {
        Seq::<char>::empty()
    };
    let unit = pow(10, v.scale) as nat;
    let whole = text::decimal(magnitude(v.mantissa) / unit);
    if v.scale == 0 {
        sign + whole
    } else {
        sign + whole + seq!['.'] + calendar::padded(magnitude(v.mantissa) % unit, v.scale)
    }
}

/// The view of what was read from a text.
pub open spec fn view_of_parsed(r: Result<Decimal, String>) -> Result<DecimalView, Seq<char>> {
    match r {
        Ok(d) => Ok(d@),
        Err(e) => Err(e@),
    }
}

/// `r` is the number that `s` is the writing of, if there is one.
pub open spec fn reads_back(s: Seq<char>, r: Result<DecimalView, Seq<char>>) -> bool {
    forall|v: DecimalView|
        v.valid() && s == #[trigger] decimal_text(v) ==> r == Ok::<DecimalView, Seq<char>>(v)
}

// ---------------------------------------------------------------------------
// The type
// ---------------------------------------------------------------------------
/// An exact decimal number.
#[derive(Debug, Clone, Copy)]
pub struct Decimal {
    mantissa: i128,
    scale: u32,
}

impl View for Decimal {
    type V = DecimalView;

    closed spec fn view(&self) -> DecimalView {
        DecimalView { mantissa: self.mantissa as int, scale: self.scale as nat }
    }
}

impl Decimal {
    #[verifier::type_invariant]
    spec fn has_room(self) -> bool {
        fits(self.mantissa as int) && self.scale <= MAX_SCALE
    }

    /// Zero, without decimal places.
    pub fn zero() -> (r: Decimal)
        ensures
            r@ == decimal_of(0, 0),
    {
        Decimal { mantissa: 0, scale: 0 }
    }

    /// The number `num / 10^scale`.
    pub fn new(num: i64, scale: u32) -> (r: Decimal)
        requires
            scale <= MAX_SCALE,
        ensures
            r@ == decimal_of(num as int, scale as nat),
    {
        Decimal { mantissa: num as i128, scale }
    }

    /// The number `num / 10^scale`.
    pub fn from_i128_with_scale(num: i128, scale: u32) -> (r: Decimal)
        requires
            fits(num as int),
            scale <= MAX_SCALE,
        ensures
            r@ == decimal_of(num as int, scale as nat),
    {
        Decimal { mantissa: num, scale }
    }

    /// The mantissa, with its sign.
    pub fn mantissa(&self) -> (r: i128)
        ensures
            r == self@.mantissa,
            self@.valid(),
    {
        proof {
            use_type_invariant(self);
        }
        self.mantissa
    }

    /// The number of decimal places.
    pub fn scale(&self) -> (r: u32)
        ensures
            r == self@.scale,
            self@.valid(),
    {
        proof {
            use_type_invariant(self);
        }
        self.scale
    }

    /// The number that `s` spells, or what is wrong with it.
    pub fn parse(s: &str) -> (r: Result<Decimal, String>)
        ensures
            view_of_parsed(r) == decimal_parsed(s@),
            reads_back(s@, view_of_parsed(r)),
    {
        parsed(s)
    }

    /// The number, written out.
    pub fn to_text(&self) -> (r: String)
        ensures
            r@ == decimal_text(self@),
    {
        rendered(self)
    }
}

// ---------------------------------------------------------------------------
// rust_decimal
// ---------------------------------------------------------------------------
/// `rust_decimal::Decimal::checked_add`: the sum, or nothing where it
/// overflows. It is exact where the operands, written with the same places, and
/// their sum have room in 96 bits.
#[verifier::external_body]
pub(crate) fn checked_add(a: &Decimal, b: &Decimal) -> (r: Option<Decimal>)
    ensures
        view_of(r) == decimal_sum(a@, b@),
        is_sum(a@, b@, view_of(r)),
{
    rust_decimal::Decimal::from_i128_with_scale(a.mantissa, a.scale)
        .checked_add(rust_decimal::Decimal::from_i128_with_scale(b.mantissa, b.scale))
        .map(|d| Decimal { mantissa: d.mantissa(), scale: d.scale() })
}

/// `rust_decimal::Decimal::checked_sub`: the difference, or nothing where it
/// overflows. It is exact where the operands, written with the same places, and
/// their difference have room in 96 bits.
#[verifier::external_body]
pub(crate) fn checked_sub(a: &Decimal, b: &Decimal) -> (r: Option<Decimal>)
    ensures
        view_of(r) == decimal_difference(a@, b@),
        is_difference(a@, b@, view_of(r)),
{
    rust_decimal::Decimal::from_i128_with_scale(a.mantissa, a.scale)
        .checked_sub(rust_decimal::Decimal::from_i128_with_scale(b.mantissa, b.scale))
        .map(|d| Decimal { mantissa: d.mantissa(), scale: d.scale() })
}

/// `rust_decimal::Decimal::checked_mul`: the product, or nothing where it
/// overflows. It is exact where the product of the mantissas and the sum of the
/// places have room.
#[verifier::external_body]
pub(crate) fn checked_mul(a: &Decimal, b: &Decimal) -> (r: Option<Decimal>)
    ensures
        view_of(r) == decimal_product(a@, b@),
        is_product(a@, b@, view_of(r)),
{
    rust_decimal::Decimal::from_i128_with_scale(a.mantissa, a.scale)
        .checked_mul(rust_decimal::Decimal::from_i128_with_scale(b.mantissa, b.scale))
        .map(|d| Decimal { mantissa: d.mantissa(), scale: d.scale() })
}

/// `rust_decimal::Decimal::checked_div`: the quotient, or nothing where it
/// overflows or the divisor is zero. A division without remainder is exact. A
/// quotient with more digits than there is room for is rounded in its last place:
/// it has 28 decimal places then, or fills 96 bits up to their last digit. How
/// such a quotient is rounded is not stated further.
#[verifier::external_body]
pub(crate) fn checked_div(a: &Decimal, b: &Decimal) -> (r: Option<Decimal>)
    ensures
        view_of(r) == decimal_quotient(a@, b@),
        is_quotient(a@, b@, view_of(r)),
{
    rust_decimal::Decimal::from_i128_with_scale(a.mantissa, a.scale)
        .checked_div(rust_decimal::Decimal::from_i128_with_scale(b.mantissa, b.scale))
        .map(|d| Decimal { mantissa: d.mantissa(), scale: d.scale() })
}

/// `rust_decimal::Decimal::round_dp_with_strategy`: the number rounded to
/// `places`, or the number itself where it has no more places.
#[verifier::external_body]
pub(crate) fn round_to(d: &Decimal, places: u32, mode: RoundingMode) -> (r: Decimal)
    ensures
        r@ == rounded(d@, places as nat, mode),
{
    let strategy = match mode {
        RoundingMode::BankersRounding => rust_decimal::RoundingStrategy::MidpointNearestEven,
        RoundingMode::HalfUp => rust_decimal::RoundingStrategy::MidpointAwayFromZero,
        RoundingMode::HalfDown => rust_decimal::RoundingStrategy::MidpointTowardZero,
        RoundingMode::Floor => rust_decimal::RoundingStrategy::ToNegativeInfinity,
        RoundingMode::Ceil => rust_decimal::RoundingStrategy::ToPositiveInfinity,
    };
    let r = rust_decimal::Decimal::from_i128_with_scale(d.mantissa, d.scale)
        .round_dp_with_strategy(places, strategy);
    Decimal { mantissa: r.mantissa(), scale: r.scale() }
}

/// `rust_decimal::Decimal::floor`: the largest whole number that is not above
/// `d`.
#[verifier::external_body]
pub(crate) fn floor(d: &Decimal) -> (r: Decimal)
    ensures
        r@ == floored(d@),
{
    let r = rust_decimal::Decimal::from_i128_with_scale(d.mantissa, d.scale).floor();
    Decimal { mantissa: r.mantissa(), scale: r.scale() }
}

/// `rust_decimal::Decimal::from_str`: the number that a text spells, or an
/// error, taken by its message. It reads back what `to_string` writes.
#[verifier::external_body]
fn parsed(s: &str) -> (r: Result<Decimal, String>)
    ensures
        view_of_parsed(r) == decimal_parsed(s@),
        reads_back(s@, view_of_parsed(r)),
{
    match rust_decimal::Decimal::from_str(s) {
        Ok(d) => Ok(Decimal { mantissa: d.mantissa(), scale: d.scale() }),
        Err(e) => Err(e.to_string()),
    }
}

/// `rust_decimal::Decimal::to_string`: sign, whole part, point and one digit for
/// each decimal place.
#[verifier::external_body]
fn rendered(d: &Decimal) -> (r: String)
    ensures
        r@ == decimal_text(d@),
{
    rust_decimal::Decimal::from_i128_with_scale(d.mantissa, d.scale).to_string()
}

/// `rust_decimal::Decimal::cmp`: the order of the numbers, whatever places they
/// are written with.
#[verifier::external_body]
fn ordered(a: &Decimal, b: &Decimal) -> (r: Ordering)
    ensures
        r == order_of(a@.units(), b@.units()),
{
    rust_decimal::Decimal::from_i128_with_scale(a.mantissa, a.scale).cmp(
        &rust_decimal::Decimal::from_i128_with_scale(b.mantissa, b.scale),
    )
}

/// The order of two integers.
pub open spec fn order_of(a: int, b: int) -> Ordering {
    if a < b {
        Ordering::Less
    } else if a == b {
        Ordering::Equal
    } else {
        Ordering::Greater
    }
}

// ---------------------------------------------------------------------------
// Comparison
// ---------------------------------------------------------------------------
/// Two decimals are equal where they are the same number: `1.5` is `1.50`.
impl PartialEq for Decimal {
    fn eq(&self, other: &Decimal) -> (r: bool) {
        match ordered(self, other) {
            Ordering::Equal => true,
            _ => false,
        }
    }
}

impl vstd::std_specs::cmp::PartialEqSpecImpl for Decimal {
    open spec fn obeys_eq_spec() -> bool {
        true
    }

    open spec fn eq_spec(&self, other: &Decimal) -> bool {
        self@.units() == other@.units()
    }
}

impl Eq for Decimal {

}

impl PartialOrd for Decimal {
    fn partial_cmp(&self, other: &Decimal) -> (r: Option<Ordering>) {
        Some(ordered(self, other))
    }
}

impl vstd::std_specs::cmp::PartialOrdSpecImpl for Decimal {
    open spec fn obeys_partial_cmp_spec() -> bool {
        true
    }

    open spec fn partial_cmp_spec(&self, other: &Decimal) -> Option<Ordering> {
        Some(order_of(self@.units(), other@.units()))
    }
}

// ---------------------------------------------------------------------------
// Laws
// ---------------------------------------------------------------------------
/// More places only add zeros to the mantissa.
pub proof fn lemma_more_places(v: DecimalView, s: nat, t: nat)
    requires
        v.scale <= s <= t,
    ensures
        v.at(t) == v.at(s) * pow(10, (t - s) as nat),
        magnitude(v.at(s)) <= magnitude(v.at(t)),
{
    let p = pow(10, (s - v.scale) as nat);
    let q = pow(10, (t - s) as nat);
    vstd::arithmetic::power::lemma_pow_adds(10, (s - v.scale) as nat, (t - s) as nat);
    vstd::arithmetic::power::lemma_pow_positive(10, (t - s) as nat);
    let m = v.mantissa;
    assert(m * (p * q) == (m * p) * q) by (nonlinear_arith);
    let n = m * p;
    assert(n >= 0 ==> n <= n * q) by (nonlinear_arith)
        requires
            q >= 1,
    ;
    assert(n < 0 ==> n * q <= n) by (nonlinear_arith)
        requires
            q >= 1,
    ;
}

/// The same number has the same mantissa at the same places, and the other way
/// round.
pub proof fn lemma_same_number(a: DecimalView, b: DecimalView, s: nat)
    requires
        a.scale <= s <= MAX_SCALE,
        b.scale <= s,
    ensures
        a.units() == b.units() <==> a.at(s) == b.at(s),
{
    lemma_more_places(a, s, MAX_SCALE as nat);
    lemma_more_places(b, s, MAX_SCALE as nat);
    let q = pow(10, (MAX_SCALE - s) as nat);
    vstd::arithmetic::power::lemma_pow_positive(10, (MAX_SCALE - s) as nat);
    let x = a.at(s);
    let y = b.at(s);
    assert(x * q == y * q ==> x == y) by (nonlinear_arith)
        requires
            q >= 1,
    ;
}

/// Where the operands and their sum have room at `s` places, addition is exact
/// at `s` places.
pub proof fn sums_are_exact(a: DecimalView, b: DecimalView, r: Option<DecimalView>, s: nat)
    requires
        a.scale <= s <= MAX_SCALE,
        b.scale <= s,
        fits(a.at(s)),
        fits(b.at(s)),
        fits(a.at(s) + b.at(s)),
        is_sum(a, b, r),
    ensures
        r is Some,
        r->0.scale <= s,
        r->0.at(s) == a.at(s) + b.at(s),
        r->0.units() == a.units() + b.units(),
{
    let c = common_scale(a, b);
    lemma_more_places(a, c, s);
    lemma_more_places(b, c, s);
    let q = pow(10, (s - c) as nat);
    vstd::arithmetic::power::lemma_pow_positive(10, (s - c) as nat);
    let x = a.at(c);
    let y = b.at(c);
    assert(x * q + y * q == (x + y) * q) by (nonlinear_arith);
    let z = x + y;
    assert(z >= 0 ==> z <= z * q) by (nonlinear_arith)
        requires
            q >= 1,
    ;
    assert(z < 0 ==> z * q <= z) by (nonlinear_arith)
        requires
            q >= 1,
    ;
    assert(r is Some && r->0.scale <= s);
    lemma_more_places(a, s, MAX_SCALE as nat);
    lemma_more_places(b, s, MAX_SCALE as nat);
    lemma_more_places(r->0, s, MAX_SCALE as nat);
    let p = pow(10, (MAX_SCALE - s) as nat);
    vstd::arithmetic::power::lemma_pow_positive(10, (MAX_SCALE - s) as nat);
    let t = r->0.at(s);
    let u = a.at(s);
    let w = b.at(s);
    assert(t == u + w) by (nonlinear_arith)
        requires
            t * p == u * p + w * p,
            p >= 1,
    ;
}

/// Taking back what was added gives the first operand again: where everything
/// has room at `s` places, `(a + b) - b` is `a`.
pub proof fn subtraction_undoes_addition(
    a: DecimalView,
    b: DecimalView,
    sum: Option<DecimalView>,
    back: Option<DecimalView>,
    s: nat,
)
    requires
        a.scale <= s <= MAX_SCALE,
        b.scale <= s,
        fits(a.at(s)),
        fits(b.at(s)),
        fits(a.at(s) + b.at(s)),
        is_sum(a, b, sum),
        sum is Some ==> is_difference(sum->0, b, back),
    ensures
        sum is Some,
        back is Some,
        back->0.units() == a.units(),
{
    sums_are_exact(a, b, sum, s);
    let t = sum->0;
    let c = common_scale(t, b);
    lemma_more_places(t, c, s);
    lemma_more_places(b, c, s);
    let q = pow(10, (s - c) as nat);
    vstd::arithmetic::power::lemma_pow_positive(10, (s - c) as nat);
    let x = t.at(c);
    let y = b.at(c);
    assert(x * q - y * q == (x - y) * q) by (nonlinear_arith);
    let z = x - y;
    assert(z >= 0 ==> z <= z * q) by (nonlinear_arith)
        requires
            q >= 1,
    ;
    assert(z < 0 ==> z * q <= z) by (nonlinear_arith)
        requires
            q >= 1,
    ;
}

/// Rounding moves a number by less than one unit of the last place that is
/// kept, by at most half a unit where the mode goes to the nearest, downward
/// for `Floor` and upward for `Ceil`.
pub proof fn rounding_is_close(v: DecimalView, places: nat, mode: RoundingMode)
    requires
        v.scale > places,
    ensures
        rounded(v, places, mode).scale == places,
        ({
            let unit = pow(10, (v.scale - places) as nat);
            let moved = rounded(v, places, mode).at(v.scale) - v.mantissa;
            &&& -unit < moved < unit
            &&& mode is Floor ==> moved <= 0
            &&& mode is Ceil ==> moved >= 0
            &&& !(mode is Floor) && !(mode is Ceil) ==> -unit <= 2 * moved <= unit
        }),
{
    let unit = pow(10, (v.scale - places) as nat);
    vstd::arithmetic::power::lemma_pow_positive(10, (v.scale - places) as nat);
    let m = magnitude(v.mantissa);
    let q = m / (unit as nat);
    let r = m % (unit as nat);
    vstd::arithmetic::div_mod::lemma_fundamental_div_mod(m as int, unit);
    assert(0 <= r < unit) by (nonlinear_arith)
        requires
            r == m % (unit as nat),
            unit > 0,
    ;
    assert(m == unit * q + r);
    assert((q + 1) * unit == unit * q + unit) by (nonlinear_arith);
    assert(q * unit == unit * q) by (nonlinear_arith);
    assert((-(q + 1)) * unit == -(unit * q + unit)) by (nonlinear_arith);
    assert((-(q as int)) * unit == -(unit * q)) by (nonlinear_arith);
}

/// Rounding once is enough: rounding the result to the same places, in any
/// mode, changes nothing.
pub proof fn rounding_is_idempotent(
    v: DecimalView,
    places: nat,
    mode: RoundingMode,
    again: RoundingMode,
)
    ensures
        rounded(rounded(v, places, mode), places, again) == rounded(v, places, mode),
{
}

/// A number with no more places than asked for is not rounded. Of two neighbours
/// that are equally near, half up takes the one away from zero, half down the one
/// toward zero, and banker's rounding the even one.
pub proof fn ties_go_as_the_mode_says(v: DecimalView, places: nat, mode: RoundingMode)
    ensures
        v.scale <= places ==> rounded(v, places, mode) == v,
        v.scale > places ==> {
            let unit = pow(10, (v.scale - places) as nat);
            let r = rounded(v, places, mode);
            let moved = r.at(v.scale) - v.mantissa;
            2 * moved == unit || 2 * moved == -unit ==> {
                &&& mode is HalfUp ==> magnitude(r.at(v.scale)) > magnitude(v.mantissa)
                &&& mode is HalfDown ==> magnitude(r.at(v.scale)) < magnitude(v.mantissa)
                &&& mode is BankersRounding ==> r.mantissa % 2 == 0
            }
        },
{
    if v.scale > places {
        let unit = pow(10, (v.scale - places) as nat);
        vstd::arithmetic::power::lemma_pow_positive(10, (v.scale - places) as nat);
        let m = magnitude(v.mantissa);
        let q = m / (unit as nat);
        let r = m % (unit as nat);
        vstd::arithmetic::div_mod::lemma_fundamental_div_mod(m as int, unit);
        assert(0 <= r < unit) by (nonlinear_arith)
            requires
                r == m % (unit as nat),
                unit > 0,
        ;
        assert(m == unit * q + r);
        assert((q + 1) * unit == unit * q + unit) by (nonlinear_arith);
        assert(q * unit == unit * q) by (nonlinear_arith);
        assert((-(q + 1)) * unit == -(unit * q + unit)) by (nonlinear_arith);
        assert((-(q as int)) * unit == -(unit * q)) by (nonlinear_arith);
        assert(unit * q >= 0) by (nonlinear_arith)
            requires
                unit > 0,
                q >= 0,
        ;
    }
}

/// Whole numbers are found downward: the floor is not above the number, and less
/// than one below it, also where the number is negative.
pub proof fn floor_is_just_below(v: DecimalView)
    ensures
        floored(v).scale == 0,
        floored(v).mantissa * pow(10, v.scale) <= v.mantissa < (floored(v).mantissa + 1) * pow(
            10,
            v.scale,
        ),
{
    let unit = pow(10, v.scale);
    vstd::arithmetic::power::lemma_pow_positive(10, v.scale);
    vstd::arithmetic::div_mod::lemma_fundamental_div_mod(v.mantissa, unit);
    vstd::arithmetic::div_mod::lemma_mod_bound(v.mantissa, unit);
    let n = floored(v).mantissa;
    assert(n * unit == unit * n) by (nonlinear_arith);
    assert((n + 1) * unit == unit * n + unit) by (nonlinear_arith);
}

/// Numbers are compared by their value, whatever places they are written with:
/// each mantissa is weighed with the places of the other.
pub proof fn numbers_compare_by_value(a: DecimalView, b: DecimalView)
    requires
        a.scale <= MAX_SCALE,
        b.scale <= MAX_SCALE,
    ensures
        a.units() < b.units() <==> a.mantissa * pow(10, b.scale) < b.mantissa * pow(10, a.scale),
        a.units() == b.units() <==> a.mantissa * pow(10, b.scale) == b.mantissa * pow(10, a.scale),
{
    let full = pow(10, MAX_SCALE as nat);
    let p = pow(10, a.scale);
    let q = pow(10, b.scale);
    let s = pow(10, (MAX_SCALE - a.scale) as nat);
    let t = pow(10, (MAX_SCALE - b.scale) as nat);
    vstd::arithmetic::power::lemma_pow_adds(10, a.scale, (MAX_SCALE - a.scale) as nat);
    vstd::arithmetic::power::lemma_pow_adds(10, b.scale, (MAX_SCALE - b.scale) as nat);
    vstd::arithmetic::power::lemma_pow_positive(10, a.scale);
    vstd::arithmetic::power::lemma_pow_positive(10, b.scale);
    vstd::arithmetic::power::lemma_pow_positive(10, MAX_SCALE as nat);
    let (m, n) = (a.mantissa, b.mantissa);
    let (x, y) = (m * s, n * t);
    let (u, w) = (m * q, n * p);
    assert(x * (p * q) == u * full) by (nonlinear_arith)
        requires
            x == m * s,
            u == m * q,
            full == p * s,
    ;
    assert(y * (p * q) == w * full) by (nonlinear_arith)
        requires
            y == n * t,
            w == n * p,
            full == q * t,
    ;
    let k = p * q;
    assert(k > 0) by (nonlinear_arith)
        requires
            k == p * q,
            p > 0,
            q > 0,
    ;
    assert((x < y <==> x * k < y * k) && (x == y <==> x * k == y * k)) by (nonlinear_arith)
        requires
            k > 0,
    ;
    assert((u < w <==> u * full < w * full) && (u == w <==> u * full == w * full))
        by (nonlinear_arith)
        requires
            full > 0,
    ;
}

/// Two decimals are equal exactly if they are the same number: trailing zeros
/// make no difference.
pub proof fn equality_ignores_trailing_zeros(a: Decimal, b: Decimal)
    requires
        a@.scale <= MAX_SCALE,
        b@.scale <= MAX_SCALE,
    ensures
        vstd::std_specs::cmp::PartialEqSpec::eq_spec(&a, &b) <==> a@.mantissa * pow(10, b@.scale)
            == b@.mantissa * pow(10, a@.scale),
{
    numbers_compare_by_value(a@, b@);
}

} // verus!
