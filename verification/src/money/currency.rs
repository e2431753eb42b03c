//! ISO 4217 currencies.

use crate::money::error::{ErrorView, MoneyError};
use crate::text;
use vstd::prelude::*;

verus! {

/// A currency: its alphabetic code, always three upper-case ASCII letters, and
/// the number of decimal places that its amounts conventionally have.
#[derive(Debug, Clone, Copy, PartialEq, Eq, Hash)]
pub struct Currency {
    code: [u8; 3],
    minor_units: u8,
}

/// The model of [`Currency`].
pub struct CurrencyView {
    pub code: Seq<u8>,
    pub minor_units: nat,
}

impl View for Currency {
    type V = CurrencyView;

    closed spec fn view(&self) -> CurrencyView {
        CurrencyView { code: self.code@, minor_units: self.minor_units as nat }
    }
}

/// Whether `code` is three upper-case ASCII letters.
pub open spec fn is_upper_code(code: Seq<u8>) -> bool {
    &&& code.len() == 3
    &&& 65 <= code[0] <= 90
    &&& 65 <= code[1] <= 90
    &&& 65 <= code[2] <= 90
}

/// Whether `c` is an ASCII letter.
pub open spec fn is_letter(c: char) -> bool {
    'A' <= c <= 'Z' || 'a' <= c <= 'z'
}

/// The upper-case form of an ASCII letter, as a byte.
pub open spec fn upper(c: char) -> u8 {
    if 'a' <= c <= 'z' {
        (c as int - 32) as u8
    } else {
        c as u8
    }
}

/// Whether `s` has the form of a currency code: three ASCII letters, in either
/// case.
pub open spec fn is_code(s: Seq<char>) -> bool {
    s.len() == 3 && is_letter(s[0]) && is_letter(s[1]) && is_letter(s[2])
}

/// The currency of a code: yen have no decimal places, all others two.
pub open spec fn currency_of(s: Seq<char>) -> CurrencyView {
    let code = seq![upper(s[0]), upper(s[1]), upper(s[2])];
    CurrencyView {
        code,
        minor_units: if code == seq![74u8, 80u8, 89u8] {
            0
        } else {
            2
        },
    }
}

/// The text of a code, letter by letter.
pub open spec fn code_text(code: Seq<u8>) -> Seq<char> {
    code.map_values(|b: u8| b as char)
}

/// The view of what a code was found to mean.
pub open spec fn currency_result(r: Result<Currency, MoneyError>) -> Result<
    CurrencyView,
    ErrorView,
> {
    match r {
        Ok(c) => Ok(c@),
        Err(e) => Err(e@),
    }
}

/// One step of the FNV-1a hash.
pub open spec fn fnv_step(h: u64, b: u8) -> u64 {
    (h ^ (b as u64)).wrapping_mul(1099511628211)
}

/// The FNV-1a hash of `bytes`, from the state `h` on.
pub open spec fn fnv(bytes: Seq<u8>, h: u64) -> u64
    decreases bytes.len(),
{
    if bytes.len() == 0 {
        h
    } else {
        fnv_step(fnv(bytes.drop_last(), h), bytes.last())
    }
}

/// The state that the FNV-1a hash starts from.
pub const FNV_BASIS: u64 = 1469598103934665603;

fn letter(c: char) -> (r: bool)
    ensures
        r == is_letter(c),
{
    ('A' <= c && c <= 'Z') || ('a' <= c && c <= 'z')
}

fn upper_byte(c: char) -> (r: u8)
    requires
        is_letter(c),
    ensures
        r == upper(c),
{
    if 'a' <= c && c <= 'z' {
        (c as u8) - 32
    } else {
        c as u8
    }
}

impl Currency {
    /// The code is three upper-case letters.
    #[verifier::type_invariant]
    spec fn wf(self) -> bool {
        is_upper_code(self.code@)
    }

    /// A currency from its parts: the code, in upper-case letters, and the
    /// number of minor units. Prefer [`Currency::from_code`].
    pub fn new(code: [u8; 3], minor_units: u8) -> (r: Currency)
        requires
            is_upper_code(code@),
        ensures
            r@ == (CurrencyView { code: code@, minor_units: minor_units as nat }),
    {
        Currency { code, minor_units }
    }

    /// US dollar.
    pub fn usd() -> (r: Currency)
        ensures
            r@.code == seq![85u8, 83u8, 68u8],
            r@.minor_units == 2,
    {
        Currency::new([85, 83, 68], 2)
    }

    /// Euro.
    pub fn eur() -> (r: Currency)
        ensures
            r@.code == seq![69u8, 85u8, 82u8],
            r@.minor_units == 2,
    {
        Currency::new([69, 85, 82], 2)
    }

    /// Pound sterling.
    pub fn gbp() -> (r: Currency)
        ensures
            r@.code == seq![71u8, 66u8, 80u8],
            r@.minor_units == 2,
    {
        Currency::new([71, 66, 80], 2)
    }

    /// Japanese yen, which has no minor unit.
    pub fn jpy() -> (r: Currency)
        ensures
            r@.code == seq![74u8, 80u8, 89u8],
            r@.minor_units == 0,
    {
        Currency::new([74, 80, 89], 0)
    }

    /// Swiss franc.
    pub fn chf() -> (r: Currency)
        ensures
            r@.code == seq![67u8, 72u8, 70u8],
            r@.minor_units == 2,
    {
        Currency::new([67, 72, 70], 2)
    }

    /// The currency of a three-letter code, in either case. Codes that are not
    /// known carry two minor units.
    pub fn from_code(code: &str) -> (r: Result<Currency, MoneyError>)
        ensures
            currency_result(r) == (if is_code(code@) {
                Ok::<CurrencyView, ErrorView>(currency_of(code@))
            } else {
                Err::<CurrencyView, ErrorView>(ErrorView::BadCurrencyCode(code@))
            }),
    {
        let cs: Vec<char> = text::chars_of(code);
        if cs.len() != 3 || !letter(cs[0]) || !letter(cs[1]) || !letter(cs[2]) {
            return Err(MoneyError::BadCurrencyCode(code.to_string()));
        }
        let a: u8 = upper_byte(cs[0]);
        let b: u8 = upper_byte(cs[1]);
        let c: u8 = upper_byte(cs[2]);
        let yen: bool = a == 74 && b == 80 && c == 89;
        proof {
            let upper_code = seq![upper(code@[0]), upper(code@[1]), upper(code@[2])];
            let yen_code = seq![74u8, 80u8, 89u8];
            assert(upper_code[0] == a && upper_code[1] == b && upper_code[2] == c);
            assert(yen_code[0] == 74 && yen_code[1] == 80 && yen_code[2] == 89);
            assert(yen ==> upper_code =~= yen_code);
            assert([a, b, c]@ =~= upper_code);
        }
        let minor_units: u8 = if yen {
            0
        } else {
            2
        };
        Ok(Currency::new([a, b, c], minor_units))
    }

    /// The three-letter code, in upper case. [`Currency::from_code`] reads it
    /// back.
    pub fn code(&self) -> (r: String)
        ensures
            r@ == code_text(self@.code),
            r@.len() == 3,
            forall|i: int| 0 <= i < 3 ==> 'A' <= #[trigger] r@[i] <= 'Z',
            is_code(r@),
            currency_of(r@).code == self@.code,
    {
        proof {
            use_type_invariant(self);
        }
        let mut out: String = String::new();
        out.push(self.code[0] as char);
        out.push(self.code[1] as char);
        out.push(self.code[2] as char);
        proof {
            assert(out@ =~= code_text(self@.code));
            codes_are_read_back(self@);
        }
        out
    }

    /// The number of minor units.
    pub fn minor_units(&self) -> (r: u8)
        ensures
            r == self@.minor_units,
    {
        self.minor_units
    }

    /// Whether this is the same currency as `other`.
    pub fn same(&self, other: &Currency) -> (r: bool)
        ensures
            r == (self@ == other@),
    {
        proof {
            assert(self.code@.len() == 3 && other.code@.len() == 3);
        }
        let r: bool = self.code[0] == other.code[0] && self.code[1] == other.code[1]
            && self.code[2] == other.code[2] && self.minor_units == other.minor_units;
        proof {
            if r {
                assert(self.code@ =~= other.code@);
            }
        }
        r
    }

    /// A hash of the code that is the same in every process: FNV-1a over its
    /// letters.
    pub fn stable_hash(&self) -> (r: u64)
        ensures
            r == fnv(self@.code, FNV_BASIS),
    {
        let bytes: &[u8] = &self.code;
        let mut h: u64 = FNV_BASIS;
        let mut i: usize = 0;
        while i < bytes.len()
            invariant
                i <= bytes.len(),
                h == fnv(bytes@.take(i as int), FNV_BASIS),
            decreases bytes.len() - i,
        {
            let mixed: u64 = h ^ (bytes[i] as u64);
            h = mixed.wrapping_mul(1099511628211);
            i = i + 1;
            assert(bytes@.take(i as int).drop_last() =~= bytes@.take(i - 1));
        }
        assert(bytes@.take(i as int) =~= bytes@);
        h
    }
}

/// A currency that was looked up shows its code in upper case.
pub proof fn codes_round_trip(s: Seq<char>)
    requires
        is_code(s),
    ensures
        code_text(currency_of(s).code) == s.map_values(|c: char| upper(c) as char),
        is_upper_code(currency_of(s).code),
{
    let letters = s.map_values(|c: char| upper(c) as char);
    assert(code_text(currency_of(s).code) =~= letters);
}

/// The text of a currency's code is a code, and the currency that it is looked
/// up as has the same code.
pub proof fn codes_are_read_back(c: CurrencyView)
    requires
        is_upper_code(c.code),
    ensures
        is_code(code_text(c.code)),
        currency_of(code_text(c.code)).code == c.code,
        forall|i: int| 0 <= i < 3 ==> 'A' <= #[trigger] code_text(c.code)[i] <= 'Z',
{
    let s = code_text(c.code);
    assert(s[0] == c.code[0] as char && s[1] == c.code[1] as char && s[2] == c.code[2] as char);
    assert(currency_of(s).code =~= c.code);
}

/// A code is three ASCII letters, in either case. It is shown in upper case, so
/// that the same letters in another case are the same currency, and it has two
/// minor units unless it is that of the yen, which has none.
pub proof fn codes_are_three_letters(s: Seq<char>)
    ensures
        is_code(s) <==> {
            &&& s.len() == 3
            &&& forall|i: int|
                0 <= i < s.len() ==> 'A' <= #[trigger] s[i] <= 'Z' || 'a' <= s[i] <= 'z'
        },
        is_code(s) ==> {
            let c = currency_of(s);
            &&& c.code.len() == 3
            &&& forall|i: int|
                0 <= i < 3 ==> #[trigger] c.code[i] == (if 'a' <= s[i] <= 'z' {
                    s[i] as int - 32
                } else {
                    s[i] as int
                })
            &&& c.minor_units == 0 || c.minor_units == 2
            &&& c.minor_units == 0 <==> (s[0] == 'J' || s[0] == 'j') && (s[1] == 'P' || s[1]
                == 'p') && (s[2] == 'Y' || s[2] == 'y')
        },
{
    if s.len() == 3 && (forall|i: int|
        0 <= i < s.len() ==> 'A' <= #[trigger] s[i] <= 'Z' || 'a' <= s[i] <= 'z') {
        assert(is_letter(s[0]) && is_letter(s[1]) && is_letter(s[2]));
    }
    if is_code(s) {
        let code = currency_of(s).code;
        let yen = seq![74u8, 80u8, 89u8];
        assert(code[0] == upper(s[0]) && code[1] == upper(s[1]) && code[2] == upper(s[2]));
        assert(yen[0] == 74 && yen[1] == 80 && yen[2] == 89);
        assert(code[0] == 74 && code[1] == 80 && code[2] == 89 ==> code =~= yen);
    }
}

/// The hash takes in one letter after the other: it is mixed in and the result
/// multiplied by the prime, modulo 2^64.
pub proof fn hash_takes_letters_in_order(bytes: Seq<u8>, b: u8, h: u64)
    ensures
        fnv(Seq::empty(), h) == h,
        fnv(bytes.push(b), h) == ((fnv(bytes, h) ^ (b as u64)) * 1099511628211)
            % 0x1_0000_0000_0000_0000,
        FNV_BASIS == 1469598103934665603,
{
    assert(bytes.push(b).drop_last() =~= bytes);
}

} // verus!
