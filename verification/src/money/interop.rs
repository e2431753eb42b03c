//! What a dynamically typed caller may pass for an amount or a rounding mode.
//! Amounts come as decimal strings or integers; a binary fraction is refused.

use crate::money::decimal::{self, Decimal, DecimalView, RoundingMode};
use crate::scan;
use crate::text;
use vstd::prelude::*;

verus! {

/// An argument that should be an amount.
pub enum AmountArg {
    /// A binary fraction.
    Float,
    /// A text.
    Text(String),
    /// Any other object: the name of its class, and its text.
    Object { class: String, text: String },
}

/// Why an argument is refused.
#[derive(Debug, Clone, PartialEq, Eq)]
pub enum ArgError {
    /// The argument has the wrong type.
    Type(String),
    /// The argument has a wrong value.
    Value(String),
}

/// The model of [`ArgError`].
pub enum ArgErrorView {
    Type(Seq<char>),
    Value(Seq<char>),
}

impl View for ArgError {
    type V = ArgErrorView;

    open spec fn view(&self) -> ArgErrorView {
        match *self {
            ArgError::Type(s) => ArgErrorView::Type(s@),
            ArgError::Value(s) => ArgErrorView::Value(s@),
        }
    }
}

/// Why a binary fraction is refused.
pub const FLOAT_REFUSED: &'static str = "money values must be passed as a decimal string, never a float (float money loses precision); pass e.g. \"10.25\" instead";

/// The text of an argument that may be an amount: a string, or an integer, which
/// has an exact text.
pub open spec fn amount_text(arg: AmountArg) -> Result<Seq<char>, ArgErrorView> {
    match arg {
        AmountArg::Float => Err(ArgErrorView::Type(FLOAT_REFUSED@)),
        AmountArg::Text(s) => Ok(s@),
        AmountArg::Object { class, text } => if class@ == "int"@ {
            Ok(text@)
        } else {
            Err(
                ArgErrorView::Type(
                    "expected a decimal string for a money amount, got `"@ + class@ + "`"@,
                ),
            )
        },
    }
}

/// What an argument means, given what its trimmed text was read as.
pub open spec fn amount_of(arg: AmountArg, parsed: Result<DecimalView, Seq<char>>) -> Result<
    DecimalView,
    ArgErrorView,
> {
    match amount_text(arg) {
        Err(e) => Err(e),
        Ok(s) => match parsed {
            Ok(d) => Ok(d),
            Err(e) => Err(
                ArgErrorView::Value("invalid decimal string `"@ + s + "`: "@ + e),
            ),
        },
    }
}

/// The trimmed text of an argument, where it has one.
pub open spec fn trimmed_text(arg: AmountArg) -> Seq<char> {
    match amount_text(arg) {
        Ok(s) => scan::trimmed(s),
        Err(_) => Seq::empty(),
    }
}

/// The view of what an argument was found to mean.
pub open spec fn amount_result(r: Result<Decimal, ArgError>) -> Result<DecimalView, ArgErrorView> {
    match r {
        Ok(d) => Ok(d@),
        Err(e) => Err(e@),
    }
}

/// The rounding mode of a name.
pub open spec fn mode_named(s: Seq<char>) -> Option<RoundingMode> {
    if s == "bankers"@ || s == "bankers_rounding"@ || s == "half_even"@ {
        Some(RoundingMode::BankersRounding)
    } else if s == "half_up"@ {
        Some(RoundingMode::HalfUp)
    } else if s == "half_down"@ {
        Some(RoundingMode::HalfDown)
    } else if s == "floor"@ {
        Some(RoundingMode::Floor)
    } else if s == "ceil"@ || s == "ceiling"@ {
        Some(RoundingMode::Ceil)
    } else {
        None
    }
}

/// Why a name is no rounding mode.
pub open spec fn unknown_mode(s: Seq<char>) -> Seq<char> {
    "unknown rounding mode `"@ + s
        + "`; expected one of bankers | half_up | half_down | floor | ceil"@
}

/// The rounding mode that `mode` names.
pub fn parse_rounding_mode(mode: &str) -> (r: Result<RoundingMode, ArgError>)
    ensures
        match mode_named(mode@) {
            Some(m) => r == Ok::<RoundingMode, ArgError>(m),
            None => r is Err && r->Err_0@ == ArgErrorView::Value(unknown_mode(mode@)),
        },
{
    if text::same_text(mode, "bankers") || text::same_text(mode, "bankers_rounding")
        || text::same_text(mode, "half_even") {
        Ok(RoundingMode::BankersRounding)
    } else if text::same_text(mode, "half_up") {
        Ok(RoundingMode::HalfUp)
    } else if text::same_text(mode, "half_down") {
        Ok(RoundingMode::HalfDown)
    } else if text::same_text(mode, "floor") {
        Ok(RoundingMode::Floor)
    } else if text::same_text(mode, "ceil") || text::same_text(mode, "ceiling") {
        Ok(RoundingMode::Ceil)
    } else {
        let mut message: String = "unknown rounding mode `".to_string();
        message.append(mode);
        message.append("`; expected one of bankers | half_up | half_down | floor | ceil");
        Err(ArgError::Value(message))
    }
}

/// The text of an argument that may be an amount.
pub fn text_of(arg: &AmountArg) -> (r: Result<String, ArgError>)
    ensures
        match amount_text(*arg) {
            Ok(s) => r is Ok && r->Ok_0@ == s,
            Err(e) => r is Err && r->Err_0@ == e,
        },
{
    match arg {
        AmountArg::Float => Err(ArgError::Type(FLOAT_REFUSED.to_string())),
        AmountArg::Text(s) => Ok(s.as_str().to_string()),
        AmountArg::Object { class, text } => {
            if text::same_text(class.as_str(), "int") {
                Ok(text.as_str().to_string())
            } else {
                let mut message: String =
                    "expected a decimal string for a money amount, got `".to_string();
                message.append(class.as_str());
                message.append("`");
                Err(ArgError::Type(message))
            }
        },
    }
}

/// What an argument means, given what its trimmed text was read as.
pub fn judge(arg: &AmountArg, parsed: Result<Decimal, String>) -> (r: Result<Decimal, ArgError>)
    ensures
        amount_result(r) == amount_of(*arg, decimal::view_of_parsed(parsed)),
{
    match text_of(arg) {
        Err(e) => Err(e),
        Ok(s) => match parsed {
            Ok(d) => Ok(d),
            Err(e) => {
                let mut message: String = "invalid decimal string `".to_string();
                message.append(s.as_str());
                message.append("`: ");
                message.append(e.as_str());
                Err(ArgError::Value(message))
            },
        },
    }
}

/// The decimal that an argument stands for.
pub fn parse_decimal(arg: &AmountArg) -> (r: Result<Decimal, ArgError>)
    ensures
        amount_result(r) == amount_of(*arg, decimal::decimal_parsed(trimmed_text(*arg))),
{
    match text_of(arg) {
        Err(e) => Err(e),
        Ok(s) => {
            let cs: Vec<char> = scan::trim(&text::chars_of(s.as_str()));
            let t: String = text::string_of(&cs, 0, cs.len());
            assert(t@ =~= trimmed_text(*arg));
            judge(arg, Decimal::parse(t.as_str()))
        },
    }
}

// ---------------------------------------------------------------------------
// Laws
// ---------------------------------------------------------------------------
/// Texts and integers may be amounts, by their text; a binary fraction never is,
/// and no object of any other class is. What is refused by its type is refused
/// whatever a text would have been read as.
pub proof fn only_exact_arguments_are_amounts(
    arg: AmountArg,
    read: Result<DecimalView, Seq<char>>,
)
    ensures
        amount_text(arg) is Ok <==> arg is Text || (arg matches AmountArg::Object { class, .. }
            && class@ == "int"@),
        arg matches AmountArg::Text(s) ==> amount_text(arg) == Ok::<Seq<char>, ArgErrorView>(s@),
        arg matches AmountArg::Object { class, text } ==> (class@ == "int"@ ==> amount_text(arg)
            == Ok::<Seq<char>, ArgErrorView>(text@)),
        amount_text(arg) matches Err(e) ==> e is Type && amount_of(arg, read) == Err::<
            DecimalView,
            ArgErrorView,
        >(e),
        amount_text(arg) is Ok && read is Ok ==> amount_of(arg, read) is Ok && amount_of(
            arg,
            read,
        )->Ok_0 == read->Ok_0,
        amount_text(arg) is Ok && read is Err ==> amount_of(arg, read) is Err && amount_of(
            arg,
            read,
        )->Err_0 is Value,
        amount_text(arg) matches Ok(s) ==> trimmed_text(arg) == scan::trimmed(s),
{
}

/// The names of the rounding modes, and no other text, name one; each names the
/// mode it says.
pub proof fn modes_have_their_names(s: Seq<char>)
    ensures
        s == "bankers"@ || s == "bankers_rounding"@ || s == "half_even"@ <==> mode_named(s) == Some(
            RoundingMode::BankersRounding,
        ),
        s == "half_up"@ <==> mode_named(s) == Some(RoundingMode::HalfUp),
        s == "half_down"@ <==> mode_named(s) == Some(RoundingMode::HalfDown),
        s == "floor"@ <==> mode_named(s) == Some(RoundingMode::Floor),
        s == "ceil"@ || s == "ceiling"@ <==> mode_named(s) == Some(RoundingMode::Ceil),
{
    reveal_strlit("bankers");
    reveal_strlit("bankers_rounding");
    reveal_strlit("half_even");
    reveal_strlit("half_up");
    reveal_strlit("half_down");
    reveal_strlit("floor");
    reveal_strlit("ceil");
    reveal_strlit("ceiling");
    assert("bankers"@[0] == 'b');
    assert("bankers_rounding"@[0] == 'b');
    assert("half_even"@[5] == 'e');
    assert("half_up"@[5] == 'u');
    assert("half_down"@[5] == 'd');
    assert("half_even"@[0] == 'h');
    assert("half_up"@[0] == 'h');
    assert("half_down"@[0] == 'h');
    assert("floor"@[0] == 'f');
    assert("ceil"@[0] == 'c');
    assert("ceiling"@[0] == 'c');
}

/// What a refusal says: it repeats the argument, its class or its name as it came.
pub proof fn refusals_repeat_the_argument(
    arg: AmountArg,
    e: Seq<char>,
    name: Seq<char>,
)
    ensures
        arg matches AmountArg::Text(s) ==> amount_of(arg, Err(e)) == Err::<
            DecimalView,
            ArgErrorView,
        >(ArgErrorView::Value("invalid decimal string `"@ + s@ + "`: "@ + e)),
        arg matches AmountArg::Object { class, .. } ==> (class@ != "int"@ ==> amount_text(arg)
            == Err::<Seq<char>, ArgErrorView>(
            ArgErrorView::Type(
                "expected a decimal string for a money amount, got `"@ + class@ + "`"@,
            ),
        )),
        arg is Float ==> amount_text(arg) == Err::<Seq<char>, ArgErrorView>(
            ArgErrorView::Type(FLOAT_REFUSED@),
        ),
        unknown_mode(name) == "unknown rounding mode `"@ + name
            + "`; expected one of bankers | half_up | half_down | floor | ceil"@,
{
}

} // verus!
