//! Errors of money arithmetic and construction.

use vstd::prelude::*;

verus! {

/// What can go wrong with an amount.
#[derive(Debug, Clone, PartialEq, Eq)]
#[non_exhaustive]
pub enum MoneyError {
    /// The operands carry different currencies.
    CurrencyMismatch { lhs: String, rhs: String },
    /// The result has no room in a decimal.
    Overflow,
    /// A currency code is not three ASCII letters.
    BadCurrencyCode(String),
    /// A text does not spell a decimal.
    BadAmount(String),
}

/// The model of [`MoneyError`].
pub enum ErrorView {
    CurrencyMismatch { lhs: Seq<char>, rhs: Seq<char> },
    Overflow,
    BadCurrencyCode(Seq<char>),
    BadAmount(Seq<char>),
}

impl View for MoneyError {
    type V = ErrorView;

    open spec fn view(&self) -> ErrorView {
        match *self {
            MoneyError::CurrencyMismatch { lhs, rhs } => ErrorView::CurrencyMismatch {
                lhs: lhs@,
                rhs: rhs@,
            },
            MoneyError::Overflow => ErrorView::Overflow,
            MoneyError::BadCurrencyCode(s) => ErrorView::BadCurrencyCode(s@),
            MoneyError::BadAmount(s) => ErrorView::BadAmount(s@),
        }
    }
}

} // verus!
