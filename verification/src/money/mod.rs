//! Exact-decimal monetary primitives: amounts in a currency, tick-aware prices
//! and lot-aware quantities. Arithmetic is checked: a currency mismatch or an
//! overflow is an error, never a silent truncation.

pub mod currency;
pub mod decimal;
pub mod error;
pub mod interop;
pub mod money;
pub mod price_qty;

pub use currency::Currency;
pub use decimal::{Decimal, RoundingMode};
pub use error::MoneyError;
pub use money::Money;
pub use price_qty::{Price, Qty};
