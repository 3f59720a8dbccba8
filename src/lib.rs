//! Fixed-point monetary values: an integer count of minor units tagged with a
//! currency, with exact arithmetic, policy-driven rounding, formatting and a
//! JSON record encoding.

pub mod batch;
pub mod currency;
pub mod digits;
pub mod error;
pub mod json;
pub mod laws;
pub mod owo;
pub mod rounding;

pub use crate::currency::Currency;
pub use crate::error::OwoError;
pub use crate::owo::Owo;
pub use crate::rounding::RoundingMode;
