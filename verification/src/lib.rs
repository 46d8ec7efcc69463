//! A periodic price-oracle updater, as a verified library.
//!
//! The library holds the logic of one update cycle: parsing a fetched
//! multi-currency quote, converting its decimal prices into the fixed-point
//! integers the destination ledger expects, and the state machine that
//! sequences Fetch -> Convert -> Submit -> Confirm with explicit failure
//! handling. Network, signing and scheduling live outside the library and
//! drive it through plain values.

pub mod convert;
pub mod cycle;
pub mod decimal;
pub mod quote;
pub mod submit;

pub use convert::{convert, scale_price, ConversionError, ScaledPriceSet};
pub use cycle::{step, CycleAction, CycleEvent, CycleOutcome, CycleState, TICK_INTERVAL_SECS};
pub use decimal::{Decimal, NumModel, MAX_DIGITS};
pub use quote::{parse_quote, FetchError, Quote, QuoteModel};
pub use submit::{encode_update_call, Receipt, SubmissionError};
