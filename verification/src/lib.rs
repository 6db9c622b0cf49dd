//! A ledger for tradable, supply-capped digital items. Sellers create items
//! with a maximum mintable supply and a primary price; buyers either mint
//! unissued copies from the original seller or acquire copies a holder has
//! listed for resale. Three mutually denormalized ledgers — item records,
//! per-item ownership entries, and a per-account ownership index — are kept
//! consistent across every trade path, with exact arithmetic and no partial
//! updates on failure.

pub mod account;
pub mod errors;
pub mod holdings;
pub mod keyed;
pub mod laws;
pub mod market;
pub mod owners;
pub mod sellers;
pub mod util;

pub use account::AccountId;
pub use errors::{MarketError, Settlement};
pub use market::{Item, Market};
