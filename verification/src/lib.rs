//! An auction ledger: listed items, the bids placed on them, and the
//! transfer of ownership when a listing is stopped, kept in stable memory.
//!
//! - [`service`] holds the ledger itself, [`service::AuctionService`], and
//!   its operations; each is verified against the mathematical ledger of
//!   [`ledger`].
//! - [`laws`] states what holds of that ledger over every sequence of calls.
//! - [`records`] and [`identity`] hold the records and the caller identities.
//! - [`codec`] and [`framing`] give records their stored form, and prove
//!   that what is stored is read back unchanged.
//! - [`storage`] is the boundary to the stable structures, which are
//!   trusted rather than verified.
//! - [`text`] words the refusals.

pub mod codec;
pub mod framing;
pub mod identity;
pub mod laws;
pub mod ledger;
pub mod records;
pub mod service;
pub mod storage;
pub mod text;
