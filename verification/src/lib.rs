//! A ledger of advisory requests and of the attestations that answer them,
//! with a concentration-risk rating for portfolio descriptions.
//!
//! The ledger is one owned value, [`BlindFoldContract`]. Every operation takes
//! what it needs to know of its caller as a [`CallContext`], so that the same
//! call on the same state always gives the same result.

pub mod context;
pub mod contract;
pub mod decimal;
pub mod error;
pub mod json;
pub mod laws;
pub mod model;
pub mod natural;
pub mod records;
pub mod risk;
pub mod text;

pub use context::{CallContext, MIN_DEPOSIT};
pub use contract::BlindFoldContract;
pub use error::LedgerError;
pub use json::{Json, Member};
pub use records::{AdvisorRequest, RequestStatus, Verification};
pub use risk::{RiskScore, Tier};
