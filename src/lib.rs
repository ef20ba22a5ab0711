//! Dynamic DNS reconciliation for hosted zones: pick the zone that governs a
//! domain, audit the address record of a subdomain against the caller's
//! public address, and build the single upsert that brings it up to date.

pub mod error;
pub mod name;
pub mod record;
pub mod zone;

pub use error::ReconcileError;
pub use name::{contains_str, fully_qualified_name, nth_segment};
pub use record::{
    apply_update, change_request, needs_update, plan_update, ChangeAction, ChangeRequest, RecordSet, RECORD_TTL,
};
pub use zone::{resolve_zone, take_zone_page, ListingStep, Zone};
