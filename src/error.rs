use vstd::prelude::*;

verus! {

/// Why a reconciliation run stopped.
#[derive(Debug, PartialEq, Eq)]
pub enum ReconcileError {
    /// A transport failure talking to the address service or the DNS provider.
    Network(String),
    /// A response body that could not be understood.
    Parse(String),
    /// No listed zone governs the requested domain.
    ZoneNotFound,
    /// The selected zone's identifier has no bare identifier segment.
    MalformedIdentifier,
    /// The zone holds no record set with the target name.
    RecordNotFound,
    /// The matching record set holds no address values.
    EmptyRecord,
    /// The provider refused the change, with its diagnostic.
    UpdateRejected(String),
}

} // verus!
