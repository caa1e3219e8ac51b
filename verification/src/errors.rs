use vstd::prelude::*;

verus! {

/// The failure modes of the discovery pipeline.
///
/// Every error aborts the whole run: there is no partial-success mode.
#[derive(Debug)]
pub enum PickError {
    /// The region identifier could not be resolved to a known endpoint.
    InvalidRegion,
    /// A provider page request failed; carries the provider's error detail.
    QueryFailed(String),
    /// The selector returned a line index outside the display table.
    IndexOutOfRange,
}

} // verus!
