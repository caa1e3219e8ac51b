use vstd::prelude::*;

use crate::errors::PickError;

verus! {

/// `rusoto_core::Region`, the provider's region handle.  Opaque to the
/// pipeline: only the provider's own parser decides which names make one.
#[verifier::external_type_specification]
#[verifier::external_body]
pub struct ExRegion(rusoto_core::Region);

/// Whether the provider resolves `name` as a region identifier.  The
/// provider's parser is a fixed table keyed by the lowercased name, so the
/// outcome depends on the characters alone.
pub uninterp spec fn region_resolves(name: Seq<char>) -> bool;

/// Relies on `<rusoto_core::Region as FromStr>::from_str`: a pure lookup in
/// a fixed table of region names keyed by the lowercased input, an error
/// exactly for names outside the table.
#[verifier::external_body]
fn parse_region(name: &str) -> (r: Option<rusoto_core::Region>)
    ensures
        r is Some <==> region_resolves(name@),
{
    name.parse::<rusoto_core::Region>().ok()
}

/// Resolves a region identifier to the provider's region handle, refusing
/// an unknown identifier as the `InvalidRegion` failure.
pub fn resolve_region(name: &str) -> (r: Result<rusoto_core::Region, PickError>)
    ensures
        r is Ok <==> region_resolves(name@),
        match r {
            Ok(_) => true,
            Err(e) => e is InvalidRegion,
        },
{
    match parse_region(name) {
        Some(region) => Ok(region),
        None => Err(PickError::InvalidRegion),
    }
}

} // verus!
