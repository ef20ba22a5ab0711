use vstd::prelude::*;

use crate::error::ReconcileError;
use crate::name::{contains_seq, contains_str, nth_segment, segment, slash_count};

verus! {

/// A hosted zone as the provider lists it.
#[derive(Debug)]
pub struct Zone {
    /// Provider-namespaced identifier, such as `/hostedzone/Z123`.
    pub id: String,
    /// Fully qualified domain name that the zone governs.
    pub name: String,
}

/// The first zone, in listing order, whose name contains `domain`.
pub open spec fn first_zone(zones: Seq<Zone>, domain: Seq<char>) -> Option<Zone>
    decreases zones.len(),
{
    if zones.len() == 0 {
        None
    } else if contains_seq(zones[0].name@, domain) {
        Some(zones[0])
    } else {
        first_zone(zones.drop_first(), domain)
    }
}

/// The bare identifier held in a provider-namespaced zone identifier: the
/// segment after the second `/`.
pub open spec fn bare_zone_id(id: Seq<char>) -> Option<Seq<char>> {
    if slash_count(id) >= 2 {
        Some(segment(id, 2))
    } else {
        None
    }
}

/// What resolving `domain` against `zones` yields.
pub open spec fn zone_resolution(zones: Seq<Zone>, domain: Seq<char>) -> Result<Seq<char>, ReconcileError> {
    match first_zone(zones, domain) {
        None => Err(ReconcileError::ZoneNotFound),
        Some(z) => match bare_zone_id(z.id@) {
            Some(id) => Ok(id),
            None => Err(ReconcileError::MalformedIdentifier),
        },
    }
}

/// Zone selection follows listing order: no zone is selected exactly when
/// no listed name contains the domain, and otherwise the selected zone is
/// the earliest listed one whose name contains it.
pub proof fn lemma_first_zone_is_earliest(zones: Seq<Zone>, domain: Seq<char>)
    ensures
        match first_zone(zones, domain) {
            None => forall|k: int| 0 <= k < zones.len() ==> !contains_seq(#[trigger] zones[k].name@, domain),
            Some(z) => exists|k: int|
                0 <= k < zones.len() && #[trigger] zones[k] == z && contains_seq(z.name@, domain)
                    && forall|j: int| 0 <= j < k ==> !contains_seq(#[trigger] zones[j].name@, domain),
        },
    decreases zones.len(),
{
    if zones.len() > 0 && !contains_seq(zones[0].name@, domain) {
        let rest = zones.drop_first();
        lemma_first_zone_is_earliest(rest, domain);
        match first_zone(rest, domain) {
            None => {
                assert forall|k: int| 0 <= k < zones.len() implies !contains_seq(#[trigger] zones[k].name@, domain) by {
                    if k > 0 {
                        assert(zones[k] == rest[k - 1]);
                    }
                }
            },
            Some(z) => {
                let k = choose|k: int|
                    0 <= k < rest.len() && #[trigger] rest[k] == z && contains_seq(z.name@, domain)
                        && forall|j: int| 0 <= j < k ==> !contains_seq(#[trigger] rest[j].name@, domain);
                assert(zones[k + 1] == z);
                assert forall|j: int| 0 <= j < k + 1 implies !contains_seq(#[trigger] zones[j].name@, domain) by {
                    if j > 0 {
                        assert(zones[j] == rest[j - 1]);
                    }
                }
            },
        }
    } else if zones.len() > 0 {
        assert(zones[0] == first_zone(zones, domain)->0);
    }
}

impl Zone {
    pub fn new(id: String, name: String) -> (r: Zone)
        ensures
            r.id == id,
            r.name == name,
    {
        Zone { id, name }
    }
}

/// Picks the first zone, in listing order, whose name contains `domain`, and
/// returns the bare identifier segment of its identifier.
pub fn resolve_zone(zones: &Vec<Zone>, domain: &str) -> (r: Result<String, ReconcileError>)
    ensures
        match (r, zone_resolution(zones@, domain@)) {
            (Ok(id), Ok(want)) => id@ == want,
            (Err(e), Err(want)) => e == want,
            _ => false,
        },
{
    let mut i: usize = 0;
    assert(zones@.skip(0) =~= zones@);
    while i < zones.len()
        invariant
            i <= zones@.len(),
            first_zone(zones@, domain@) == first_zone(zones@.skip(i as int), domain@),
        decreases zones@.len() - i,
    {
        assert(zones@.skip(i as int).drop_first() =~= zones@.skip(i + 1));
        let zone = &zones[i];
        if contains_str(zone.name.as_str(), domain) {
            return match nth_segment(zone.id.as_str(), 2) {
                Some(id) => Ok(id),
                None => Err(ReconcileError::MalformedIdentifier),
            };
        }
        i = i + 1;
    }
    Err(ReconcileError::ZoneNotFound)
}

/// What to do after a page of a zone listing has been taken in.
#[derive(Debug)]
pub enum ListingStep {
    /// Request the next page, starting at this marker.
    Fetch(String),
    /// Every zone has been listed.
    Done,
}

/// Takes in one page of a zone listing: appends its zones to `collected`, in
/// order, and says whether another page must be requested. A truncated page
/// that carries no continuation marker cannot be followed and is a parse
/// failure, so that a partial listing is never taken for a whole one.
pub fn take_zone_page(
    collected: &mut Vec<Zone>,
    page: Vec<Zone>,
    is_truncated: bool,
    next_marker: Option<String>,
) -> (r: Result<ListingStep, ReconcileError>)
    ensures
        final(collected)@ == old(collected)@ + page@,
        !is_truncated ==> r matches Ok(ListingStep::Done),
        is_truncated ==> match next_marker {
            Some(m) => r matches Ok(ListingStep::Fetch(n)) && n == m,
            None => r matches Err(ReconcileError::Parse(_)),
        },
{
    let mut page = page;
    collected.append(&mut page);
    if !is_truncated {
        return Ok(ListingStep::Done);
    }
    match next_marker {
        Some(m) => Ok(ListingStep::Fetch(m)),
        None => Err(ReconcileError::Parse(String::from_str("zone listing truncated without a continuation marker"))),
    }
}

} // verus!
