use vstd::prelude::*;

use crate::error::ReconcileError;
use crate::name::{fully_qualified_name, target_name};

verus! {

/// Time-to-live, in seconds, given to every record written by an update.
pub const RECORD_TTL: u64 = 300;

/// An address record set as the provider returns it: its fully qualified
/// name and its address values, in order.
#[derive(Debug)]
pub struct RecordSet {
    pub name: String,
    pub values: Vec<String>,
}

/// The mathematical content of a [`RecordSet`].
pub struct RecordSetView {
    pub name: Seq<char>,
    pub values: Seq<Seq<char>>,
}

impl View for RecordSet {
    type V = RecordSetView;

    open spec fn view(&self) -> RecordSetView {
        RecordSetView { name: self.name@, values: self.values@.map_values(|v: String| v@) }
    }
}

/// The views of a sequence of record sets.
pub open spec fn views(sets: Seq<RecordSet>) -> Seq<RecordSetView> {
    sets.map_values(|r: RecordSet| r@)
}

/// The record set holding the single address `ip` under `name`.
pub open spec fn address_record(name: Seq<char>, ip: Seq<char>) -> RecordSetView {
    RecordSetView { name, values: seq![ip] }
}

/// The first record set, in response order, named exactly `target`.
pub open spec fn find_record(sets: Seq<RecordSetView>, target: Seq<char>) -> Option<RecordSetView>
    decreases sets.len(),
{
    if sets.len() == 0 {
        None
    } else if sets[0].name == target {
        Some(sets[0])
    } else {
        find_record(sets.drop_first(), target)
    }
}

/// Whether some address value of `r` differs from `ip`.
pub open spec fn is_stale(r: RecordSetView, ip: Seq<char>) -> bool {
    exists|i: int| 0 <= i < r.values.len() && #[trigger] r.values[i] != ip
}

/// The audit of `sets` for the record `target` against the address `ip`:
/// whether the record must be rewritten, or why it cannot be judged.
pub open spec fn audit(sets: Seq<RecordSetView>, ip: Seq<char>, target: Seq<char>) -> Result<bool, ReconcileError> {
    match find_record(sets, target) {
        None => Err(ReconcileError::RecordNotFound),
        Some(r) => if r.values.len() == 0 {
            Err(ReconcileError::EmptyRecord)
        } else {
            Ok(is_stale(r, ip))
        },
    }
}

/// The zone's record sets after an upsert of `rec`: every record set with
/// the same name is replaced wholesale by `rec`; where there is none, `rec`
/// is added.
pub open spec fn upserted(sets: Seq<RecordSetView>, rec: RecordSetView) -> Seq<RecordSetView> {
    if exists|i: int| 0 <= i < sets.len() && #[trigger] sets[i].name == rec.name {
        sets.map_values(|r: RecordSetView| if r.name == rec.name { rec } else { r })
    } else {
        sets.push(rec)
    }
}

impl RecordSet {
    pub fn new(name: String, values: Vec<String>) -> (r: RecordSet)
        ensures
            r.name == name,
            r.values == values,
    {
        RecordSet { name, values }
    }
}

/// Decides, from the record sets that the provider returned for a query
/// starting at `{subdomain}.{domain}.`, whether that record must be updated
/// to `external_ip`. The first record set named exactly so is the one
/// judged; it is stale when any of its values differs from `external_ip`.
pub fn needs_update(record_sets: &Vec<RecordSet>, external_ip: &str, domain: &str, subdomain: &str) -> (r: Result<bool, ReconcileError>)
    ensures
        r == audit(views(record_sets@), external_ip@, target_name(domain@, subdomain@)),
{
    let target = fully_qualified_name(domain, subdomain);
    let ip = String::from_str(external_ip);
    let ghost all = views(record_sets@);
    let mut i: usize = 0;
    assert(all.skip(0) =~= all);
    while i < record_sets.len()
        invariant
            all == views(record_sets@),
            ip@ == external_ip@,
            target@ == target_name(domain@, subdomain@),
            i <= record_sets@.len(),
            find_record(all, target@) == find_record(all.skip(i as int), target@),
        decreases record_sets@.len() - i,
    {
        assert(all.skip(i as int).drop_first() =~= all.skip(i + 1));
        assert(all.skip(i as int)[0] == record_sets@[i as int]@);
        let set = &record_sets[i];
        if set.name == target {
            assert(find_record(all, target@) == Some(set@));
            if set.values.len() == 0 {
                return Err(ReconcileError::EmptyRecord);
            }
            let mut j: usize = 0;
            while j < set.values.len()
                invariant
                    all == views(record_sets@),
                    target@ == target_name(domain@, subdomain@),
                    i < record_sets@.len(),
                    ip@ == external_ip@,
                    set@ == record_sets@[i as int]@,
                    find_record(all, target@) == Some(set@),
                    set@.values.len() > 0,
                    j <= set.values@.len(),
                    forall|k: int| 0 <= k < j ==> set@.values[k] == external_ip@,
                decreases set.values@.len() - j,
            {
                assert(set@.values[j as int] == set.values@[j as int]@);
                if !(set.values[j] == ip) {
                    assert(set@.values[j as int] != external_ip@);
                    assert(is_stale(set@, external_ip@));
                    return Ok(true);
                }
                j = j + 1;
            }
            return Ok(false);
        }
        i = i + 1;
    }
    Err(ReconcileError::RecordNotFound)
}

/// The one kind of change this library writes.
#[derive(Debug)]
pub enum ChangeAction {
    /// Create the record set, or replace it wholesale where it exists.
    Upsert,
}

/// A single upsert of an address record in a zone.
#[derive(Debug)]
pub struct ChangeRequest {
    /// Bare identifier of the zone.
    pub zone_id: String,
    pub action: ChangeAction,
    /// Fully qualified record name.
    pub name: String,
    /// The one address value the record set will hold.
    pub value: String,
    /// Time-to-live, in seconds.
    pub ttl: u64,
}

impl ChangeRequest {
    /// The record set that this change leaves in the zone.
    pub open spec fn written(&self) -> RecordSetView {
        address_record(self.name@, self.value@)
    }
}

/// Builds the change that points `{subdomain}.{domain}.` in zone `zone_id`
/// at `external_ip` alone, with the fixed time-to-live.
pub fn change_request(zone_id: &str, external_ip: &str, domain: &str, subdomain: &str) -> (r: ChangeRequest)
    ensures
        r.zone_id@ == zone_id@,
        r.action == ChangeAction::Upsert,
        r.name@ == target_name(domain@, subdomain@),
        r.value@ == external_ip@,
        r.ttl == RECORD_TTL,
        r.written() == address_record(target_name(domain@, subdomain@), external_ip@),
{
    ChangeRequest {
        zone_id: String::from_str(zone_id),
        action: ChangeAction::Upsert,
        name: fully_qualified_name(domain, subdomain),
        value: String::from_str(external_ip),
        ttl: RECORD_TTL,
    }
}

/// The record set that `change` writes, as a fresh value.
fn written_record(change: &ChangeRequest) -> (r: RecordSet)
    ensures
        r@ == change.written(),
{
    let mut values: Vec<String> = Vec::new();
    values.push(change.value.clone());
    let r = RecordSet { name: change.name.clone(), values };
    assert(r@.values =~= seq![change.value@]);
    r
}

/// Applies `change` to a snapshot of a zone's record sets with upsert
/// semantics: each record set of that name is replaced wholesale, and the
/// record set is added where none has that name.
pub fn apply_update(records: &mut Vec<RecordSet>, change: &ChangeRequest)
    ensures
        views(final(records)@) == upserted(views(old(records)@), change.written()),
{
    let ghost before = views(records@);
    let ghost rec = change.written();
    let mut found = false;
    let mut i: usize = 0;
    while i < records.len()
        invariant
            rec == change.written(),
            records@.len() == before.len(),
            i <= records@.len(),
            found == exists|k: int| 0 <= k < i && #[trigger] before[k].name == rec.name,
            forall|k: int| 0 <= k < i ==> #[trigger] records@[k]@ == (if before[k].name == rec.name { rec } else { before[k] }),
            forall|k: int| i <= k < records@.len() ==> #[trigger] records@[k]@ == before[k],
        decreases records@.len() - i,
    {
        assert(records@[i as int]@ == before[i as int]);
        if records[i].name == change.name {
            let fresh = written_record(change);
            records.set(i, fresh);
            found = true;
        }
        proof {
            if before[i as int].name == rec.name {
                assert(0 <= i && before[i as int].name == rec.name);
            }
        }
        i = i + 1;
    }
    if found {
        assert(views(records@) =~= before.map_values(|r: RecordSetView| if r.name == rec.name { rec } else { r }));
    } else {
        let fresh = written_record(change);
        records.push(fresh);
        assert(views(records@) =~= before.push(rec));
    }
}

/// Audits the record `{subdomain}.{domain}.` in the provider's response and
/// returns the change to submit when it is stale, `None` when it is current,
/// or the audit's error; a missing or empty record is never created.
pub fn plan_update(
    zone_id: &str,
    record_sets: &Vec<RecordSet>,
    external_ip: &str,
    domain: &str,
    subdomain: &str,
) -> (r: Result<Option<ChangeRequest>, ReconcileError>)
    ensures
        match audit(views(record_sets@), external_ip@, target_name(domain@, subdomain@)) {
            Err(e) => r == Err::<Option<ChangeRequest>, ReconcileError>(e),
            Ok(false) => r matches Ok(None),
            Ok(true) => r matches Ok(Some(c)) && c.zone_id@ == zone_id@ && c.action == ChangeAction::Upsert
                && c.name@ == target_name(domain@, subdomain@) && c.value@ == external_ip@ && c.ttl == RECORD_TTL,
        },
{
    match needs_update(record_sets, external_ip, domain, subdomain) {
        Err(e) => Err(e),
        Ok(false) => Ok(None),
        Ok(true) => Ok(Some(change_request(zone_id, external_ip, domain, subdomain))),
    }
}

/// Where some record set is named `target`, the lookup finds one of the
/// record sets so named.
proof fn lemma_find_record_hits(sets: Seq<RecordSetView>, target: Seq<char>)
    requires
        exists|i: int| 0 <= i < sets.len() && #[trigger] sets[i].name == target,
    ensures
        find_record(sets, target) matches Some(r) && exists|k: int|
            0 <= k < sets.len() && #[trigger] sets[k] == r && r.name == target,
    decreases sets.len(),
{
    if sets[0].name != target {
        let i = choose|i: int| 0 <= i < sets.len() && #[trigger] sets[i].name == target;
        assert(sets.drop_first()[i - 1].name == target);
        lemma_find_record_hits(sets.drop_first(), target);
        let r = find_record(sets, target)->0;
        let k = choose|k: int| 0 <= k < sets.len() - 1 && #[trigger] sets.drop_first()[k] == r && r.name == target;
        assert(sets[k + 1] == r);
    } else {
        assert(sets[0] == find_record(sets, target)->0);
    }
}

/// The audit's verdict on a record set that exists and holds values: it is
/// current when every value equals the address, and stale as soon as the
/// first value differs from it.
pub proof fn lemma_audit_verdict(sets: Seq<RecordSetView>, ip: Seq<char>, target: Seq<char>)
    requires
        find_record(sets, target) is Some,
        find_record(sets, target)->0.values.len() > 0,
    ensures
        (forall|i: int| 0 <= i < find_record(sets, target)->0.values.len()
            ==> #[trigger] find_record(sets, target)->0.values[i] == ip)
            ==> audit(sets, ip, target) == Ok::<bool, ReconcileError>(false),
        find_record(sets, target)->0.values[0] != ip ==> audit(sets, ip, target) == Ok::<bool, ReconcileError>(true),
{
}

/// Applying the same upsert twice leaves the zone as applying it once does.
pub proof fn lemma_apply_update_idempotent(sets: Seq<RecordSetView>, rec: RecordSetView)
    ensures
        upserted(upserted(sets, rec), rec) == upserted(sets, rec),
{
    let once = upserted(sets, rec);
    if exists|i: int| 0 <= i < sets.len() && #[trigger] sets[i].name == rec.name {
        let i = choose|i: int| 0 <= i < sets.len() && #[trigger] sets[i].name == rec.name;
        assert(once[i].name == rec.name);
    } else {
        assert(once[sets.len() as int].name == rec.name);
    }
    let twice = upserted(once, rec);
    assert(twice =~= once);
}

/// After the change that points `{subdomain}.{domain}.` at `ip` has been
/// applied, auditing that record against the same `ip` finds it current.
pub proof fn lemma_update_then_current(sets: Seq<RecordSetView>, ip: Seq<char>, domain: Seq<char>, subdomain: Seq<char>)
    ensures
        audit(
            upserted(sets, address_record(target_name(domain, subdomain), ip)),
            ip,
            target_name(domain, subdomain),
        ) == Ok::<bool, ReconcileError>(false),
{
    let target = target_name(domain, subdomain);
    let rec = address_record(target, ip);
    let after = upserted(sets, rec);
    if exists|i: int| 0 <= i < sets.len() && #[trigger] sets[i].name == rec.name {
        let i = choose|i: int| 0 <= i < sets.len() && #[trigger] sets[i].name == rec.name;
        assert(after[i].name == target);
    } else {
        assert(after[sets.len() as int].name == target);
    }
    assert(forall|k: int| 0 <= k < after.len() && #[trigger] after[k].name == target ==> after[k] == rec);
    lemma_find_record_hits(after, target);
    assert(find_record(after, target) == Some(rec));
    assert(!is_stale(rec, ip));
}

} // verus!
