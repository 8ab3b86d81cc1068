//! The readiness view: a read-only projection of the self-model foundation
//! and the operational capabilities that rest on it. It never fails: a
//! foundation that does not validate is reported as a status in the view.
use vstd::prelude::*;
use crate::json::{Json, JsonView, jget, jstr};
use crate::text::{owned, str_eq, contains, to_ascii_lowercase, contains_exec, to_ascii_lowercase_exec};
use crate::envelope::opt_string_view;

verus! {

/// Coarse status of one readiness condition.
#[derive(Clone, Copy, Debug, PartialEq, Eq, Structural)]
pub enum ReadinessStatus {
    Ready,
    Degraded,
    Blocked,
    /// Genuinely undetermined, distinct from blocked.
    Unknown,
}

/// Freshness of the canonical record behind a projection.
#[derive(Clone, Copy, Debug, PartialEq, Eq, Structural)]
pub enum SourceFreshness {
    Current,
    Stale,
}

/// Whether the committed source can presently be rebuilt and verified.
#[derive(Clone, Copy, Debug, PartialEq, Eq, Structural)]
pub enum RebuildStanding {
    Verified,
    RebuildRequired,
}

/// A content-addressed, ledger-committed source record behind a view.
pub struct SourceRecordRef {
    pub ledger_id: String,
    pub entry_id: String,
    pub record_kind: String,
    pub record_id: String,
    pub digest: String,
    pub freshness: SourceFreshness,
    pub rebuild_standing: RebuildStanding,
}

/// One readiness condition.
pub struct ReadinessItem {
    pub id: String,
    pub name: String,
    /// `foundation` or `operational_capability`.
    pub category: String,
    pub status: ReadinessStatus,
    /// Empty when self-evidently ready.
    pub reason: String,
    /// The committed record that proves this standing, when there is one.
    pub source: Option<SourceRecordRef>,
    pub next_lawful_action: String,
}

/// The operation the operator intends next.
pub struct IntendedOperation {
    pub method: String,
    pub resource_ref: Option<String>,
}

/// Request params of `readiness.get`.
pub struct ReadinessGetParams {
    pub intended_operation: Option<IntendedOperation>,
}

/// Overall readiness verdict.
#[derive(Clone, Copy, Debug, PartialEq, Eq, Structural)]
pub enum OverallReadiness {
    Ready,
    ReadyWithLimitations,
    Blocked,
    /// A foundation failed on integrity verification.
    IntegrityHalted,
    Stale,
    Unknown,
}

/// A recorded invalidation of a prior readiness determination.
pub struct Invalidation {
    pub item_id: String,
    pub reason: String,
    pub source: Option<SourceRecordRef>,
}

/// The `readiness.get` view body.
pub struct ReadinessView {
    pub intended_operation: Option<IntendedOperation>,
    pub overall: OverallReadiness,
    pub foundations: Vec<ReadinessItem>,
    pub operational_capabilities: Vec<ReadinessItem>,
    /// No invalidation source exists yet: always empty.
    pub recent_invalidations: Vec<Invalidation>,
}

/// The markers the integrity-verification paths write into their messages.
pub open spec fn integrity_markers() -> Seq<Seq<char>> {
    seq!["hash chain"@, "hash-chain"@, "rebuild_hash"@, "snapshot"@, "verify"@, "chain"@]
}

pub open spec fn is_integrity_message(message: Seq<char>) -> bool {
    exists|i: int| 0 <= i < integrity_markers().len() && contains(to_ascii_lowercase(message), #[trigger] integrity_markers()[i])
}

/// Whether a self-model validation failure is an integrity-verification
/// failure (hash chain, snapshot hash, rebuild), read off its message.
pub fn is_integrity_failure(message: &str) -> (r: bool)
    ensures
        r == is_integrity_message(message@),
{
    let lowered = to_ascii_lowercase_exec(message);
    let markers: [&str; 6] = ["hash chain", "hash-chain", "rebuild_hash", "snapshot", "verify", "chain"];
    let mut i: usize = 0;
    while i < 6
        invariant
            i <= 6,
            lowered@ == to_ascii_lowercase(message@),
            markers@.len() == 6,
            forall|k: int| 0 <= k < 6 ==> (#[trigger] markers@[k])@ == integrity_markers()[k],
            forall|k: int| 0 <= k < i ==> !contains(lowered@, #[trigger] integrity_markers()[k]),
        decreases 6 - i,
    {
        if contains_exec(lowered.as_str(), markers[i]) {
            return true;
        }
        i += 1;
    }
    false
}

pub open spec fn needs_delegation(method: Seq<char>) -> bool {
    let lowered = to_ascii_lowercase(method);
    contains(lowered, "delegate"@) || contains(lowered, "agent_run"@) || contains(lowered, "agent_task"@) || contains(
        lowered,
        "agent."@,
    )
}

/// Whether an intended-operation method depends on external agent delegation.
pub fn operation_requires_delegation(method: &str) -> (r: bool)
    ensures
        r == needs_delegation(method@),
{
    let lowered = to_ascii_lowercase_exec(method);
    contains_exec(lowered.as_str(), "delegate") || contains_exec(lowered.as_str(), "agent_run") || contains_exec(
        lowered.as_str(),
        "agent_task",
    ) || contains_exec(lowered.as_str(), "agent.")
}

pub struct SourceView {
    pub ledger_id: Seq<char>,
    pub entry_id: Seq<char>,
    pub record_kind: Seq<char>,
    pub record_id: Seq<char>,
    pub digest: Seq<char>,
    pub freshness: SourceFreshness,
    pub rebuild_standing: RebuildStanding,
}

pub open spec fn source_view(s: SourceRecordRef) -> SourceView {
    SourceView {
        ledger_id: s.ledger_id@,
        entry_id: s.entry_id@,
        record_kind: s.record_kind@,
        record_id: s.record_id@,
        digest: s.digest@,
        freshness: s.freshness,
        rebuild_standing: s.rebuild_standing,
    }
}

pub open spec fn opt_source_view(s: Option<SourceRecordRef>) -> Option<SourceView> {
    match s {
        Some(x) => Some(source_view(x)),
        None => None,
    }
}

pub struct ItemView {
    pub id: Seq<char>,
    pub name: Seq<char>,
    pub category: Seq<char>,
    pub status: ReadinessStatus,
    pub reason: Seq<char>,
    pub source: Option<SourceView>,
    pub next_lawful_action: Seq<char>,
}

pub open spec fn item_view(i: ReadinessItem) -> ItemView {
    ItemView {
        id: i.id@,
        name: i.name@,
        category: i.category@,
        status: i.status,
        reason: i.reason@,
        source: opt_source_view(i.source),
        next_lawful_action: i.next_lawful_action@,
    }
}

pub open spec fn foundation_item(status: ReadinessStatus, reason: Seq<char>, source: Option<SourceView>, next: Seq<char>) -> ItemView {
    ItemView {
        id: "self_model_integrity"@,
        name: "Self-model integrity"@,
        category: "foundation"@,
        status,
        reason,
        source,
        next_lawful_action: next,
    }
}

/// The self-model foundation row, from what resolving the committed snapshot
/// gave: a current source is ready, a stale one degraded, none unknown, and
/// a validation failure blocked with its message.
pub open spec fn self_model_item(snapshot: Result<Option<SourceView>, Seq<char>>) -> ItemView {
    match snapshot {
        Ok(Some(src)) => if src.freshness == SourceFreshness::Current {
            foundation_item(ReadinessStatus::Ready, Seq::empty(), Some(src), "Continue with a governed operation"@)
        } else {
            foundation_item(
                ReadinessStatus::Degraded,
                "The committed self-model snapshot is stale"@,
                Some(src),
                "Rebuild and verify the self-model snapshot"@,
            )
        },
        Ok(None) => foundation_item(
            ReadinessStatus::Unknown,
            "No committed self-model snapshot is available to prove this standing"@,
            None,
            "Initialize or rebuild the self-model, then re-check readiness"@,
        ),
        Err(m) => foundation_item(
            ReadinessStatus::Blocked,
            m,
            None,
            "Repair the reported integrity failure, then re-check readiness"@,
        ),
    }
}

/// The verdict a foundation that is not proven imposes.
pub open spec fn foundation_failure(snapshot: Result<Option<SourceView>, Seq<char>>) -> Option<OverallReadiness> {
    match snapshot {
        Ok(Some(src)) => if src.freshness == SourceFreshness::Current {
            None
        } else {
            Some(OverallReadiness::Stale)
        },
        Ok(None) => Some(OverallReadiness::Unknown),
        Err(m) => Some(
            if is_integrity_message(m) {
                OverallReadiness::IntegrityHalted
            } else {
                OverallReadiness::Blocked
            },
        ),
    }
}

/// Local governed execution: ready exactly when the foundation is proven.
pub open spec fn local_item(snapshot: Result<Option<SourceView>, Seq<char>>) -> ItemView {
    let found = self_model_item(snapshot);
    let failed = foundation_failure(snapshot) is Some;
    ItemView {
        id: "local_governed_execution"@,
        name: "Local governed execution"@,
        category: "operational_capability"@,
        status: if failed {
            ReadinessStatus::Blocked
        } else {
            ReadinessStatus::Ready
        },
        reason: if failed {
            "Blocked: self-model foundation is not currently proven"@
        } else {
            Seq::empty()
        },
        source: found.source,
        next_lawful_action: if failed {
            found.next_lawful_action
        } else {
            "Create or inspect a governed case"@
        },
    }
}

/// External delegation: no committed endpoint verification stands behind
/// it, so it is unknown whether or not an endpoint is configured.
pub open spec fn external_item() -> ItemView {
    ItemView {
        id: "external_delegation"@,
        name: "External delegation"@,
        category: "operational_capability"@,
        status: ReadinessStatus::Unknown,
        reason: "No committed endpoint verification record is available"@,
        source: None,
        next_lawful_action: "Run a governed endpoint probe and inspect its committed settlement"@,
    }
}

pub open spec fn snapshot_view(snapshot: Result<Option<SourceRecordRef>, String>) -> Result<Option<SourceView>, Seq<char>> {
    match snapshot {
        Ok(s) => Ok(opt_source_view(s)),
        Err(m) => Err(m@),
    }
}

pub open spec fn wants_delegation(params: ReadinessGetParams) -> bool {
    match params.intended_operation {
        Some(op) => needs_delegation(op.method@),
        None => false,
    }
}

/// The operational capabilities, the one the intended operation depends on first.
pub open spec fn capabilities(snapshot: Result<Option<SourceView>, Seq<char>>, delegation_first: bool) -> Seq<ItemView> {
    if delegation_first {
        seq![external_item(), local_item(snapshot)]
    } else {
        seq![local_item(snapshot), external_item()]
    }
}

/// How ready the cell is: an unproven foundation decides it; otherwise a
/// capability that is not fully ready limits it.
pub open spec fn overall_of(snapshot: Result<Option<SourceView>, Seq<char>>) -> OverallReadiness {
    match foundation_failure(snapshot) {
        Some(f) => f,
        None => {
            let l = local_item(snapshot).status;
            if l == ReadinessStatus::Degraded || l == ReadinessStatus::Blocked {
                OverallReadiness::ReadyWithLimitations
            } else {
                OverallReadiness::Ready
            }
        },
    }
}

fn clone_source(s: &SourceRecordRef) -> (r: SourceRecordRef)
    ensures
        source_view(r) == source_view(*s),
{
    SourceRecordRef {
        ledger_id: s.ledger_id.clone(),
        entry_id: s.entry_id.clone(),
        record_kind: s.record_kind.clone(),
        record_id: s.record_id.clone(),
        digest: s.digest.clone(),
        freshness: s.freshness,
        rebuild_standing: s.rebuild_standing,
    }
}

fn item(id: &str, name: &str, category: &str, status: ReadinessStatus, reason: String, source: Option<SourceRecordRef>, next: String) -> (r: ReadinessItem)
    ensures
        item_view(r) == (ItemView {
            id: id@,
            name: name@,
            category: category@,
            status,
            reason: reason@,
            source: opt_source_view(source),
            next_lawful_action: next@,
        }),
{
    ReadinessItem {
        id: owned(id),
        name: owned(name),
        category: owned(category),
        status,
        reason,
        source,
        next_lawful_action: next,
    }
}

/// The readiness view, from what resolving the committed self-model snapshot
/// gave (its source record, none, or the validation failure's message) and
/// the request's intended operation.
pub fn get(snapshot: Result<Option<SourceRecordRef>, String>, params: ReadinessGetParams) -> (r: ReadinessView)
    ensures
        r.overall == overall_of(snapshot_view(snapshot)),
        r.foundations@.map_values(|i: ReadinessItem| item_view(i)) == seq![self_model_item(snapshot_view(snapshot))],
        r.operational_capabilities@.map_values(|i: ReadinessItem| item_view(i)) == capabilities(
            snapshot_view(snapshot),
            wants_delegation(params),
        ),
        r.intended_operation == params.intended_operation,
        r.recent_invalidations@.len() == 0,
{
    let ghost sv = snapshot_view(snapshot);
    let (found, failure): (ReadinessItem, Option<OverallReadiness>) = match snapshot {
        Ok(Some(src)) => {
            if matches!(src.freshness, SourceFreshness::Current) {
                (
                    item(
                        "self_model_integrity",
                        "Self-model integrity",
                        "foundation",
                        ReadinessStatus::Ready,
                        String::new(),
                        Some(src),
                        owned("Continue with a governed operation"),
                    ),
                    None,
                )
            } else {
                (
                    item(
                        "self_model_integrity",
                        "Self-model integrity",
                        "foundation",
                        ReadinessStatus::Degraded,
                        owned("The committed self-model snapshot is stale"),
                        Some(src),
                        owned("Rebuild and verify the self-model snapshot"),
                    ),
                    Some(OverallReadiness::Stale),
                )
            }
        },
        Ok(None) => (
            item(
                "self_model_integrity",
                "Self-model integrity",
                "foundation",
                ReadinessStatus::Unknown,
                owned("No committed self-model snapshot is available to prove this standing"),
                None,
                owned("Initialize or rebuild the self-model, then re-check readiness"),
            ),
            Some(OverallReadiness::Unknown),
        ),
        Err(message) => {
            let integrity = is_integrity_failure(message.as_str());
            (
                item(
                    "self_model_integrity",
                    "Self-model integrity",
                    "foundation",
                    ReadinessStatus::Blocked,
                    message,
                    None,
                    owned("Repair the reported integrity failure, then re-check readiness"),
                ),
                Some(
                    if integrity {
                        OverallReadiness::IntegrityHalted
                    } else {
                        OverallReadiness::Blocked
                    },
                ),
            )
        },
    };
    proof {
        assert(item_view(found) == self_model_item(sv));
        assert(failure == foundation_failure(sv));
    }
    let failed = failure.is_some();
    let local = item(
        "local_governed_execution",
        "Local governed execution",
        "operational_capability",
        if failed {
            ReadinessStatus::Blocked
        } else {
            ReadinessStatus::Ready
        },
        if failed {
            owned("Blocked: self-model foundation is not currently proven")
        } else {
            String::new()
        },
        match &found.source {
            Some(s) => Some(clone_source(s)),
            None => None,
        },
        if failed {
            found.next_lawful_action.clone()
        } else {
            owned("Create or inspect a governed case")
        },
    );
    proof {
        assert(item_view(local) == local_item(sv));
    }
    let external = item(
        "external_delegation",
        "External delegation",
        "operational_capability",
        ReadinessStatus::Unknown,
        owned("No committed endpoint verification record is available"),
        None,
        owned("Run a governed endpoint probe and inspect its committed settlement"),
    );
    let delegation_first = match &params.intended_operation {
        Some(op) => operation_requires_delegation(op.method.as_str()),
        None => false,
    };
    let local_status = local.status;
    let mut capabilities_v: Vec<ReadinessItem> = Vec::new();
    if delegation_first {
        capabilities_v.push(external);
        capabilities_v.push(local);
    } else {
        capabilities_v.push(local);
        capabilities_v.push(external);
    }
    let overall = match failure {
        Some(f) => f,
        None => if matches!(local_status, ReadinessStatus::Degraded) || matches!(local_status, ReadinessStatus::Blocked) {
            OverallReadiness::ReadyWithLimitations
        } else {
            OverallReadiness::Ready
        },
    };
    let mut foundations: Vec<ReadinessItem> = Vec::new();
    foundations.push(found);
    proof {
        assert(foundations@.map_values(|i: ReadinessItem| item_view(i)) =~= seq![self_model_item(sv)]);
        assert(capabilities_v@.map_values(|i: ReadinessItem| item_view(i)) =~= capabilities(sv, wants_delegation(params)));
    }
    ReadinessView {
        intended_operation: params.intended_operation,
        overall,
        foundations,
        operational_capabilities: capabilities_v,
        recent_invalidations: Vec::new(),
    }
}

/// A self-model ledger entry, as the snapshot resolution reads it.
pub struct SelfModelEntry {
    pub ledger_id: String,
    pub entry_ulid: String,
    pub record_kind: String,
    pub payload: Json,
    pub payload_hash: String,
}

/// The entry committing a snapshot: its kind is `self_model_snapshot` and
/// its payload names the snapshot.
pub open spec fn commits_snapshot(e: SelfModelEntry, snapshot_id: Seq<char>) -> bool {
    e.record_kind@ == "self_model_snapshot"@ && jstr(jget(e.payload@, "snapshot_id"@)) == Some(snapshot_id)
}

pub open spec fn source_of(e: SelfModelEntry, snapshot_id: Seq<char>, stale: bool) -> SourceView {
    SourceView {
        ledger_id: e.ledger_id@,
        entry_id: e.entry_ulid@,
        record_kind: e.record_kind@,
        record_id: snapshot_id,
        digest: e.payload_hash@,
        freshness: if stale {
            SourceFreshness::Stale
        } else {
            SourceFreshness::Current
        },
        rebuild_standing: if stale {
            RebuildStanding::RebuildRequired
        } else {
            RebuildStanding::Verified
        },
    }
}

/// The committed source of the current snapshot: the first ledger entry that
/// commits it. A snapshot file the ledger does not commit proves nothing.
pub fn snapshot_source(entries: &Vec<SelfModelEntry>, snapshot_id: &str, stale: bool) -> (r: Option<SourceRecordRef>)
    ensures
        match r {
            Some(s) => exists|i: int|
                0 <= i < entries@.len() && commits_snapshot(#[trigger] entries@[i], snapshot_id@) && (forall|j: int|
                    0 <= j < i ==> !commits_snapshot(#[trigger] entries@[j], snapshot_id@)) && source_view(s) == source_of(
                    entries@[i],
                    snapshot_id@,
                    stale,
                ),
            None => forall|i: int| 0 <= i < entries@.len() ==> !commits_snapshot(#[trigger] entries@[i], snapshot_id@),
        },
{
    let mut i: usize = 0;
    while i < entries.len()
        invariant
            i <= entries@.len(),
            forall|j: int| 0 <= j < i ==> !commits_snapshot(#[trigger] entries@[j], snapshot_id@),
        decreases entries@.len() - i,
    {
        let e = &entries[i];
        let names = match crate::json::get_str(&e.payload, "snapshot_id") {
            Some(s) => str_eq(s, snapshot_id),
            None => false,
        };
        if str_eq(e.record_kind.as_str(), "self_model_snapshot") && names {
            let src = SourceRecordRef {
                ledger_id: e.ledger_id.clone(),
                entry_id: e.entry_ulid.clone(),
                record_kind: e.record_kind.clone(),
                record_id: owned(snapshot_id),
                digest: e.payload_hash.clone(),
                freshness: if stale {
                    SourceFreshness::Stale
                } else {
                    SourceFreshness::Current
                },
                rebuild_standing: if stale {
                    RebuildStanding::RebuildRequired
                } else {
                    RebuildStanding::Verified
                },
            };
            proof {
                assert(commits_snapshot(entries@[i as int], snapshot_id@));
            }
            return Some(src);
        }
        i += 1;
    }
    None
}

/// A stale snapshot never reports readiness as success; no snapshot is
/// unknown, not blocked; an integrity failure halts.
pub proof fn law_readiness_never_overstates(src: SourceView, message: Seq<char>)
    ensures
        src.freshness == SourceFreshness::Stale ==> overall_of(Ok(Some(src))) == OverallReadiness::Stale
            && self_model_item(Ok(Some(src))).status == ReadinessStatus::Degraded,
        overall_of(Ok(None)) == OverallReadiness::Unknown,
        self_model_item(Ok(None)).status == ReadinessStatus::Unknown,
        self_model_item(Ok(None)).source is None,
        is_integrity_message(message) ==> overall_of(Err(message)) == OverallReadiness::IntegrityHalted,
        !is_integrity_message(message) ==> overall_of(Err(message)) == OverallReadiness::Blocked,
        src.freshness == SourceFreshness::Current ==> overall_of(Ok(Some(src))) == OverallReadiness::Ready,
{
}

} // verus!
