//! Expected-digest preconditions of protected verbs. A decision made against
//! a record whose current digest no longer matches the caller's is stale: it
//! is answered with a structured rejection and performs no side effect.
use vstd::prelude::*;
use vstd::string::StrSliceExecFns;
use crate::json::{Json, JsonView, render, render_exec};
use crate::envelope::{sha256_hex, sha256_hex_of_text, strings_view, opt_string_view};
use crate::text::{owned, str_eq, concat2};

verus! {

/// A precondition bundle attached to a protected request.
pub struct Precondition {
    /// Digest of the active policy bundle the caller assumed.
    pub policy_bundle_digest: Option<String>,
    /// Per-record expected digests.
    pub records: Vec<RecordDigest>,
}

/// One `{ref, expected_digest}` entry.
pub struct RecordDigest {
    /// Opaque record reference (`case:<id>`, `template:<ref>`, ...).
    pub record_ref: String,
    pub expected_digest: String,
}

/// A record whose current digest diverged from the caller's expectation.
pub struct ChangedRecord {
    pub record_ref: String,
    pub expected_digest: String,
    /// The record's current digest; none when it no longer exists.
    pub current_digest: Option<String>,
}

/// The structured `rejected_as_stale` response body.
pub struct RejectedAsStale {
    /// Always `rejected_as_stale`.
    pub outcome: String,
    /// Always `precondition_failed`.
    pub code: String,
    pub changed_records: Vec<ChangedRecord>,
    /// Repair guidance before any retry.
    pub next_actions: Vec<String>,
}

pub open spec fn stale_next_actions() -> Seq<Seq<char>> {
    seq![
        "refetch the authoritative record view"@,
        "recompute the decision against current state"@,
        "resubmit as a new episode if still intended"@,
    ]
}

impl RejectedAsStale {
    pub fn new(changed_records: Vec<ChangedRecord>) -> (r: Self)
        ensures
            r.outcome@ == "rejected_as_stale"@,
            r.code@ == "precondition_failed"@,
            r.changed_records == changed_records,
            strings_view(r.next_actions@) == stale_next_actions(),
    {
        let mut next_actions: Vec<String> = Vec::new();
        next_actions.push(owned("refetch the authoritative record view"));
        next_actions.push(owned("recompute the decision against current state"));
        next_actions.push(owned("resubmit as a new episode if still intended"));
        proof {
            assert(strings_view(next_actions@) =~= stale_next_actions());
        }
        RejectedAsStale {
            outcome: owned("rejected_as_stale"),
            code: owned("precondition_failed"),
            changed_records,
            next_actions,
        }
    }
}

/// The digest of a record: `sha256:` and the SHA-256 of its compact JSON
/// with object keys sorted at every depth, so it is stable across key order.
pub open spec fn record_digest(v: JsonView) -> Seq<char> {
    "sha256:"@ + sha256_hex_of_text(render(v, false))
}

/// The `sha256:<hex>` digest of a record's canonical JSON.
pub fn digest_of(value: &Json) -> (r: String)
    ensures
        r@ == record_digest(value@),
        r@.len() == 71,
        r@.subrange(0, 7) == "sha256:"@,
        forall|i: int| 7 <= i < 71 ==> crate::envelope::is_lower_hex(#[trigger] r@[i]),
{
    let canonical = render_exec(value, false);
    let hex = sha256_hex(canonical.as_str());
    let r = concat2("sha256:", hex.as_str());
    proof {
        reveal_strlit("sha256:");
        assert(r@.subrange(0, 7) =~= "sha256:"@);
        assert forall|i: int| 7 <= i < 71 implies crate::envelope::is_lower_hex(#[trigger] r@[i]) by {
            assert(r@[i] == hex@[i - 7]);
        }
    }
    r
}

pub struct ChangedView {
    pub record_ref: Seq<char>,
    pub expected_digest: Seq<char>,
    pub current_digest: Option<Seq<char>>,
}

pub open spec fn changed_view(c: ChangedRecord) -> ChangedView {
    ChangedView {
        record_ref: c.record_ref@,
        expected_digest: c.expected_digest@,
        current_digest: opt_string_view(c.current_digest),
    }
}

/// The current digest of a resolved record, none when it does not exist.
pub open spec fn current_digest_of(current: Option<Json>) -> Option<Seq<char>> {
    match current {
        Some(v) => Some(record_digest(v@)),
        None => None,
    }
}

/// The records whose current digest is not the expected one, in order.
pub open spec fn changed_records_of(records: Seq<RecordDigest>, current: Seq<Option<Json>>) -> Seq<ChangedView>
    decreases records.len(),
{
    if records.len() == 0 {
        Seq::empty()
    } else {
        let n = (records.len() - 1) as int;
        let rest = changed_records_of(records.drop_last(), current.take(n));
        let r = records.last();
        let cur = current_digest_of(current[n]);
        if cur == Some(r.expected_digest@) {
            rest
        } else {
            rest.push(ChangedView { record_ref: r.record_ref@, expected_digest: r.expected_digest@, current_digest: cur })
        }
    }
}

/// The verdict on a precondition whose records currently hold `current`:
/// none when every digest matches, else the rejection naming, in order, the
/// records that changed.
pub open spec fn stale_verdict(records: Seq<RecordDigest>, current: Seq<Option<Json>>, r: Option<RejectedAsStale>) -> bool {
    match r {
        None => changed_records_of(records, current).len() == 0,
        Some(rej) => {
            &&& changed_records_of(records, current).len() > 0
            &&& rej.changed_records@.map_values(|c: ChangedRecord| changed_view(c)) == changed_records_of(records, current)
            &&& rej.outcome@ == "rejected_as_stale"@
            &&& rej.code@ == "precondition_failed"@
            &&& strings_view(rej.next_actions@) == stale_next_actions()
        },
    }
}

/// Evaluate a precondition against the current values of its records
/// (`current[i]` is what `records[i]` resolves to now).
pub fn evaluate_resolved(precondition: &Precondition, current: &Vec<Option<Json>>) -> (r: Option<RejectedAsStale>)
    requires
        current@.len() == precondition.records@.len(),
    ensures
        stale_verdict(precondition.records@, current@, r),
{
    let mut changed: Vec<ChangedRecord> = Vec::new();
    let mut i: usize = 0;
    while i < precondition.records.len()
        invariant
            i <= precondition.records@.len(),
            current@.len() == precondition.records@.len(),
            changed@.map_values(|c: ChangedRecord| changed_view(c)) == changed_records_of(
                precondition.records@.take(i as int),
                current@.take(i as int),
            ),
        decreases precondition.records@.len() - i,
    {
        proof {
            assert(precondition.records@.take(i + 1).drop_last() =~= precondition.records@.take(i as int));
            assert(current@.take(i + 1).take(i as int) =~= current@.take(i as int));
        }
        let ghost before = changed@.map_values(|c: ChangedRecord| changed_view(c));
        let record = &precondition.records[i];
        let digest: Option<String> = match &current[i] {
            Some(v) => Some(digest_of(v)),
            None => None,
        };
        let same = match &digest {
            Some(d) => str_eq(d.as_str(), record.expected_digest.as_str()),
            None => false,
        };
        if !same {
            let c = ChangedRecord {
                record_ref: record.record_ref.clone(),
                expected_digest: record.expected_digest.clone(),
                current_digest: digest,
            };
            changed.push(c);
            proof {
                assert(changed@.map_values(|c: ChangedRecord| changed_view(c)) =~= before.push(changed_view(c)));
            }
        }
        i += 1;
    }
    proof {
        assert(precondition.records@.take(precondition.records@.len() as int) =~= precondition.records@);
        assert(current@.take(current@.len() as int) =~= current@);
    }
    if changed.len() == 0 {
        None
    } else {
        Some(RejectedAsStale::new(changed))
    }
}

/// A resolution as a value: the record's current value (none when it does
/// not exist), or the resolver's error.
pub open spec fn resolution_view(r: Result<Option<Json>, String>) -> Result<Option<JsonView>, Seq<char>> {
    match r {
        Ok(Some(j)) => Ok(Some(j@)),
        Ok(None) => Ok(None),
        Err(e) => Err(e@),
    }
}

pub open spec fn opt_json_view(v: Option<Json>) -> Option<JsonView> {
    match v {
        Some(j) => Some(j@),
        None => None,
    }
}

/// Resolves a record reference to its current authoritative value, or none
/// when it does not exist.
pub trait RecordResolver {
    /// `out` is an answer this resolver can give for `record_ref`; a
    /// resolver that states nothing of its answers allows any.
    open spec fn resolves_to(&self, record_ref: Seq<char>, out: Result<Option<JsonView>, Seq<char>>) -> bool {
        true
    }

    fn resolve(&self, record_ref: &str) -> (r: Result<Option<Json>, String>)
        ensures
            self.resolves_to(record_ref@, resolution_view(r));
}

/// The resolver can answer `record_ref` with a value (or with none).
pub open spec fn resolves_without_error<R: RecordResolver>(resolver: &R, record_ref: Seq<char>) -> bool {
    exists|o: Option<JsonView>| #[trigger] resolver.resolves_to(record_ref, Ok(o))
}

/// Evaluate a precondition against current state through a resolver, one
/// resolution per record in order: the first resolution error is returned as
/// it came, after every earlier record resolved; otherwise the verdict of
/// [`evaluate_resolved`] on the values the records resolved to.
pub fn evaluate<R: RecordResolver>(precondition: &Precondition, resolver: &R) -> (r: Result<Option<RejectedAsStale>, String>)
    ensures
        match r {
            Ok(v) => exists|current: Seq<Option<Json>>| #![trigger stale_verdict(precondition.records@, current, v)]
                current.len() == precondition.records@.len()
                && (forall|i: int| 0 <= i < current.len() ==> #[trigger] resolver.resolves_to(
                    precondition.records@[i].record_ref@,
                    Ok(opt_json_view(current[i])),
                ))
                && stale_verdict(precondition.records@, current, v),
            Err(e) => exists|k: int| #![trigger precondition.records@[k]]
                0 <= k < precondition.records@.len()
                && resolver.resolves_to(precondition.records@[k].record_ref@, Err(e@))
                && forall|i: int| 0 <= i < k ==> #[trigger] resolves_without_error(
                    resolver,
                    precondition.records@[i].record_ref@,
                ),
        },
{
    let mut current: Vec<Option<Json>> = Vec::new();
    let mut i: usize = 0;
    while i < precondition.records.len()
        invariant
            i <= precondition.records@.len(),
            current@.len() == i,
            forall|j: int| 0 <= j < i ==> #[trigger] resolver.resolves_to(
                precondition.records@[j].record_ref@,
                Ok(opt_json_view(current@[j])),
            ),
        decreases precondition.records@.len() - i,
    {
        let answer = resolver.resolve(precondition.records[i].record_ref.as_str());
        match answer {
            Ok(v) => {
                current.push(v);
            },
            Err(e) => {
                proof {
                    assert forall|j: int| 0 <= j < i implies #[trigger] resolves_without_error(
                        resolver,
                        precondition.records@[j].record_ref@,
                    ) by {
                        assert(resolver.resolves_to(precondition.records@[j].record_ref@, Ok(opt_json_view(current@[j]))));
                    }
                    let _ = precondition.records@[i as int];
                }
                return Err(e);
            },
        }
        i += 1;
    }
    let verdict = evaluate_resolved(precondition, &current);
    proof {
        let _ = stale_verdict(precondition.records@, current@, verdict);
    }
    Ok(verdict)
}

/// A case-ledger entry, as precondition resolution reads it.
pub struct CaseLedgerRecord {
    pub record_kind: String,
    pub payload_hash: String,
    pub append_ordinal: u64,
    pub payload: Json,
}

/// Resolves `case:<id>` and `approval:<id>` refs against one case's ledger
/// (its entries, or none when the ledger does not exist).
pub struct LedgerRecordResolver {
    pub case_id: String,
    pub entries: Option<Vec<CaseLedgerRecord>>,
}

/// `kind:id`, split at the first `:`.
pub open spec fn split_ref(r: Seq<char>) -> Option<(Seq<char>, Seq<char>)> {
    if exists|i: int| 0 <= i < r.len() && r[i] == ':' {
        let i = choose|i: int| 0 <= i < r.len() && r[i] == ':' && forall|j: int| 0 <= j < i ==> r[j] != ':';
        Some((r.take(i), r.skip(i + 1)))
    } else {
        None
    }
}

fn split_ref_exec(r: &str) -> (out: Option<(String, String)>)
    ensures
        match out {
            Some(p) => split_ref(r@) == Some((p.0@, p.1@)),
            None => split_ref(r@) is None,
        },
{
    let n = r.unicode_len();
    let mut i: usize = 0;
    while i < n
        invariant
            n == r@.len(),
            i <= n,
            forall|j: int| 0 <= j < i ==> r@[j] != ':',
        decreases n - i,
    {
        if r.get_char(i) == ':' {
            let k = r.substring_char(0, i);
            let v = r.substring_char(i + 1, n);
            proof {
                let c = choose|c: int| 0 <= c < r@.len() && r@[c] == ':' && forall|j: int| 0 <= j < c ==> r@[j] != ':';
                assert(0 <= i < r@.len() && r@[i as int] == ':' && forall|j: int| 0 <= j < i ==> r@[j] != ':');
                if c < i {
                    assert(r@[c] != ':');
                }
                if c > i {
                    assert(r@[i as int] != ':');
                }
                assert(k@ =~= r@.take(i as int));
                assert(v@ =~= r@.skip(i + 1));
            }
            return Some((owned(k), owned(v)));
        }
        i += 1;
    }
    None
}

/// The fingerprint of one ledger entry: its kind, payload hash and ordinal.
pub open spec fn entry_fingerprint(e: CaseLedgerRecord) -> JsonView {
    JsonView::Object(
        seq![
            ("kind"@, JsonView::Str(e.record_kind@)),
            ("payload_hash"@, JsonView::Str(e.payload_hash@)),
            ("ordinal"@, JsonView::Number(crate::text::decimal(e.append_ordinal as nat))),
        ],
    )
}

/// A case's current value: its id and the fingerprint of every record its
/// ledger holds, in order; it changes whenever the case advances.
pub open spec fn case_fingerprint(case_id: Seq<char>, entries: Seq<CaseLedgerRecord>) -> JsonView {
    JsonView::Object(
        seq![
            ("case_id"@, JsonView::Str(case_id)),
            ("records"@, JsonView::Array(entries.map_values(|e: CaseLedgerRecord| entry_fingerprint(e)))),
        ],
    )
}

/// The payload of the latest entry naming the approval.
pub open spec fn latest_approval(entries: Seq<CaseLedgerRecord>, id: Seq<char>) -> Option<JsonView>
    decreases entries.len(),
{
    if entries.len() == 0 {
        None
    } else {
        let p = entries.last().payload@;
        if crate::json::jstr(crate::json::jget(p, "approval_id"@)) == Some(id) || crate::json::jstr(
            crate::json::jget(p, "approvalId"@),
        ) == Some(id) {
            Some(p)
        } else {
            latest_approval(entries.drop_last(), id)
        }
    }
}

/// What a ref resolves to in a case's ledger: nothing for a malformed ref,
/// a missing ledger, another case, or an unknown kind.
pub open spec fn resolved_ref(case_id: Seq<char>, entries: Option<Vec<CaseLedgerRecord>>, r: Seq<char>) -> Option<JsonView> {
    match (split_ref(r), entries) {
        (Some((kind, id)), Some(es)) => if kind == "case"@ {
            if id == case_id {
                Some(case_fingerprint(id, es@))
            } else {
                None
            }
        } else if kind == "approval"@ {
            latest_approval(es@, id)
        } else {
            None
        },
        _ => None,
    }
}

fn fingerprint_exec(case_id: &str, entries: &Vec<CaseLedgerRecord>) -> (r: Json)
    ensures
        r@ == case_fingerprint(case_id@, entries@),
{
    let mut items: Vec<Json> = Vec::new();
    let mut i: usize = 0;
    while i < entries.len()
        invariant
            i <= entries@.len(),
            items@.len() == i,
            forall|k: int| 0 <= k < i ==> (#[trigger] items@[k])@ == entry_fingerprint(entries@[k]),
        decreases entries@.len() - i,
    {
        let e = &entries[i];
        let mut m: Vec<(String, Json)> = Vec::new();
        crate::json::push_member(&mut m, "kind", Json::Str(e.record_kind.clone()));
        crate::json::push_member(&mut m, "payload_hash", Json::Str(e.payload_hash.clone()));
        crate::json::push_member(&mut m, "ordinal", Json::Number(crate::text::decimal_exec(e.append_ordinal)));
        proof {
            assert(crate::json::members_view(m@) =~= entry_fingerprint(*e)->Object_0);
        }
        items.push(crate::json::object_of(m));
        i += 1;
    }
    proof {
        crate::json::lemma_array_view(items);
    }
    let records = Json::Array(items);
    proof {
        assert(records@ matches JsonView::Array(v) && v =~= entries@.map_values(|e: CaseLedgerRecord| entry_fingerprint(e)));
    }
    let mut m: Vec<(String, Json)> = Vec::new();
    crate::json::push_member(&mut m, "case_id", Json::Str(owned(case_id)));
    crate::json::push_member(&mut m, "records", records);
    proof {
        assert(crate::json::members_view(m@) =~= case_fingerprint(case_id@, entries@)->Object_0);
    }
    crate::json::object_of(m)
}

fn latest_approval_exec(entries: &Vec<CaseLedgerRecord>, id: &str) -> (r: Option<Json>)
    ensures
        crate::json::opt_view(match &r {
            Some(j) => Some(j),
            None => None,
        }) == latest_approval(entries@, id@),
{
    let mut n: usize = entries.len();
    proof {
        assert(entries@.subrange(0, entries@.len() as int) =~= entries@);
    }
    while n > 0
        invariant
            n <= entries@.len(),
            latest_approval(entries@, id@) == latest_approval(entries@.subrange(0, n as int), id@),
        decreases n,
    {
        proof {
            assert(entries@.subrange(0, n as int).drop_last() =~= entries@.subrange(0, n - 1));
        }
        let p = &entries[n - 1].payload;
        let a = match crate::json::get_str(p, "approval_id") {
            Some(x) => str_eq(x, id),
            None => false,
        };
        let b = match crate::json::get_str(p, "approvalId") {
            Some(x) => str_eq(x, id),
            None => false,
        };
        if a || b {
            return Some(crate::json::json_clone(p));
        }
        n -= 1;
    }
    None
}

impl RecordResolver for LedgerRecordResolver {
    /// The ledger's one answer: the value the ref resolves to, never an error.
    open spec fn resolves_to(&self, record_ref: Seq<char>, out: Result<Option<JsonView>, Seq<char>>) -> bool {
        out == Ok::<Option<JsonView>, Seq<char>>(resolved_ref(self.case_id@, self.entries, record_ref))
    }

    fn resolve(&self, record_ref: &str) -> (r: Result<Option<Json>, String>)
        ensures
            r matches Ok(v) && crate::json::opt_view(match &v {
                Some(j) => Some(j),
                None => None,
            }) == resolved_ref(self.case_id@, self.entries, record_ref@),
    {
        let (kind, id) = match split_ref_exec(record_ref) {
            Some(p) => p,
            None => {
                return Ok(None);
            },
        };
        let entries = match &self.entries {
            Some(es) => es,
            None => {
                return Ok(None);
            },
        };
        if str_eq(kind.as_str(), "case") {
            if !str_eq(id.as_str(), self.case_id.as_str()) {
                return Ok(None);
            }
            Ok(Some(fingerprint_exec(id.as_str(), entries)))
        } else if str_eq(kind.as_str(), "approval") {
            Ok(latest_approval_exec(entries, id.as_str()))
        } else {
            Ok(None)
        }
    }
}

/// A precondition holds exactly when every record's current digest is the
/// expected one; a record that no longer exists never matches.
pub proof fn law_stale_exactly_when_a_digest_differs(records: Seq<RecordDigest>, current: Seq<Option<Json>>)
    requires
        current.len() == records.len(),
    ensures
        changed_records_of(records, current).len() == 0 <==> forall|i: int|
            0 <= i < records.len() ==> current_digest_of(#[trigger] current[i]) == Some(records[i].expected_digest@),
    decreases records.len(),
{
    if records.len() > 0 {
        let n = records.len() - 1;
        law_stale_exactly_when_a_digest_differs(records.drop_last(), current.take(n));
        if changed_records_of(records, current).len() == 0 {
            assert forall|i: int| 0 <= i < records.len() implies current_digest_of(#[trigger] current[i]) == Some(
                records[i].expected_digest@,
            ) by {
                if i < n {
                    assert(current.take(n)[i] == current[i]);
                    assert(records.drop_last()[i] == records[i]);
                }
            }
        } else {
            let rest = changed_records_of(records.drop_last(), current.take(n));
            if rest.len() > 0 {
                let i = choose|i: int| 0 <= i < n && current_digest_of(#[trigger] current.take(n)[i]) != Some(
                    records.drop_last()[i].expected_digest@,
                );
                assert(current.take(n)[i] == current[i]);
            }
        }
    }
}


/// A record's digest does not depend on the order of its object members:
/// one value written with its members in any order has one digest.
pub proof fn law_digest_ignores_member_order(a: JsonView, b: JsonView)
    requires
        crate::json::same_json(a, b),
    ensures
        record_digest(a) == record_digest(b),
{
    crate::json::law_render_ignores_member_order(a, b, false);
}

} // verus!
