//! The operating assets a cell holds: plan templates, agent endpoints and
//! extensions. Each kind keeps its own standing vocabulary; whether the cell
//! will offer an asset for work is a separate field, never folded into it.
use vstd::prelude::*;
use crate::envelope::{strings_view, opt_string_view, sha256_hex_of, sha256_hex_bytes};
use crate::governed_settlement_return::SettlementStatus;
use crate::sfwp::case_views::SettlementRecord;
use crate::sfwp::delegations::{PlannedOperation, settlement_word_of, settlement_word};
use crate::text::{owned, str_eq, concat2, concat3, joined, join_exec, starts_with, starts_with_exec};
use crate::order::pair_lt;

verus! {

/// Which family an asset belongs to.
#[derive(Clone, Copy, Debug, PartialEq, Eq, Structural)]
pub enum AssetKind {
    PlanTemplate,
    AgentEndpoint,
    Extension,
}

/// One asset, projected.
pub struct AssetRow {
    /// Kind-prefixed address (`template:repair@1.0.0`, `agent_endpoint:local`,
    /// `extension:acme.linter@2.1.0`).
    pub asset_id: String,
    pub kind: AssetKind,
    pub name: String,
    pub version: Option<String>,
    /// This kind's own standing word.
    pub standing: String,
    pub identity_digest: Option<String>,
    pub evidence_refs: Vec<String>,
    /// Why the cell will not offer the asset for work; none means nothing
    /// blocks it, which is no claim that it was proven.
    pub blocking_reason: Option<String>,
}

/// `asset.list` result body.
pub struct AssetListResult {
    pub assets: Vec<AssetRow>,
    /// Asset sources that exist but could not be read.
    pub unreadable: Vec<String>,
}

/// A template's only standing: materialized on disk.
pub const TEMPLATE_MATERIALIZED: &'static str = "materialized";

/// The agent endpoint standing ladder.
pub const ENDPOINT_DECLARED: &'static str = "declared";

pub const ENDPOINT_PROBED: &'static str = "probed";

pub const ENDPOINT_DEMONSTRATED: &'static str = "demonstrated";

pub struct AssetView {
    pub asset_id: Seq<char>,
    pub kind: AssetKind,
    pub name: Seq<char>,
    pub version: Option<Seq<char>>,
    pub standing: Seq<char>,
    pub identity_digest: Option<Seq<char>>,
    pub evidence_refs: Seq<Seq<char>>,
    pub blocking_reason: Option<Seq<char>>,
}

pub open spec fn asset_view(a: AssetRow) -> AssetView {
    AssetView {
        asset_id: a.asset_id@,
        kind: a.kind,
        name: a.name@,
        version: opt_string_view(a.version),
        standing: a.standing@,
        identity_digest: opt_string_view(a.identity_digest),
        evidence_refs: strings_view(a.evidence_refs@),
        blocking_reason: opt_string_view(a.blocking_reason),
    }
}

// ---------------------------------------------------------------------------
// Plan templates
// ---------------------------------------------------------------------------

/// The name and version a template file declares.
pub struct TemplateIdentity {
    pub name: String,
    pub version: String,
}

/// A `templates/*.yaml` file: its stem, its bytes when readable, and what
/// loading it as a template gave.
pub struct TemplateFile {
    pub stem: String,
    pub bytes: Option<Vec<u8>>,
    pub loaded: Result<TemplateIdentity, String>,
}

pub open spec fn template_digest(bytes: Option<Vec<u8>>) -> Option<Seq<char>> {
    match bytes {
        Some(b) => Some("sha256:"@ + sha256_hex_of(b@)),
        None => None,
    }
}

/// The row of a template file: loaded, its declared name and version; not
/// loadable, its stem and the reason it is not offered.
pub open spec fn template_row(f: TemplateFile) -> AssetView {
    match f.loaded {
        Ok(t) => AssetView {
            asset_id: "template:"@ + t.name@ + "@"@ + t.version@,
            kind: AssetKind::PlanTemplate,
            name: t.name@,
            version: Some(t.version@),
            standing: "materialized"@,
            identity_digest: template_digest(f.bytes),
            evidence_refs: Seq::empty(),
            blocking_reason: None,
        },
        Err(e) => AssetView {
            asset_id: "template:"@ + f.stem@,
            kind: AssetKind::PlanTemplate,
            name: f.stem@,
            version: None,
            standing: "materialized"@,
            identity_digest: template_digest(f.bytes),
            evidence_refs: Seq::empty(),
            blocking_reason: Some("template file could not be loaded: "@ + e@),
        },
    }
}

pub open spec fn template_unreadable(files: Seq<TemplateFile>) -> Seq<Seq<char>>
    decreases files.len(),
{
    if files.len() == 0 {
        Seq::empty()
    } else {
        let rest = template_unreadable(files.drop_last());
        match files.last().loaded {
            Ok(_) => rest,
            Err(_) => rest.push("template:"@ + files.last().stem@),
        }
    }
}

fn digest_exec(bytes: &Option<Vec<u8>>) -> (r: Option<String>)
    ensures
        opt_string_view(r) == template_digest(*bytes),
{
    match bytes {
        Some(b) => {
            let hex = sha256_hex_bytes(b.as_slice());
            Some(concat2("sha256:", hex.as_str()))
        },
        None => None,
    }
}

fn template_row_exec(f: &TemplateFile) -> (r: AssetRow)
    ensures
        asset_view(r) == template_row(*f),
{
    let digest = digest_exec(&f.bytes);
    let empty: Vec<String> = Vec::new();
    proof {
        assert(strings_view(empty@) =~= Seq::<Seq<char>>::empty());
    }
    match &f.loaded {
        Ok(t) => {
            let mut id = concat3("template:", t.name.as_str(), "@");
            id.append(t.version.as_str());
            AssetRow {
                asset_id: id,
                kind: AssetKind::PlanTemplate,
                name: t.name.clone(),
                version: Some(t.version.clone()),
                standing: owned(TEMPLATE_MATERIALIZED),
                identity_digest: digest,
                evidence_refs: empty,
                blocking_reason: None,
            }
        },
        Err(e) => AssetRow {
            asset_id: concat2("template:", f.stem.as_str()),
            kind: AssetKind::PlanTemplate,
            name: f.stem.clone(),
            version: None,
            standing: owned(TEMPLATE_MATERIALIZED),
            identity_digest: digest,
            evidence_refs: empty,
            blocking_reason: Some(concat2("template file could not be loaded: ", e.as_str())),
        },
    }
}

// ---------------------------------------------------------------------------
// Probe evidence
// ---------------------------------------------------------------------------

/// What was read of one run directory for probe evidence.
pub struct ProbeRun {
    pub run_id: String,
    /// The plan's items, each its operations; none when `plan.json` is unreadable.
    pub plan: Option<Vec<Vec<PlannedOperation>>>,
    pub settlement: Option<SettlementRecord>,
}

/// The endpoints probed by operations, in order.
pub open spec fn op_probes(ops: Seq<PlannedOperation>) -> Seq<Seq<char>>
    decreases ops.len(),
{
    if ops.len() == 0 {
        Seq::empty()
    } else {
        let rest = op_probes(ops.drop_last());
        match ops.last() {
            PlannedOperation::AgentProbe(e) => rest.push(e@),
            _ => rest,
        }
    }
}

/// The endpoints a plan probes, item by item.
pub open spec fn plan_probes(items: Seq<Vec<PlannedOperation>>) -> Seq<Seq<char>>
    decreases items.len(),
{
    if items.len() == 0 {
        Seq::empty()
    } else {
        plan_probes(items.drop_last()) + op_probes(items.last()@)
    }
}

/// A settled run whose plan probes the endpoint.
pub open spec fn probes_endpoint(r: ProbeRun, endpoint: Seq<char>) -> bool {
    &&& r.settlement is Some
    &&& match r.plan {
        Some(items) => plan_probes(items@).contains(endpoint),
        None => false,
    }
}

/// The order of probe evidence: settlement time, then run id.
pub open spec fn probe_key(r: ProbeRun) -> (Seq<char>, Seq<char>) {
    (r.settlement->0.settled_at@, r.run_id@)
}

/// The most recent settled probe of an endpoint, by settlement time then run
/// id; of runs with equal keys, the first.
pub open spec fn latest_probe(runs: Seq<ProbeRun>, endpoint: Seq<char>) -> Option<ProbeRun>
    decreases runs.len(),
{
    if runs.len() == 0 {
        None
    } else {
        let prev = latest_probe(runs.drop_last(), endpoint);
        let r = runs.last();
        if probes_endpoint(r, endpoint) && (prev is None || pair_lt(probe_key(prev->0), probe_key(r))) {
            Some(r)
        } else {
            prev
        }
    }
}

fn ops_probe(ops: &Vec<PlannedOperation>, endpoint: &str) -> (r: bool)
    ensures
        r == op_probes(ops@).contains(endpoint@),
{
    let ghost mut seen: Seq<Seq<char>> = Seq::empty();
    let mut i: usize = 0;
    while i < ops.len()
        invariant
            i <= ops@.len(),
            seen == op_probes(ops@.subrange(0, i as int)),
            !seen.contains(endpoint@),
        decreases ops@.len() - i,
    {
        proof {
            assert(ops@.subrange(0, i + 1).drop_last() =~= ops@.subrange(0, i as int));
        }
        match &ops[i] {
            PlannedOperation::AgentProbe(e) => {
                if str_eq(e.as_str(), endpoint) {
                    proof {
                        lemma_op_probes_prefix(ops@, i as int + 1);
                        assert(op_probes(ops@.subrange(0, i + 1)) == seen.push(e@));
                        assert(seen.push(e@)[seen.len() as int] == endpoint@);
                    }
                    return true;
                }
                proof {
                    seen = seen.push(e@);
                }
            },
            _ => {},
        }
        i += 1;
    }
    proof {
        assert(ops@.subrange(0, ops@.len() as int) =~= ops@);
    }
    false
}

/// The probes of a prefix are a prefix of the probes.
proof fn lemma_op_probes_prefix(ops: Seq<PlannedOperation>, k: int)
    requires
        0 <= k <= ops.len(),
    ensures
        op_probes(ops.subrange(0, k)).len() <= op_probes(ops).len(),
        forall|j: int| 0 <= j < op_probes(ops.subrange(0, k)).len() ==> op_probes(ops)[j] == #[trigger] op_probes(ops.subrange(0, k))[j],
    decreases ops.len() - k,
{
    if k == ops.len() {
        assert(ops.subrange(0, k) =~= ops);
    } else {
        assert(ops.subrange(0, k + 1).drop_last() =~= ops.subrange(0, k));
        lemma_op_probes_prefix(ops, k + 1);
        let a = op_probes(ops.subrange(0, k));
        let b = op_probes(ops.subrange(0, k + 1));
        assert forall|j: int| 0 <= j < a.len() implies b[j] == #[trigger] a[j] by {}
        assert forall|j: int| 0 <= j < a.len() implies op_probes(ops)[j] == #[trigger] a[j] by {
            assert(b[j] == a[j]);
        }
    }
}

proof fn lemma_plan_probes_prefix(items: Seq<Vec<PlannedOperation>>, k: int)
    requires
        0 <= k <= items.len(),
    ensures
        plan_probes(items.subrange(0, k)).len() <= plan_probes(items).len(),
        forall|j: int| 0 <= j < plan_probes(items.subrange(0, k)).len() ==> plan_probes(items)[j] == #[trigger] plan_probes(items.subrange(0, k))[j],
    decreases items.len() - k,
{
    if k == items.len() {
        assert(items.subrange(0, k) =~= items);
    } else {
        assert(items.subrange(0, k + 1).drop_last() =~= items.subrange(0, k));
        lemma_plan_probes_prefix(items, k + 1);
        let a = plan_probes(items.subrange(0, k));
        let b = plan_probes(items.subrange(0, k + 1));
        assert(b == a + op_probes(items[k]@));
        assert forall|j: int| 0 <= j < a.len() implies plan_probes(items)[j] == #[trigger] a[j] by {
            assert(b[j] == a[j]);
        }
    }
}

fn plan_probes_endpoint(items: &Vec<Vec<PlannedOperation>>, endpoint: &str) -> (r: bool)
    ensures
        r == plan_probes(items@).contains(endpoint@),
{
    let mut i: usize = 0;
    while i < items.len()
        invariant
            i <= items@.len(),
            !plan_probes(items@.subrange(0, i as int)).contains(endpoint@),
        decreases items@.len() - i,
    {
        proof {
            assert(items@.subrange(0, i + 1).drop_last() =~= items@.subrange(0, i as int));
        }
        let ghost before = plan_probes(items@.subrange(0, i as int));
        if ops_probe(&items[i], endpoint) {
            proof {
                let now = plan_probes(items@.subrange(0, i + 1));
                assert(now == before + op_probes(items@[i as int]@));
                let k = choose|k: int| 0 <= k < op_probes(items@[i as int]@).len() && op_probes(items@[i as int]@)[k] == endpoint@;
                assert(now[before.len() + k] == endpoint@);
                lemma_plan_probes_prefix(items@, i as int + 1);
                assert(plan_probes(items@)[before.len() + k] == endpoint@);
            }
            return true;
        }
        proof {
            let now = plan_probes(items@.subrange(0, i + 1));
            assert(now == before + op_probes(items@[i as int]@));
            assert forall|x: int| 0 <= x < now.len() implies now[x] != endpoint@ by {
                if x >= before.len() {
                    assert(now[x] == op_probes(items@[i as int]@)[x - before.len()]);
                }
            }
        }
        i += 1;
    }
    proof {
        assert(items@.subrange(0, items@.len() as int) =~= items@);
    }
    false
}

fn probes_endpoint_exec(r: &ProbeRun, endpoint: &str) -> (b: bool)
    ensures
        b == probes_endpoint(*r, endpoint@),
{
    if r.settlement.is_none() {
        return false;
    }
    match &r.plan {
        Some(items) => plan_probes_endpoint(items, endpoint),
        None => false,
    }
}

pub open spec fn opt_run(r: Option<&ProbeRun>) -> Option<ProbeRun> {
    match r {
        Some(x) => Some(*x),
        None => None,
    }
}

/// The latest probe is a settled probe of the endpoint.
proof fn lemma_latest_probe_probes(runs: Seq<ProbeRun>, endpoint: Seq<char>)
    ensures
        latest_probe(runs, endpoint) matches Some(p) ==> probes_endpoint(p, endpoint),
    decreases runs.len(),
{
    if runs.len() > 0 {
        lemma_latest_probe_probes(runs.drop_last(), endpoint);
    }
}

fn latest_probe_exec<'a>(runs: &'a Vec<ProbeRun>, endpoint: &str) -> (r: Option<&'a ProbeRun>)
    ensures
        opt_run(r) == latest_probe(runs@, endpoint@),
{
    let mut best: Option<&ProbeRun> = None;
    let mut i: usize = 0;
    while i < runs.len()
        invariant
            i <= runs@.len(),
            opt_run(best) == latest_probe(runs@.subrange(0, i as int), endpoint@),
            best is Some ==> best->0.settlement is Some,
        decreases runs@.len() - i,
    {
        proof {
            assert(runs@.subrange(0, i + 1).drop_last() =~= runs@.subrange(0, i as int));
        }
        let r = &runs[i];
        if probes_endpoint_exec(r, endpoint) {
            let s = match &r.settlement {
                Some(s) => s,
                None => {
                    return None;
                },
            };
            let replace = match best {
                None => true,
                Some(b) => match &b.settlement {
                    Some(bs) => crate::order::pair_lt_exec(
                        (bs.settled_at.as_str(), b.run_id.as_str()),
                        (s.settled_at.as_str(), r.run_id.as_str()),
                    ),
                    None => false,
                },
            };
            if replace {
                best = Some(r);
            }
        }
        i += 1;
    }
    proof {
        assert(runs@.subrange(0, runs@.len() as int) =~= runs@);
    }
    best
}

// ---------------------------------------------------------------------------
// The extension registry
// ---------------------------------------------------------------------------

/// An extension's lifecycle status.
#[derive(Clone, Copy, Debug, PartialEq, Eq, Structural)]
pub enum ExtensionStatus {
    Active,
    Disabled,
    Quarantined,
    Superseded,
}

pub open spec fn extension_word_of(s: ExtensionStatus) -> Seq<char> {
    match s {
        ExtensionStatus::Active => "active"@,
        ExtensionStatus::Disabled => "disabled"@,
        ExtensionStatus::Quarantined => "quarantined"@,
        ExtensionStatus::Superseded => "superseded"@,
    }
}

pub fn extension_word(s: ExtensionStatus) -> (r: &'static str)
    ensures
        r@ == extension_word_of(s),
{
    match s {
        ExtensionStatus::Active => "active",
        ExtensionStatus::Disabled => "disabled",
        ExtensionStatus::Quarantined => "quarantined",
        ExtensionStatus::Superseded => "superseded",
    }
}

/// One entry of the extension registry.
pub struct ExtensionEntry {
    pub extension_id: String,
    pub version: String,
    pub status: ExtensionStatus,
    /// The entry's trust level is quarantined.
    pub trust_quarantined: bool,
    pub descriptor_sha256: String,
    pub authority_ref: Option<String>,
}

/// Agent endpoints are registered as extensions under this prefix.
pub open spec fn endpoint_prefix() -> Seq<char> {
    "agent_endpoint_"@
}

/// The registration of an endpoint as a runtime adapter, with its authority
/// reference: the last registry entry naming it.
pub open spec fn registration(entries: Seq<ExtensionEntry>, endpoint: Seq<char>) -> Option<Option<Seq<char>>>
    decreases entries.len(),
{
    if entries.len() == 0 {
        None
    } else if entries.last().extension_id@ == endpoint_prefix() + endpoint {
        Some(opt_string_view(entries.last().authority_ref))
    } else {
        registration(entries.drop_last(), endpoint)
    }
}

fn registration_exec(entries: &Vec<ExtensionEntry>, endpoint: &str) -> (r: Option<Option<String>>)
    ensures
        (match r {
            Some(a) => Some(opt_string_view(a)),
            None => None::<Option<Seq<char>>>,
        }) == registration(entries@, endpoint@),
{
    let name = concat2("agent_endpoint_", endpoint);
    let mut found: Option<Option<String>> = None;
    let mut i: usize = 0;
    while i < entries.len()
        invariant
            i <= entries@.len(),
            name@ == endpoint_prefix() + endpoint@,
            (match found {
                Some(a) => Some(opt_string_view(a)),
                None => None::<Option<Seq<char>>>,
            }) == registration(entries@.subrange(0, i as int), endpoint@),
        decreases entries@.len() - i,
    {
        proof {
            assert(entries@.subrange(0, i + 1).drop_last() =~= entries@.subrange(0, i as int));
        }
        if str_eq(entries[i].extension_id.as_str(), name.as_str()) {
            found = Some(entries[i].authority_ref.clone());
        }
        i += 1;
    }
    proof {
        assert(entries@.subrange(0, entries@.len() as int) =~= entries@);
    }
    found
}

// ---------------------------------------------------------------------------
// Agent endpoints
// ---------------------------------------------------------------------------

/// A configured agent endpoint: its id and what snapshotting its
/// configuration gave (the descriptor digest, or why it is invalid).
pub struct EndpointConfig {
    pub id: String,
    pub snapshot: Result<String, String>,
}

/// Why a rejected or escalated probe blocks the endpoint.
pub open spec fn probe_blocking(status: SettlementStatus, basis: Seq<Seq<char>>) -> Seq<char> {
    "last probe settled "@ + settlement_word_of(status) + ": "@ + if basis.len() == 0 {
        "no basis recorded"@
    } else {
        joined(basis, ", "@)
    }
}

/// The row of an agent endpoint. Its standing climbs only on evidence: a
/// registration as a runtime adapter makes it probed, an accepted probe
/// demonstrated; a probe that was not accepted leaves it probed and blocks
/// it, unless invalid configuration already does.
pub open spec fn endpoint_row(e: EndpointConfig, entries: Seq<ExtensionEntry>, runs: Seq<ProbeRun>) -> AssetView {
    let reg = registration(entries, e.id@);
    let probe = latest_probe(runs, e.id@);
    let config_block = match e.snapshot {
        Ok(_) => None,
        Err(m) => Some("endpoint configuration is invalid: "@ + m@),
    };
    let reg_refs = match reg {
        Some(Some(a)) => seq![a],
        _ => Seq::empty(),
    };
    AssetView {
        asset_id: "agent_endpoint:"@ + e.id@,
        kind: AssetKind::AgentEndpoint,
        name: e.id@,
        version: None,
        standing: match probe {
            Some(p) => if p.settlement->0.status == SettlementStatus::Accepted {
                "demonstrated"@
            } else {
                "probed"@
            },
            None => if reg is Some {
                "probed"@
            } else {
                "declared"@
            },
        },
        identity_digest: match e.snapshot {
            Ok(d) => Some(d@),
            Err(_) => None,
        },
        evidence_refs: match probe {
            Some(p) => reg_refs.push("run:"@ + p.run_id@),
            None => reg_refs,
        },
        blocking_reason: match probe {
            Some(p) => if p.settlement->0.status != SettlementStatus::Accepted && config_block is None {
                Some(probe_blocking(p.settlement->0.status, strings_view(p.settlement->0.basis@)))
            } else {
                config_block
            },
            None => config_block,
        },
    }
}

fn endpoint_row_exec(e: &EndpointConfig, entries: &Vec<ExtensionEntry>, runs: &Vec<ProbeRun>) -> (r: AssetRow)
    ensures
        asset_view(r) == endpoint_row(*e, entries@, runs@),
{
    let reg = registration_exec(entries, e.id.as_str());
    let probe = latest_probe_exec(runs, e.id.as_str());
    proof {
        lemma_latest_probe_probes(runs@, e.id@);
    }
    let (identity_digest, mut blocking_reason) = match &e.snapshot {
        Ok(d) => (Some(d.clone()), None),
        Err(m) => (None, Some(concat2("endpoint configuration is invalid: ", m.as_str()))),
    };
    let mut evidence_refs: Vec<String> = Vec::new();
    let mut standing: &'static str = ENDPOINT_DECLARED;
    match &reg {
        Some(a) => {
            standing = ENDPOINT_PROBED;
            match a {
                Some(x) => evidence_refs.push(x.clone()),
                None => {},
            }
        },
        None => {},
    }
    proof {
        let want = match registration(entries@, e.id@) {
            Some(Some(a)) => seq![a],
            _ => Seq::<Seq<char>>::empty(),
        };
        assert(strings_view(evidence_refs@) =~= want);
    }
    let ghost refs0 = strings_view(evidence_refs@);
    match probe {
        Some(p) => {
            evidence_refs.push(concat2("run:", p.run_id.as_str()));
            proof {
                assert(strings_view(evidence_refs@) =~= refs0.push("run:"@ + p.run_id@));
            }
            match &p.settlement {
                Some(s) => match s.status {
                    SettlementStatus::Accepted => standing = ENDPOINT_DEMONSTRATED,
                    _ => {
                        standing = ENDPOINT_PROBED;
                        if blocking_reason.is_none() {
                            let detail = if s.basis.len() == 0 {
                                owned("no basis recorded")
                            } else {
                                join_exec(&s.basis, ", ")
                            };
                            let mut m = concat3("last probe settled ", settlement_word(s.status), ": ");
                            m.append(detail.as_str());
                            blocking_reason = Some(m);
                        }
                    },
                },
                None => {},
            }
        },
        None => {},
    }
    let row = AssetRow {
        asset_id: concat2("agent_endpoint:", e.id.as_str()),
        kind: AssetKind::AgentEndpoint,
        name: e.id.clone(),
        version: None,
        standing: owned(standing),
        identity_digest,
        evidence_refs,
        blocking_reason,
    };
    proof {
        let want = endpoint_row(*e, entries@, runs@);
        let got = asset_view(row);
        assert(got.asset_id == want.asset_id);
        assert(got.standing == want.standing);
        assert(got.identity_digest == want.identity_digest);
        assert(got.evidence_refs == want.evidence_refs);
        assert(got.blocking_reason == want.blocking_reason);
    }
    row
}

// ---------------------------------------------------------------------------
// Extensions
// ---------------------------------------------------------------------------

/// The row of a registry entry: quarantined trust blocks it, as does any
/// status but active.
pub open spec fn extension_row(x: ExtensionEntry) -> AssetView {
    AssetView {
        asset_id: "extension:"@ + x.extension_id@ + "@"@ + x.version@,
        kind: AssetKind::Extension,
        name: x.extension_id@,
        version: Some(x.version@),
        standing: extension_word_of(x.status),
        identity_digest: Some(x.descriptor_sha256@),
        evidence_refs: match x.authority_ref {
            Some(a) => seq![a@],
            None => Seq::empty(),
        },
        blocking_reason: if x.trust_quarantined {
            Some("extension trust level is quarantined"@)
        } else if x.status == ExtensionStatus::Active {
            None
        } else {
            Some("extension status is "@ + extension_word_of(x.status))
        },
    }
}

/// The registry's extensions, without the agent endpoints registered there
/// (those are listed with their probe evidence).
pub open spec fn extension_rows(entries: Seq<ExtensionEntry>) -> Seq<AssetView>
    decreases entries.len(),
{
    if entries.len() == 0 {
        Seq::empty()
    } else {
        let rest = extension_rows(entries.drop_last());
        if starts_with(entries.last().extension_id@, endpoint_prefix()) {
            rest
        } else {
            rest.push(extension_row(entries.last()))
        }
    }
}

fn extension_row_exec(x: &ExtensionEntry) -> (r: AssetRow)
    ensures
        asset_view(r) == extension_row(*x),
{
    let mut id = concat3("extension:", x.extension_id.as_str(), "@");
    id.append(x.version.as_str());
    let mut refs: Vec<String> = Vec::new();
    match &x.authority_ref {
        Some(a) => refs.push(a.clone()),
        None => {},
    }
    proof {
        assert(strings_view(refs@) =~= extension_row(*x).evidence_refs);
    }
    let blocking_reason = if x.trust_quarantined {
        Some(owned("extension trust level is quarantined"))
    } else if matches!(x.status, ExtensionStatus::Active) {
        None
    } else {
        Some(concat2("extension status is ", extension_word(x.status)))
    };
    AssetRow {
        asset_id: id,
        kind: AssetKind::Extension,
        name: x.extension_id.clone(),
        version: Some(x.version.clone()),
        standing: owned(extension_word(x.status)),
        identity_digest: Some(x.descriptor_sha256.clone()),
        evidence_refs: refs,
        blocking_reason,
    }
}

// ---------------------------------------------------------------------------
// asset.list
// ---------------------------------------------------------------------------

/// Everything the asset list reads of a cell.
pub struct AssetSources {
    /// The `templates/*.yaml` files.
    pub templates: Vec<TemplateFile>,
    /// The configured agent endpoints.
    pub endpoints: Vec<EndpointConfig>,
    /// The run directories, for probe evidence.
    pub runs: Vec<ProbeRun>,
    /// The extension registry's entries; none when it could not be read.
    pub registry: Option<Vec<ExtensionEntry>>,
}

pub open spec fn registry_entries(registry: Option<Vec<ExtensionEntry>>) -> Seq<ExtensionEntry> {
    match registry {
        Some(v) => v@,
        None => Seq::empty(),
    }
}

/// All rows, family by family: templates, endpoints, extensions.
pub open spec fn asset_rows(src: AssetSources) -> Seq<AssetView> {
    let entries = registry_entries(src.registry);
    src.templates@.map_values(|f: TemplateFile| template_row(f)) + src.endpoints@.map_values(
        |e: EndpointConfig| endpoint_row(e, entries, src.runs@),
    ) + extension_rows(entries)
}

/// The sources that exist but could not be read.
pub open spec fn unreadable_sources(src: AssetSources) -> Seq<Seq<char>> {
    template_unreadable(src.templates@) + if src.registry is None {
        seq!["extension_registry"@]
    } else {
        Seq::empty()
    }
}

pub open spec fn rows_view(v: Seq<AssetRow>) -> Seq<AssetView> {
    v.map_values(|a: AssetRow| asset_view(a))
}

fn clone_asset(a: &AssetRow) -> (r: AssetRow)
    ensures
        asset_view(r) == asset_view(*a),
{
    AssetRow {
        asset_id: a.asset_id.clone(),
        kind: a.kind,
        name: a.name.clone(),
        version: a.version.clone(),
        standing: a.standing.clone(),
        identity_digest: a.identity_digest.clone(),
        evidence_refs: crate::envelope::clone_strings(&a.evidence_refs),
        blocking_reason: a.blocking_reason.clone(),
    }
}

fn collect_rows(src: &AssetSources) -> (r: (Vec<AssetRow>, Vec<String>))
    ensures
        rows_view(r.0@) == asset_rows(*src),
        strings_view(r.1@) == unreadable_sources(*src),
{
    let mut rows: Vec<AssetRow> = Vec::new();
    let mut unreadable: Vec<String> = Vec::new();
    let ghost tv = src.templates@.map_values(|f: TemplateFile| template_row(f));
    let mut i: usize = 0;
    while i < src.templates.len()
        invariant
            i <= src.templates@.len(),
            tv == src.templates@.map_values(|f: TemplateFile| template_row(f)),
            rows_view(rows@) == tv.subrange(0, i as int),
            strings_view(unreadable@) == template_unreadable(src.templates@.subrange(0, i as int)),
        decreases src.templates@.len() - i,
    {
        proof {
            assert(src.templates@.subrange(0, i + 1).drop_last() =~= src.templates@.subrange(0, i as int));
        }
        let ghost r0 = rows_view(rows@);
        let ghost u0 = strings_view(unreadable@);
        let f = &src.templates[i];
        let row = template_row_exec(f);
        rows.push(row);
        match &f.loaded {
            Ok(_) => {},
            Err(_) => {
                unreadable.push(concat2("template:", f.stem.as_str()));
            },
        }
        proof {
            assert(rows_view(rows@) =~= r0.push(tv[i as int]));
            assert(tv.subrange(0, i + 1) =~= tv.subrange(0, i as int).push(tv[i as int]));
            match f.loaded {
                Ok(_) => assert(strings_view(unreadable@) =~= u0),
                Err(_) => assert(strings_view(unreadable@) =~= u0.push("template:"@ + f.stem@)),
            }
        }
        i += 1;
    }
    proof {
        assert(tv.subrange(0, tv.len() as int) =~= tv);
        assert(src.templates@.subrange(0, src.templates@.len() as int) =~= src.templates@);
    }
    let empty: Vec<ExtensionEntry> = Vec::new();
    let entries: &Vec<ExtensionEntry> = match &src.registry {
        Some(v) => v,
        None => &empty,
    };
    let ghost ev = src.endpoints@.map_values(|e: EndpointConfig| endpoint_row(e, entries@, src.runs@));
    let ghost before = rows_view(rows@);
    let mut j: usize = 0;
    while j < src.endpoints.len()
        invariant
            j <= src.endpoints@.len(),
            ev == src.endpoints@.map_values(|e: EndpointConfig| endpoint_row(e, entries@, src.runs@)),
            rows_view(rows@) == before + ev.subrange(0, j as int),
        decreases src.endpoints@.len() - j,
    {
        let ghost r0 = rows_view(rows@);
        let row = endpoint_row_exec(&src.endpoints[j], entries, &src.runs);
        rows.push(row);
        proof {
            assert(rows_view(rows@) =~= r0.push(ev[j as int]));
            assert(before + ev.subrange(0, j + 1) =~= (before + ev.subrange(0, j as int)).push(ev[j as int]));
        }
        j += 1;
    }
    proof {
        assert(ev.subrange(0, ev.len() as int) =~= ev);
        assert(entries@ == registry_entries(src.registry));
    }
    let ghost before2 = rows_view(rows@);
    let mut k: usize = 0;
    while k < entries.len()
        invariant
            k <= entries@.len(),
            rows_view(rows@) == before2 + extension_rows(entries@.subrange(0, k as int)),
        decreases entries@.len() - k,
    {
        proof {
            assert(entries@.subrange(0, k + 1).drop_last() =~= entries@.subrange(0, k as int));
        }
        let ghost r0 = rows_view(rows@);
        let x = &entries[k];
        if !starts_with_exec(x.extension_id.as_str(), "agent_endpoint_") {
            let row = extension_row_exec(x);
            rows.push(row);
            proof {
                assert(rows_view(rows@) =~= r0.push(extension_row(*x)));
            }
        }
        proof {
            let xs = extension_rows(entries@.subrange(0, k as int));
            if !starts_with(x.extension_id@, endpoint_prefix()) {
                assert(before2 + extension_rows(entries@.subrange(0, k + 1)) =~= (before2 + xs).push(extension_row(*x)));
            }
        }
        k += 1;
    }
    proof {
        assert(entries@.subrange(0, entries@.len() as int) =~= entries@);
    }
    let ghost u1 = strings_view(unreadable@);
    if src.registry.is_none() {
        unreadable.push(owned("extension_registry"));
        proof {
            assert(strings_view(unreadable@) =~= u1 + seq!["extension_registry"@]);
        }
    } else {
        proof {
            assert(strings_view(unreadable@) =~= u1 + Seq::<Seq<char>>::empty());
        }
    }
    (rows, unreadable)
}

/// The asset list of a cell: every template, configured endpoint and
/// registry extension (endpoint registrations excepted), ordered by asset
/// id; and the sources that could not be read, ascending.
pub fn list(src: &AssetSources) -> (r: AssetListResult)
    ensures
        exists|order: Seq<usize>| {
            &&& #[trigger] crate::order::is_index_permutation(order, asset_rows(*src).len())
            &&& crate::order::ordered_by(
                asset_rows(*src).map_values(|v: AssetView| (v.asset_id, Seq::<char>::empty())),
                order,
                false,
            )
            &&& rows_view(r.assets@) == order.map_values(|i: usize| asset_rows(*src)[i as int])
        },
        exists|order: Seq<usize>| {
            &&& #[trigger] crate::order::is_index_permutation(order, unreadable_sources(*src).len())
            &&& crate::order::ordered_by(
                unreadable_sources(*src).map_values(|n: Seq<char>| (n, Seq::<char>::empty())),
                order,
                false,
            )
            &&& strings_view(r.unreadable@) == order.map_values(|i: usize| unreadable_sources(*src)[i as int])
        },
{
    let (rows, names) = collect_rows(src);
    let ghost rv = rows_view(rows@);
    let mut keys: Vec<(String, String)> = Vec::new();
    let mut k: usize = 0;
    while k < rows.len()
        invariant
            k <= rows@.len(),
            keys@.len() == k,
            forall|j: int| 0 <= j < k ==> (#[trigger] keys@[j]).0@ == rows@[j].asset_id@ && keys@[j].1@ == Seq::<char>::empty(),
        decreases rows@.len() - k,
    {
        keys.push((rows[k].asset_id.clone(), String::new()));
        k += 1;
    }
    proof {
        assert(crate::order::pairs_view(keys@) =~= rv.map_values(|v: AssetView| (v.asset_id, Seq::<char>::empty())));
    }
    let order = crate::order::order_by_pairs(&keys, false);
    let mut assets: Vec<AssetRow> = Vec::new();
    let mut t: usize = 0;
    while t < order.len()
        invariant
            crate::order::is_index_permutation(order@, rows@.len()),
            t <= order@.len(),
            assets@.len() == t,
            forall|j: int| 0 <= j < t ==> asset_view(#[trigger] assets@[j]) == rv[order@[j] as int],
            rv == rows_view(rows@),
        decreases order@.len() - t,
    {
        assets.push(clone_asset(&rows[order[t]]));
        t += 1;
    }
    proof {
        assert(rows_view(assets@) =~= order@.map_values(|i: usize| rv[i as int]));
    }
    let ghost nv = strings_view(names@);
    let mut nkeys: Vec<(String, String)> = Vec::new();
    let mut k: usize = 0;
    while k < names.len()
        invariant
            k <= names@.len(),
            nkeys@.len() == k,
            forall|j: int| 0 <= j < k ==> (#[trigger] nkeys@[j]).0@ == names@[j]@ && nkeys@[j].1@ == Seq::<char>::empty(),
        decreases names@.len() - k,
    {
        nkeys.push((names[k].clone(), String::new()));
        k += 1;
    }
    proof {
        assert(crate::order::pairs_view(nkeys@) =~= nv.map_values(|n: Seq<char>| (n, Seq::<char>::empty())));
    }
    let norder = crate::order::order_by_pairs(&nkeys, false);
    let mut unreadable: Vec<String> = Vec::new();
    let mut t: usize = 0;
    while t < norder.len()
        invariant
            crate::order::is_index_permutation(norder@, names@.len()),
            t <= norder@.len(),
            unreadable@.len() == t,
            forall|j: int| 0 <= j < t ==> (#[trigger] unreadable@[j])@ == nv[norder@[j] as int],
            nv == strings_view(names@),
        decreases norder@.len() - t,
    {
        unreadable.push(names[norder[t]].clone());
        t += 1;
    }
    proof {
        assert(strings_view(unreadable@) =~= norder@.map_values(|i: usize| nv[i as int]));
    }
    AssetListResult { assets, unreadable }
}

// ---------------------------------------------------------------------------
// Laws
// ---------------------------------------------------------------------------

/// A cell with no templates, no endpoints and an empty registry lists
/// nothing and reports nothing unreadable: no built-in catalog is invented.
pub proof fn law_an_empty_cell_lists_nothing(src: AssetSources)
    requires
        src.templates@.len() == 0,
        src.endpoints@.len() == 0,
        src.registry matches Some(v) && v@.len() == 0,
    ensures
        asset_rows(src).len() == 0,
        unreadable_sources(src).len() == 0,
{
    assert(src.templates@.map_values(|f: TemplateFile| template_row(f)) =~= Seq::<AssetView>::empty());
    assert(src.endpoints@.map_values(|e: EndpointConfig| endpoint_row(e, registry_entries(src.registry), src.runs@))
        =~= Seq::<AssetView>::empty());
}

/// An endpoint's latest probe decides its rung: accepted, demonstrated;
/// otherwise probed and not offered for work.
pub proof fn law_probe_evidence_decides_the_rung(e: EndpointConfig, entries: Seq<ExtensionEntry>, runs: Seq<ProbeRun>)
    requires
        latest_probe(runs, e.id@) is Some,
    ensures
        ({
            let p = latest_probe(runs, e.id@)->0;
            let row = endpoint_row(e, entries, runs);
            &&& p.settlement->0.status == SettlementStatus::Accepted ==> row.standing == "demonstrated"@
            &&& p.settlement->0.status != SettlementStatus::Accepted ==> row.standing == "probed"@ && row.blocking_reason is Some
        }),
{
}

/// Endpoint registrations in the registry are never listed as extensions:
/// one endpoint never shows two standings.
pub proof fn law_registrations_are_not_extensions(entries: Seq<ExtensionEntry>)
    ensures
        forall|i: int| 0 <= i < extension_rows(entries).len() ==> !starts_with(
            #[trigger] extension_rows(entries)[i].name,
            endpoint_prefix(),
        ),
    decreases entries.len(),
{
    if entries.len() > 0 {
        law_registrations_are_not_extensions(entries.drop_last());
        let rest = extension_rows(entries.drop_last());
        assert forall|i: int| 0 <= i < extension_rows(entries).len() implies !starts_with(
            #[trigger] extension_rows(entries)[i].name,
            endpoint_prefix(),
        ) by {
            if i < rest.len() {
                assert(extension_rows(entries)[i] == rest[i]);
            }
        }
    }
}

} // verus!
