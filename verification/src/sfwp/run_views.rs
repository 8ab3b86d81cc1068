//! Read-only projections of run records: the run list and one run's linked
//! record. Termination is read off the run's trace and settlement off its
//! settlement record; the declared criteria are paired with the settlement's
//! own basis tokens, never re-judged.
use vstd::prelude::*;
use crate::envelope::{strings_view, opt_string_view};
use crate::json::{Json, JsonView, get_opt, as_str, jget, jget_opt, jstr};
use crate::text::{owned, str_eq, concat2, concat3, starts_with, starts_with_exec};
use crate::envelope::contains_string;
use crate::sfwp::case_views::SettlementRecord;
use crate::governed_settlement_return::SettlementStatus;
use crate::sfwp::case_views::{ExecutionStanding, SettlementStanding, standing_of, settlement_standing};
use vstd::string::StrSliceExecFns;

verus! {

/// The canonical per-run record files, in reading order.
pub open spec fn run_record_files() -> Seq<Seq<char>> {
    seq![
        "plan.json"@,
        "criteria.json"@,
        "authority.json"@,
        "trace.jsonl"@,
        "evidence.jsonl"@,
        "settlement.json"@,
        "declarations.jsonl"@,
        "semantic-envelope.json"@,
        "transcript-evidence.json"@,
    ]
}

pub fn run_record_files_exec() -> (r: Vec<&'static str>)
    ensures
        crate::governed_execution_boundary::static_strs_view(r@) == run_record_files(),
{
    let mut v: Vec<&'static str> = Vec::new();
    v.push("plan.json");
    v.push("criteria.json");
    v.push("authority.json");
    v.push("trace.jsonl");
    v.push("evidence.jsonl");
    v.push("settlement.json");
    v.push("declarations.jsonl");
    v.push("semantic-envelope.json");
    v.push("transcript-evidence.json");
    proof {
        assert(crate::governed_execution_boundary::static_strs_view(v@) =~= run_record_files());
    }
    v
}

/// How the execution episode ended.
pub struct RunTermination {
    pub trace_kind: String,
    pub exit_code: Option<i64>,
    pub execution_status: Option<String>,
    pub at: String,
}

/// One row of the run's evidence journal.
pub struct EvidenceRow {
    pub evidence_id: String,
    pub kind: String,
    pub uri: String,
    pub sha256: Option<String>,
    pub source_event_id: String,
}

/// The authority decision that gated a run.
pub struct AuthorityProjection {
    pub decision_id: String,
    pub verdict: String,
    pub normalized_disposition: String,
    pub reason: String,
    pub reason_codes: Vec<String>,
    pub matched_rule: Option<String>,
    pub policy_refs: Vec<String>,
    pub required_next_steps: Vec<String>,
    pub decided_at: String,
}

/// Whether the settlement record judged a declared criterion satisfied.
#[derive(Clone, Copy, Debug, PartialEq, Eq, Structural)]
pub enum CriterionStanding {
    Satisfied,
    Unsatisfied,
    /// Recorded as evidence (an evaluator score), never pass/fail.
    Recorded,
    /// The settlement said nothing deciding it; never assumed satisfied.
    Unavailable,
}

/// One declared criterion paired with what the settlement said about it.
pub struct CriterionCheck {
    pub criterion: String,
    pub expected: String,
    pub standing: CriterionStanding,
    /// The basis token(s) that decided the row.
    pub basis: Vec<String>,
}

/// The settlement record, projected.
pub struct SettlementDetail {
    pub settlement_id: String,
    pub status: SettlementStanding,
    pub basis: Vec<String>,
    pub review_required: bool,
    pub settled_at: String,
    pub criteria_ref: Option<String>,
}

/// One settlement declaration, projected.
pub struct DeclarationRow {
    pub declaration_id: String,
    pub status: String,
    pub strength: String,
    pub qualifies_for_capability: bool,
    pub declarer_actor_id: String,
    pub declarer_role: String,
    pub independent: bool,
    pub reliability_weight: String,
    pub issued_at: String,
}

/// Whether a canonical run-record file was present.
pub struct RecordPresence {
    pub record: String,
    pub present: bool,
    pub bytes: Option<u64>,
}

/// One row of `run.list`.
pub struct RunSummary {
    pub run_id: String,
    pub case_id: Option<String>,
    pub plan_item_id: Option<String>,
    pub execution: ExecutionStanding,
    pub settlement: SettlementStanding,
    pub started_at: Option<String>,
    pub finished_at: Option<String>,
    pub evidence_count: usize,
}

/// `run.list` result body.
pub struct RunListResult {
    /// Newest first.
    pub runs: Vec<RunSummary>,
    pub unreadable: Vec<String>,
}

/// Why a run view could not be produced.
pub enum RunViewError {
    NotFound(String),
    Unreadable(String),
}

impl RunViewError {
    pub fn class(&self) -> (r: &'static str)
        ensures
            r@ == (match self {
                RunViewError::NotFound(_) => "not_found"@,
                RunViewError::Unreadable(_) => "record_unreadable"@,
            }),
    {
        match self {
            RunViewError::NotFound(_) => "not_found",
            RunViewError::Unreadable(_) => "record_unreadable",
        }
    }

    pub fn message(&self) -> (r: String)
        ensures
            r@ == (match self {
                RunViewError::NotFound(id) => "no run record for "@ + id@,
                RunViewError::Unreadable(detail) => detail@,
            }),
    {
        match self {
            RunViewError::NotFound(id) => concat2("no run record for ", id.as_str()),
            RunViewError::Unreadable(detail) => detail.clone(),
        }
    }
}

/// Run ids address a directory: only ASCII letters, digits, `-` and `_`,
/// 1 to 128 of them.
pub fn valid_run_id(run_id: &str) -> (r: bool)
    ensures
        r == crate::sfwp::case_views::is_case_id(run_id@),
{
    crate::sfwp::case_views::valid_case_id(run_id)
}

/// `root` joined with `runs` and the run id, for a valid run id.
pub open spec fn run_dir_of(root: Seq<char>, run_id: Seq<char>) -> Option<Seq<char>> {
    if crate::sfwp::case_views::is_case_id(run_id) {
        Some(
            if root.len() == 0 || root.last() == '/' {
                root + "runs/"@ + run_id
            } else {
                root + "/runs/"@ + run_id
            },
        )
    } else {
        None
    }
}

pub fn run_dir(root: &str, run_id: &str) -> (r: Option<String>)
    ensures
        opt_string_view(r) == run_dir_of(root@, run_id@),
{
    if !valid_run_id(run_id) {
        return None;
    }
    let n = root.unicode_len();
    let mut p = if n == 0 || root.get_char(n - 1) == '/' {
        concat2(root, "runs/")
    } else {
        concat2(root, "/runs/")
    };
    p.append(run_id);
    Some(p)
}

// ---------------------------------------------------------------------------
// The trace fold
// ---------------------------------------------------------------------------

/// The trace event kinds a run's fold reads.
#[derive(Clone, Copy, Debug, PartialEq, Eq, Structural)]
pub enum RunTraceKind {
    ItemEnabled,
    RunStarted,
    ItemActivated,
    CommandStarted,
    ItemCompleted,
    HumanTaskCompleted,
    ItemFailed,
    InternalError,
    ItemTerminated,
    CommandFinished,
    RunHalted,
    RunFinished,
    Other,
}

/// One event of a run's trace.
pub struct RunTraceEvent {
    pub event_id: String,
    pub kind: RunTraceKind,
    /// The kind's wire word.
    pub kind_word: String,
    pub plan_item_id: Option<String>,
    pub actor_id: String,
    pub timestamp: String,
    pub payload: Json,
}

/// JSON's insignificant whitespace.
pub open spec fn json_space(c: char) -> bool {
    c == ' ' || c == '\t' || c == '\n' || c == '\r'
}

/// The text without its leading JSON whitespace.
pub open spec fn skip_leading_space(s: Seq<char>) -> Seq<char>
    decreases s.len(),
{
    if s.len() > 0 && json_space(s[0]) {
        skip_leading_space(s.drop_first())
    } else {
        s
    }
}

/// The text without its trailing JSON whitespace.
pub open spec fn skip_trailing_space(s: Seq<char>) -> Seq<char>
    decreases s.len(),
{
    if s.len() > 0 && json_space(s.last()) {
        skip_trailing_space(s.drop_last())
    } else {
        s
    }
}

/// JSON's integer digits: `0`, or a nonzero digit and any digits after it.
pub open spec fn json_int_digits(d: Seq<char>) -> bool {
    &&& d.len() > 0
    &&& forall|i: int| 0 <= i < d.len() ==> '0' <= #[trigger] d[i] <= '9'
    &&& (d[0] == '0' ==> d.len() == 1)
}

/// The value of decimal digits.
pub open spec fn digits_value(d: Seq<char>) -> int
    decreases d.len(),
{
    if d.len() == 0 {
        0
    } else {
        digits_value(d.drop_last()) * 10 + (d.last() as int - '0' as int)
    }
}

/// What `serde_json` reads from a number's text as an `i64`
/// (`from_str::<Number>`, then `Number::as_i64`): a JSON integer, with JSON
/// whitespace around it allowed, whose value fits in an `i64`; `-0`, a
/// fraction or an exponent make a float, which has no `i64`; any other text
/// does not parse.
pub open spec fn number_as_i64(text: Seq<char>) -> Option<i64> {
    let t = skip_trailing_space(skip_leading_space(text));
    if t.len() > 1 && t[0] == '-' && json_int_digits(t.drop_first()) {
        let v = digits_value(t.drop_first());
        if 0 < v <= 0x8000_0000_0000_0000 {
            Some((-v) as i64)
        } else {
            None
        }
    } else if json_int_digits(t) && digits_value(t) <= 0x7fff_ffff_ffff_ffff {
        Some(digits_value(t) as i64)
    } else {
        None
    }
}

/// The `i64` a JSON number's text denotes, as `serde_json` parses it into a
/// `Number` and takes `Number::as_i64`: the contract states that parse for
/// integer texts and says none for every other text.
#[verifier::external_body]
fn json_number_as_i64(text: &str) -> (r: Option<i64>)
    ensures
        r == number_as_i64(text@),
{
    serde_json::from_str::<serde_json::Number>(text).ok().and_then(|n| n.as_i64())
}

/// `Value::as_i64` of an optional value.
pub open spec fn value_as_i64(v: Option<JsonView>) -> Option<i64> {
    match v {
        Some(JsonView::Number(t)) => number_as_i64(t),
        _ => None,
    }
}

pub struct TerminationView {
    pub trace_kind: Seq<char>,
    pub exit_code: Option<i64>,
    pub execution_status: Option<Seq<char>>,
    pub at: Seq<char>,
}

pub open spec fn termination_view(t: RunTermination) -> TerminationView {
    TerminationView { trace_kind: t.trace_kind@, exit_code: t.exit_code, execution_status: opt_string_view(t.execution_status), at: t.at@ }
}

pub struct FoldView {
    pub execution: ExecutionStanding,
    pub plan_item_id: Option<Seq<char>>,
    pub started_at: Option<Seq<char>>,
    pub finished_at: Option<Seq<char>>,
    pub termination: Option<TerminationView>,
}

pub open spec fn fold_start() -> FoldView {
    FoldView {
        execution: ExecutionStanding::Pending,
        plan_item_id: None,
        started_at: None,
        finished_at: None,
        termination: None,
    }
}

/// One event of the fold: the first item id and timestamp stick; execution
/// events move execution standing; a terminating event fixes how the episode
/// ended.
pub open spec fn fold_step(f: FoldView, e: RunTraceEvent) -> FoldView {
    let plan_item_id = if f.plan_item_id is None {
        opt_string_view(e.plan_item_id)
    } else {
        f.plan_item_id
    };
    let started_at = if f.started_at is None {
        Some(e.timestamp@)
    } else {
        f.started_at
    };
    let execution = match e.kind {
        RunTraceKind::ItemEnabled => ExecutionStanding::Enabled,
        RunTraceKind::RunStarted | RunTraceKind::ItemActivated | RunTraceKind::CommandStarted =>
            ExecutionStanding::Active,
        RunTraceKind::ItemCompleted | RunTraceKind::HumanTaskCompleted => ExecutionStanding::Completed,
        RunTraceKind::ItemFailed | RunTraceKind::InternalError => ExecutionStanding::Failed,
        RunTraceKind::ItemTerminated => ExecutionStanding::Terminated,
        _ => f.execution,
    };
    match e.kind {
        RunTraceKind::CommandFinished => {
            let ex = jget(e.payload@, "execution"@);
            FoldView {
                execution: if execution == ExecutionStanding::Pending {
                    ExecutionStanding::Active
                } else {
                    execution
                },
                plan_item_id,
                started_at,
                finished_at: Some(e.timestamp@),
                termination: Some(
                    TerminationView {
                        trace_kind: e.kind_word@,
                        exit_code: value_as_i64(jget_opt(ex, "exit_code"@)),
                        execution_status: jstr(jget_opt(ex, "status"@)),
                        at: e.timestamp@,
                    },
                ),
            }
        },
        RunTraceKind::RunHalted | RunTraceKind::ItemFailed | RunTraceKind::ItemTerminated => FoldView {
            execution,
            plan_item_id,
            started_at,
            finished_at: Some(e.timestamp@),
            termination: Some(
                TerminationView { trace_kind: e.kind_word@, exit_code: None, execution_status: None, at: e.timestamp@ },
            ),
        },
        RunTraceKind::RunFinished => FoldView {
            execution,
            plan_item_id,
            started_at,
            finished_at: Some(e.timestamp@),
            ..f
        },
        _ => FoldView { execution, plan_item_id, started_at, ..f },
    }
}

pub open spec fn fold_events(events: Seq<RunTraceEvent>) -> FoldView
    decreases events.len(),
{
    if events.len() == 0 {
        fold_start()
    } else {
        fold_step(fold_events(events.drop_last()), events.last())
    }
}

/// A run's trace folded into execution standing, timestamps and termination.
pub struct TraceFold {
    pub execution: ExecutionStanding,
    pub plan_item_id: Option<String>,
    pub started_at: Option<String>,
    pub finished_at: Option<String>,
    pub termination: Option<RunTermination>,
}

pub open spec fn trace_fold_view(t: TraceFold) -> FoldView {
    FoldView {
        execution: t.execution,
        plan_item_id: opt_string_view(t.plan_item_id),
        started_at: opt_string_view(t.started_at),
        finished_at: opt_string_view(t.finished_at),
        termination: match t.termination {
            Some(x) => Some(termination_view(x)),
            None => None,
        },
    }
}

fn value_as_i64_exec(v: Option<&Json>) -> (r: Option<i64>)
    ensures
        r == value_as_i64(crate::json::opt_view(v)),
{
    match v {
        Some(Json::Number(t)) => json_number_as_i64(t.as_str()),
        _ => None,
    }
}

pub fn fold_trace(events: &Vec<RunTraceEvent>) -> (r: TraceFold)
    ensures
        trace_fold_view(r) == fold_events(events@),
{
    let mut f = TraceFold {
        execution: ExecutionStanding::Pending,
        plan_item_id: None,
        started_at: None,
        finished_at: None,
        termination: None,
    };
    let mut i: usize = 0;
    while i < events.len()
        invariant
            i <= events@.len(),
            trace_fold_view(f) == fold_events(events@.subrange(0, i as int)),
        decreases events@.len() - i,
    {
        proof {
            assert(events@.subrange(0, i + 1).drop_last() =~= events@.subrange(0, i as int));
        }
        let e = &events[i];
        if f.plan_item_id.is_none() {
            f.plan_item_id = e.plan_item_id.clone();
        }
        if f.started_at.is_none() {
            f.started_at = Some(e.timestamp.clone());
        }
        match e.kind {
            RunTraceKind::ItemEnabled => f.execution = ExecutionStanding::Enabled,
            RunTraceKind::RunStarted | RunTraceKind::ItemActivated | RunTraceKind::CommandStarted => {
                f.execution = ExecutionStanding::Active;
            },
            RunTraceKind::ItemCompleted | RunTraceKind::HumanTaskCompleted => {
                f.execution = ExecutionStanding::Completed;
            },
            RunTraceKind::ItemFailed | RunTraceKind::InternalError => f.execution = ExecutionStanding::Failed,
            RunTraceKind::ItemTerminated => f.execution = ExecutionStanding::Terminated,
            _ => {},
        }
        match e.kind {
            RunTraceKind::CommandFinished => {
                let ex = crate::json::get(&e.payload, "execution");
                f.termination = Some(
                    RunTermination {
                        trace_kind: e.kind_word.clone(),
                        exit_code: value_as_i64_exec(get_opt(ex, "exit_code")),
                        execution_status: match as_str(get_opt(ex, "status")) {
                            Some(s) => Some(owned(s)),
                            None => None,
                        },
                        at: e.timestamp.clone(),
                    },
                );
                if matches!(f.execution, ExecutionStanding::Pending) {
                    f.execution = ExecutionStanding::Active;
                }
                f.finished_at = Some(e.timestamp.clone());
            },
            RunTraceKind::RunHalted | RunTraceKind::ItemFailed | RunTraceKind::ItemTerminated => {
                f.termination = Some(
                    RunTermination {
                        trace_kind: e.kind_word.clone(),
                        exit_code: None,
                        execution_status: None,
                        at: e.timestamp.clone(),
                    },
                );
                f.finished_at = Some(e.timestamp.clone());
            },
            RunTraceKind::RunFinished => f.finished_at = Some(e.timestamp.clone()),
            _ => {},
        }
        i += 1;
    }
    proof {
        assert(events@.subrange(0, events@.len() as int) =~= events@);
    }
    f
}

// ---------------------------------------------------------------------------
// Pairing the declared criteria with the settlement's basis
// ---------------------------------------------------------------------------

/// The standing a pair of basis tokens gives a criterion: its failing token
/// decides first, then its passing token; neither leaves it unavailable.
pub open spec fn join_of(basis: Seq<Seq<char>>, pass: Seq<char>, fail: Seq<char>) -> (CriterionStanding, Seq<Seq<char>>) {
    if basis.contains(fail) {
        (CriterionStanding::Unsatisfied, seq![fail])
    } else if basis.contains(pass) {
        (CriterionStanding::Satisfied, seq![pass])
    } else {
        (CriterionStanding::Unavailable, Seq::empty())
    }
}

/// One declared criterion joined to the settlement basis token that decided it.
pub fn join_basis(basis: &Vec<String>, pass: &str, fail: &str) -> (r: (CriterionStanding, Vec<String>))
    ensures
        (r.0, strings_view(r.1@)) == join_of(strings_view(basis@), pass@, fail@),
{
    let mut matched: Vec<String> = Vec::new();
    if contains_string(basis, fail) {
        matched.push(owned(fail));
        proof {
            assert(strings_view(matched@) =~= seq![fail@]);
        }
        (CriterionStanding::Unsatisfied, matched)
    } else if contains_string(basis, pass) {
        matched.push(owned(pass));
        proof {
            assert(strings_view(matched@) =~= seq![pass@]);
        }
        (CriterionStanding::Satisfied, matched)
    } else {
        proof {
            assert(strings_view(matched@) =~= Seq::<Seq<char>>::empty());
        }
        (CriterionStanding::Unavailable, matched)
    }
}

/// The settlement criteria a plan item declares.
pub struct SettlementCriteria {
    pub require_exit_zero: bool,
    pub required_artifacts: Vec<String>,
    pub stdout_must_contain: Option<String>,
    pub agent_output_must_contain: Option<String>,
    pub require_approval: bool,
    pub evaluator: Option<String>,
    /// The declared minimum pass ratio of a batch, as its decimal text.
    pub min_pass_ratio: Option<String>,
}

/// The basis tokens that begin with `prefix`, in basis order.
pub open spec fn with_prefix(basis: Seq<Seq<char>>, prefix: Seq<char>) -> Seq<Seq<char>>
    decreases basis.len(),
{
    if basis.len() == 0 {
        Seq::empty()
    } else {
        let rest = with_prefix(basis.drop_last(), prefix);
        if starts_with(basis.last(), prefix) {
            rest.push(basis.last())
        } else {
            rest
        }
    }
}

fn tokens_with_prefix(basis: &Vec<String>, prefix: &str) -> (r: Vec<String>)
    ensures
        strings_view(r@) == with_prefix(strings_view(basis@), prefix@),
{
    let ghost bv = strings_view(basis@);
    let mut out: Vec<String> = Vec::new();
    let mut i: usize = 0;
    while i < basis.len()
        invariant
            bv == strings_view(basis@),
            i <= basis@.len(),
            strings_view(out@) == with_prefix(bv.subrange(0, i as int), prefix@),
        decreases basis@.len() - i,
    {
        proof {
            assert(bv.subrange(0, i + 1).drop_last() =~= bv.subrange(0, i as int));
            assert(bv.subrange(0, i + 1).last() == basis@[i as int]@);
        }
        let ghost before = strings_view(out@);
        if starts_with_exec(basis[i].as_str(), prefix) {
            out.push(basis[i].clone());
            proof {
                assert(strings_view(out@) =~= before.push(basis@[i as int]@));
            }
        }
        i += 1;
    }
    proof {
        assert(bv.subrange(0, basis@.len() as int) =~= bv);
    }
    out
}

/// A criterion check, as values.
pub struct CheckView {
    pub criterion: Seq<char>,
    pub expected: Seq<char>,
    pub standing: CriterionStanding,
    pub basis: Seq<Seq<char>>,
}

pub open spec fn check_view(c: CriterionCheck) -> CheckView {
    CheckView { criterion: c.criterion@, expected: c.expected@, standing: c.standing, basis: strings_view(c.basis@) }
}

pub open spec fn joined_check(criterion: Seq<char>, expected: Seq<char>, j: (CriterionStanding, Seq<Seq<char>>)) -> CheckView {
    CheckView { criterion, expected, standing: j.0, basis: j.1 }
}

/// The basis of a settlement record, none without one.
pub open spec fn basis_of(settlement: Option<SettlementRecord>) -> Seq<Seq<char>> {
    match settlement {
        Some(s) => strings_view(s.basis@),
        None => Seq::empty(),
    }
}

pub open spec fn artifact_check(basis: Seq<Seq<char>>, path: Seq<char>) -> CheckView {
    joined_check(
        "required_artifact"@,
        path,
        join_of(basis, "required_artifact_present:"@ + path, "required_artifact_missing:"@ + path),
    )
}

/// The agent-output criterion: only a mismatch token is ever recorded, so a
/// mismatch decides, an accepted settlement implies the literal was found,
/// and anything else is unknown.
pub open spec fn agent_output_standing(settlement: Option<SettlementRecord>) -> (CriterionStanding, Seq<Seq<char>>) {
    if basis_of(settlement).contains("agent_output_mismatch"@) {
        (CriterionStanding::Unsatisfied, seq!["agent_output_mismatch"@])
    } else if settlement is Some && standing_of(settlement->0.status) == SettlementStanding::Accepted {
        (CriterionStanding::Satisfied, Seq::empty())
    } else {
        (CriterionStanding::Unavailable, Seq::empty())
    }
}

/// The approval criterion, reported by the settlement's authority token. An
/// escalation leaves it unavailable, and an unavailable row cites no basis.
pub open spec fn approval_standing(basis: Seq<Seq<char>>) -> (CriterionStanding, Seq<Seq<char>>) {
    if basis.contains("authority_deny"@) {
        (CriterionStanding::Unsatisfied, seq!["authority_deny"@])
    } else if basis.contains("authority_escalate"@) {
        (CriterionStanding::Unavailable, Seq::empty())
    } else if basis.contains("authority_allow"@) {
        (CriterionStanding::Satisfied, seq!["authority_allow"@])
    } else {
        (CriterionStanding::Unavailable, Seq::empty())
    }
}

/// The evaluator criterion: its scores are recorded, never pass or fail.
pub open spec fn evaluator_check(basis: Seq<Seq<char>>, evaluator: Seq<char>) -> CheckView {
    let matched = with_prefix(basis, "evaluator_score:"@ + evaluator + "="@);
    CheckView {
        criterion: "evaluator"@,
        expected: evaluator,
        standing: if matched.len() == 0 {
            CriterionStanding::Unavailable
        } else {
            CriterionStanding::Recorded
        },
        basis: matched,
    }
}

/// The batch criterion: a below-threshold token decides, any batch token
/// otherwise satisfies it.
pub open spec fn batch_check(basis: Seq<Seq<char>>, ratio: Seq<char>) -> CheckView {
    let matched = with_prefix(basis, "batch_"@);
    CheckView {
        criterion: "batch"@,
        expected: "pass ratio >= "@ + ratio,
        standing: if basis.contains("batch_below_threshold"@) {
            CriterionStanding::Unsatisfied
        } else if matched.len() == 0 {
            CriterionStanding::Unavailable
        } else {
            CriterionStanding::Satisfied
        },
        basis: matched,
    }
}

pub open spec fn exit_part(criteria: SettlementCriteria, basis: Seq<Seq<char>>) -> Seq<CheckView> {
    if criteria.require_exit_zero {
        seq![joined_check("require_exit_zero"@, "process exits 0"@, join_of(basis, "exit_zero"@, "exit_nonzero"@))]
    } else {
        Seq::empty()
    }
}

pub open spec fn artifacts_part(criteria: SettlementCriteria, basis: Seq<Seq<char>>) -> Seq<CheckView> {
    criteria.required_artifacts@.map_values(|p: String| artifact_check(basis, p@))
}

pub open spec fn stdout_part(criteria: SettlementCriteria, basis: Seq<Seq<char>>) -> Seq<CheckView> {
    match criteria.stdout_must_contain {
        Some(n) => seq![joined_check("stdout_must_contain"@, n@, join_of(basis, "stdout_match"@, "stdout_mismatch"@))],
        None => Seq::empty(),
    }
}

pub open spec fn agent_part(criteria: SettlementCriteria, settlement: Option<SettlementRecord>) -> Seq<CheckView> {
    match criteria.agent_output_must_contain {
        Some(n) => seq![joined_check("agent_output_must_contain"@, n@, agent_output_standing(settlement))],
        None => Seq::empty(),
    }
}

pub open spec fn approval_part(criteria: SettlementCriteria, basis: Seq<Seq<char>>) -> Seq<CheckView> {
    if criteria.require_approval {
        seq![joined_check("require_approval"@, "approval recorded before execution"@, approval_standing(basis))]
    } else {
        Seq::empty()
    }
}

pub open spec fn evaluator_part(criteria: SettlementCriteria, basis: Seq<Seq<char>>) -> Seq<CheckView> {
    match criteria.evaluator {
        Some(e) => seq![evaluator_check(basis, e@)],
        None => Seq::empty(),
    }
}

pub open spec fn batch_part(criteria: SettlementCriteria, basis: Seq<Seq<char>>) -> Seq<CheckView> {
    match criteria.min_pass_ratio {
        Some(t) => seq![batch_check(basis, t@)],
        None => Seq::empty(),
    }
}

/// The declared criteria paired with the settlement's basis, in declaration
/// order: exit status, each required artifact, stdout, agent output,
/// approval, evaluator, batch.
pub open spec fn pairing(criteria: SettlementCriteria, settlement: Option<SettlementRecord>) -> Seq<CheckView> {
    let basis = basis_of(settlement);
    exit_part(criteria, basis) + artifacts_part(criteria, basis) + stdout_part(criteria, basis) + agent_part(
        criteria,
        settlement,
    ) + approval_part(criteria, basis) + evaluator_part(criteria, basis) + batch_part(criteria, basis)
}

pub open spec fn checks_view(v: Seq<CriterionCheck>) -> Seq<CheckView> {
    v.map_values(|c: CriterionCheck| check_view(c))
}

fn make_check(criterion: &str, expected: String, j: (CriterionStanding, Vec<String>)) -> (r: CriterionCheck)
    ensures
        check_view(r) == joined_check(criterion@, expected@, (j.0, strings_view(j.1@))),
{
    CriterionCheck { criterion: owned(criterion), expected, standing: j.0, basis: j.1 }
}

fn approval_exec(basis: &Vec<String>) -> (r: (CriterionStanding, Vec<String>))
    ensures
        (r.0, strings_view(r.1@)) == approval_standing(strings_view(basis@)),
{
    let mut matched: Vec<String> = Vec::new();
    let standing = if contains_string(basis, "authority_deny") {
        matched.push(owned("authority_deny"));
        CriterionStanding::Unsatisfied
    } else if contains_string(basis, "authority_escalate") {
        CriterionStanding::Unavailable
    } else if contains_string(basis, "authority_allow") {
        matched.push(owned("authority_allow"));
        CriterionStanding::Satisfied
    } else {
        CriterionStanding::Unavailable
    };
    proof {
        let bv = strings_view(basis@);
        if bv.contains("authority_deny"@) {
            assert(strings_view(matched@) =~= seq!["authority_deny"@]);
        } else if bv.contains("authority_escalate"@) {
            assert(strings_view(matched@) =~= Seq::<Seq<char>>::empty());
        } else if bv.contains("authority_allow"@) {
            assert(strings_view(matched@) =~= seq!["authority_allow"@]);
        } else {
            assert(strings_view(matched@) =~= Seq::<Seq<char>>::empty());
        }
    }
    (standing, matched)
}

fn agent_output_exec(basis: &Vec<String>, settlement: Option<&SettlementRecord>) -> (r: (CriterionStanding, Vec<String>))
    requires
        strings_view(basis@) == basis_of(opt_record(settlement)),
    ensures
        (r.0, strings_view(r.1@)) == agent_output_standing(opt_record(settlement)),
{
    let mut matched: Vec<String> = Vec::new();
    if contains_string(basis, "agent_output_mismatch") {
        matched.push(owned("agent_output_mismatch"));
        proof {
            assert(strings_view(matched@) =~= seq!["agent_output_mismatch"@]);
        }
        return (CriterionStanding::Unsatisfied, matched);
    }
    proof {
        assert(strings_view(matched@) =~= Seq::<Seq<char>>::empty());
    }
    let accepted = match settlement {
        Some(s) => matches!(settlement_standing(s.status), SettlementStanding::Accepted),
        None => false,
    };
    if accepted {
        (CriterionStanding::Satisfied, matched)
    } else {
        (CriterionStanding::Unavailable, matched)
    }
}

pub open spec fn opt_record(s: Option<&SettlementRecord>) -> Option<SettlementRecord> {
    match s {
        Some(r) => Some(*r),
        None => None,
    }
}

fn push_exit(checks: &mut Vec<CriterionCheck>, criteria: &SettlementCriteria, basis: &Vec<String>)
    ensures
        checks_view(final(checks)@) == checks_view(old(checks)@) + exit_part(*criteria, strings_view(basis@)),
{
    let ghost before = checks_view(checks@);
    if criteria.require_exit_zero {
        let j = join_basis(basis, "exit_zero", "exit_nonzero");
        checks.push(make_check("require_exit_zero", owned("process exits 0"), j));
    }
    proof {
        assert(checks_view(checks@) =~= before + exit_part(*criteria, strings_view(basis@)));
    }
}

fn push_artifacts(checks: &mut Vec<CriterionCheck>, criteria: &SettlementCriteria, basis: &Vec<String>)
    ensures
        checks_view(final(checks)@) == checks_view(old(checks)@) + artifacts_part(*criteria, strings_view(basis@)),
{
    let ghost bv = strings_view(basis@);
    let ghost before = checks_view(checks@);
    let ghost arts = artifacts_part(*criteria, bv);
    let mut k: usize = 0;
    while k < criteria.required_artifacts.len()
        invariant
            k <= criteria.required_artifacts@.len(),
            bv == strings_view(basis@),
            arts == artifacts_part(*criteria, bv),
            checks_view(checks@) == before + arts.subrange(0, k as int),
        decreases criteria.required_artifacts@.len() - k,
    {
        let path = criteria.required_artifacts[k].as_str();
        let pass = concat2("required_artifact_present:", path);
        let fail = concat2("required_artifact_missing:", path);
        let j = join_basis(basis, pass.as_str(), fail.as_str());
        let ghost mid = checks_view(checks@);
        checks.push(make_check("required_artifact", owned(path), j));
        proof {
            assert(arts[k as int] == artifact_check(bv, path@));
            assert(checks_view(checks@) =~= mid.push(arts[k as int]));
            assert(before + arts.subrange(0, k + 1) =~= (before + arts.subrange(0, k as int)).push(arts[k as int]));
        }
        k += 1;
    }
    proof {
        assert(arts.subrange(0, arts.len() as int) =~= arts);
    }
}

fn push_stdout(checks: &mut Vec<CriterionCheck>, criteria: &SettlementCriteria, basis: &Vec<String>)
    ensures
        checks_view(final(checks)@) == checks_view(old(checks)@) + stdout_part(*criteria, strings_view(basis@)),
{
    let ghost before = checks_view(checks@);
    if let Some(n) = &criteria.stdout_must_contain {
        let j = join_basis(basis, "stdout_match", "stdout_mismatch");
        checks.push(make_check("stdout_must_contain", n.clone(), j));
    }
    proof {
        assert(checks_view(checks@) =~= before + stdout_part(*criteria, strings_view(basis@)));
    }
}

fn push_agent(
    checks: &mut Vec<CriterionCheck>,
    criteria: &SettlementCriteria,
    basis: &Vec<String>,
    settlement: Option<&SettlementRecord>,
)
    requires
        strings_view(basis@) == basis_of(opt_record(settlement)),
    ensures
        checks_view(final(checks)@) == checks_view(old(checks)@) + agent_part(*criteria, opt_record(settlement)),
{
    let ghost before = checks_view(checks@);
    if let Some(n) = &criteria.agent_output_must_contain {
        let j = agent_output_exec(basis, settlement);
        checks.push(make_check("agent_output_must_contain", n.clone(), j));
    }
    proof {
        assert(checks_view(checks@) =~= before + agent_part(*criteria, opt_record(settlement)));
    }
}

fn push_approval(checks: &mut Vec<CriterionCheck>, criteria: &SettlementCriteria, basis: &Vec<String>)
    ensures
        checks_view(final(checks)@) == checks_view(old(checks)@) + approval_part(*criteria, strings_view(basis@)),
{
    let ghost before = checks_view(checks@);
    if criteria.require_approval {
        let j = approval_exec(basis);
        checks.push(make_check("require_approval", owned("approval recorded before execution"), j));
    }
    proof {
        assert(checks_view(checks@) =~= before + approval_part(*criteria, strings_view(basis@)));
    }
}

fn push_evaluator(checks: &mut Vec<CriterionCheck>, criteria: &SettlementCriteria, basis: &Vec<String>)
    ensures
        checks_view(final(checks)@) == checks_view(old(checks)@) + evaluator_part(*criteria, strings_view(basis@)),
{
    let ghost before = checks_view(checks@);
    if let Some(e) = &criteria.evaluator {
        let prefix = concat3("evaluator_score:", e.as_str(), "=");
        let matched = tokens_with_prefix(basis, prefix.as_str());
        let standing = if matched.len() == 0 {
            CriterionStanding::Unavailable
        } else {
            CriterionStanding::Recorded
        };
        checks.push(CriterionCheck { criterion: owned("evaluator"), expected: e.clone(), standing, basis: matched });
    }
    proof {
        assert(checks_view(checks@) =~= before + evaluator_part(*criteria, strings_view(basis@)));
    }
}

fn push_batch(checks: &mut Vec<CriterionCheck>, criteria: &SettlementCriteria, basis: &Vec<String>)
    ensures
        checks_view(final(checks)@) == checks_view(old(checks)@) + batch_part(*criteria, strings_view(basis@)),
{
    let ghost before = checks_view(checks@);
    if let Some(t) = &criteria.min_pass_ratio {
        let matched = tokens_with_prefix(basis, "batch_");
        let standing = if contains_string(basis, "batch_below_threshold") {
            CriterionStanding::Unsatisfied
        } else if matched.len() == 0 {
            CriterionStanding::Unavailable
        } else {
            CriterionStanding::Satisfied
        };
        checks.push(
            CriterionCheck {
                criterion: owned("batch"),
                expected: concat2("pass ratio >= ", t.as_str()),
                standing,
                basis: matched,
            },
        );
    }
    proof {
        assert(checks_view(checks@) =~= before + batch_part(*criteria, strings_view(basis@)));
    }
}

/// The plan's declared criteria paired with the settlement record's basis.
/// This joins; it does not evaluate: the settlement remains the only thing
/// that decides whether a criterion was met, and a criterion it said nothing
/// about is unavailable, never satisfied.
pub fn pair_criteria(criteria: &SettlementCriteria, settlement: Option<&SettlementRecord>) -> (r: Vec<CriterionCheck>)
    ensures
        checks_view(r@) == pairing(*criteria, opt_record(settlement)),
{
    let empty: Vec<String> = Vec::new();
    let basis: &Vec<String> = match settlement {
        Some(s) => &s.basis,
        None => &empty,
    };
    proof {
        assert(strings_view(basis@) =~= basis_of(opt_record(settlement)));
    }
    let mut checks: Vec<CriterionCheck> = Vec::new();
    proof {
        assert(checks_view(checks@) =~= Seq::<CheckView>::empty());
    }
    push_exit(&mut checks, criteria, basis);
    push_artifacts(&mut checks, criteria, basis);
    push_stdout(&mut checks, criteria, basis);
    push_agent(&mut checks, criteria, basis, settlement);
    push_approval(&mut checks, criteria, basis);
    push_evaluator(&mut checks, criteria, basis);
    push_batch(&mut checks, criteria, basis);
    proof {
        let bv = basis_of(opt_record(settlement));
        assert(Seq::<CheckView>::empty() + exit_part(*criteria, bv) =~= exit_part(*criteria, bv));
    }
    checks
}

// ---------------------------------------------------------------------------
// Locating the run's plan item and its owning case
// ---------------------------------------------------------------------------

/// A plan item of a run-local plan, as `run.get` reads it.
pub struct RunPlanItem {
    pub plan_item_id: String,
    pub name: String,
    /// The item kind's wire word.
    pub item_kind: String,
    pub settlement_criteria: SettlementCriteria,
}

/// Index `i` holds the first item with this id.
pub open spec fn is_first_match(items: Seq<RunPlanItem>, id: Seq<char>, i: int) -> bool {
    &&& 0 <= i < items.len()
    &&& items[i].plan_item_id@ == id
    &&& forall|j: int| 0 <= j < i ==> (#[trigger] items[j]).plan_item_id@ != id
}

/// The index of the first item with this id, where there is one.
pub open spec fn first_match(items: Seq<RunPlanItem>, id: Seq<char>) -> int {
    choose|i: int| #[trigger] is_first_match(items, id, i)
}

/// The run's plan item: the first with the id the trace names; without one,
/// the only item of a single-item plan; otherwise none.
pub open spec fn selected_item(items: Seq<RunPlanItem>, id: Option<Seq<char>>) -> Option<int> {
    match id {
        Some(id) => if (exists|i: int| #[trigger] is_first_match(items, id, i)) {
            Some(first_match(items, id))
        } else {
            None
        },
        None => if items.len() == 1 {
            Some(0)
        } else {
            None
        },
    }
}

/// This run's plan item in the run-local plan.
pub fn plan_item<'a>(items: &'a Vec<RunPlanItem>, plan_item_id: Option<&str>) -> (r: Option<&'a RunPlanItem>)
    ensures
        match selected_item(items@, crate::json::opt_str_view(plan_item_id)) {
            Some(i) => r is Some && *(r->0) == items@[i],
            None => r is None,
        },
{
    match plan_item_id {
        Some(id) => {
            let mut i: usize = 0;
            while i < items.len()
                invariant
                    plan_item_id == Some(id),
                    i <= items@.len(),
                    forall|j: int| 0 <= j < i ==> (#[trigger] items@[j]).plan_item_id@ != id@,
                decreases items@.len() - i,
            {
                if str_eq(items[i].plan_item_id.as_str(), id) {
                    proof {
                        assert(is_first_match(items@, id@, i as int));
                        let c = first_match(items@, id@);
                        assert(is_first_match(items@, id@, c));
                        if c < i {
                            assert(items@[c].plan_item_id@ != id@);
                        }
                        if c > i {
                            assert(items@[i as int].plan_item_id@ != id@);
                        }
                        let sid: Option<Seq<char>> = Some(id@);
                        assert(sid->0 == id@);
                        assert(selected_item(items@, sid) == Some(c));
                    }
                    return Some(&items[i]);
                }
                i += 1;
            }
            None
        },
        None => if items.len() == 1 {
            Some(&items[0])
        } else {
            None
        },
    }
}

/// The case that claims a run: the last case, in listing order, whose run
/// ids hold it (a later claim overrides an earlier one).
pub open spec fn owner_of(cases: Seq<crate::sfwp::case_views::CaseRecord>, run_id: Seq<char>) -> Option<Seq<char>>
    decreases cases.len(),
{
    if cases.len() == 0 {
        None
    } else if strings_view(cases.last().run_ids@).contains(run_id) {
        Some(cases.last().case_id@)
    } else {
        owner_of(cases.drop_last(), run_id)
    }
}

/// The id of the case that claims `run_id`, from the readable case records.
pub fn case_owner(cases: &Vec<crate::sfwp::case_views::CaseRecord>, run_id: &str) -> (r: Option<String>)
    ensures
        opt_string_view(r) == owner_of(cases@, run_id@),
{
    let mut owner: Option<String> = None;
    let mut i: usize = 0;
    while i < cases.len()
        invariant
            i <= cases@.len(),
            opt_string_view(owner) == owner_of(cases@.subrange(0, i as int), run_id@),
        decreases cases@.len() - i,
    {
        proof {
            assert(cases@.subrange(0, i + 1).drop_last() =~= cases@.subrange(0, i as int));
        }
        if contains_string(&cases[i].run_ids, run_id) {
            owner = Some(cases[i].case_id.clone());
        }
        i += 1;
    }
    proof {
        assert(cases@.subrange(0, cases@.len() as int) =~= cases@);
    }
    owner
}

// ---------------------------------------------------------------------------
// run.list
// ---------------------------------------------------------------------------

/// What was read of one run directory for the list.
pub struct RunDirRecords {
    pub run_id: String,
    /// The well-formed prefix of `trace.jsonl`.
    pub events: Vec<RunTraceEvent>,
    pub settlement: Option<SettlementRecord>,
    /// The number of well-formed evidence rows.
    pub evidence_count: usize,
}

pub struct RunSummaryView {
    pub run_id: Seq<char>,
    pub case_id: Option<Seq<char>>,
    pub plan_item_id: Option<Seq<char>>,
    pub execution: ExecutionStanding,
    pub settlement: SettlementStanding,
    pub started_at: Option<Seq<char>>,
    pub finished_at: Option<Seq<char>>,
    pub evidence_count: nat,
}

pub open spec fn run_summary_view(s: RunSummary) -> RunSummaryView {
    RunSummaryView {
        run_id: s.run_id@,
        case_id: opt_string_view(s.case_id),
        plan_item_id: opt_string_view(s.plan_item_id),
        execution: s.execution,
        settlement: s.settlement,
        started_at: opt_string_view(s.started_at),
        finished_at: opt_string_view(s.finished_at),
        evidence_count: s.evidence_count as nat,
    }
}

/// The settlement standing a run's settlement record gives, unsettled without one.
pub open spec fn run_settlement(s: Option<SettlementRecord>) -> SettlementStanding {
    match s {
        Some(r) => standing_of(r.status),
        None => SettlementStanding::Unsettled,
    }
}

/// The list row of a run directory.
pub open spec fn summary_of_run(d: RunDirRecords, owner: Option<Seq<char>>) -> RunSummaryView {
    let f = fold_events(d.events@);
    RunSummaryView {
        run_id: d.run_id@,
        case_id: owner,
        plan_item_id: f.plan_item_id,
        execution: f.execution,
        settlement: run_settlement(d.settlement),
        started_at: f.started_at,
        finished_at: f.finished_at,
        evidence_count: d.evidence_count as nat,
    }
}

/// A run belongs to the list: any run unscoped; scoped to a case, only the
/// runs that case claims.
pub open spec fn in_scope(owner: Option<Seq<char>>, case_id: Option<Seq<char>>) -> bool {
    match case_id {
        Some(w) => owner == Some(w),
        None => true,
    }
}

/// A run directory with neither a readable trace nor a settlement has
/// nothing to project.
pub open spec fn has_nothing(d: RunDirRecords) -> bool {
    d.events@.len() == 0 && d.settlement is None
}

pub open spec fn listed_runs(
    dirs: Seq<RunDirRecords>,
    cases: Seq<crate::sfwp::case_views::CaseRecord>,
    case_id: Option<Seq<char>>,
) -> Seq<RunSummaryView>
    decreases dirs.len(),
{
    if dirs.len() == 0 {
        Seq::empty()
    } else {
        let rest = listed_runs(dirs.drop_last(), cases, case_id);
        let d = dirs.last();
        let owner = owner_of(cases, d.run_id@);
        if in_scope(owner, case_id) && !has_nothing(d) {
            rest.push(summary_of_run(d, owner))
        } else {
            rest
        }
    }
}

pub open spec fn unreadable_runs(
    dirs: Seq<RunDirRecords>,
    cases: Seq<crate::sfwp::case_views::CaseRecord>,
    case_id: Option<Seq<char>>,
) -> Seq<Seq<char>>
    decreases dirs.len(),
{
    if dirs.len() == 0 {
        Seq::empty()
    } else {
        let rest = unreadable_runs(dirs.drop_last(), cases, case_id);
        let d = dirs.last();
        if in_scope(owner_of(cases, d.run_id@), case_id) && has_nothing(d) {
            rest.push(d.run_id@)
        } else {
            rest
        }
    }
}

/// A text key under which an absent value orders before every present one,
/// and present values order by their text.
pub open spec fn opt_key(s: Option<Seq<char>>) -> Seq<char> {
    match s {
        Some(t) => seq!['\u{1}'] + t,
        None => Seq::empty(),
    }
}

/// The list order of a run: by start time, then by run id.
pub open spec fn run_key(v: RunSummaryView) -> (Seq<char>, Seq<char>) {
    (opt_key(v.started_at), v.run_id)
}

fn opt_key_exec(s: &Option<String>) -> (r: String)
    ensures
        r@ == opt_key(opt_string_view(*s)),
{
    match s {
        Some(t) => {
            let mut k = String::new();
            crate::text::push_char(&mut k, '\u{1}');
            k.append(t.as_str());
            proof {
                assert(k@ =~= seq!['\u{1}'] + t@);
            }
            k
        },
        None => String::new(),
    }
}

fn summary_exec(d: &RunDirRecords, owner: Option<String>) -> (r: RunSummary)
    ensures
        run_summary_view(r) == summary_of_run(*d, opt_string_view(owner)),
{
    let f = fold_trace(&d.events);
    let settlement = match &d.settlement {
        Some(s) => settlement_standing(s.status),
        None => SettlementStanding::Unsettled,
    };
    RunSummary {
        run_id: d.run_id.clone(),
        case_id: owner,
        plan_item_id: f.plan_item_id,
        execution: f.execution,
        settlement,
        started_at: f.started_at,
        finished_at: f.finished_at,
        evidence_count: d.evidence_count,
    }
}

fn clone_summary(s: &RunSummary) -> (r: RunSummary)
    ensures
        run_summary_view(r) == run_summary_view(*s),
{
    RunSummary {
        run_id: s.run_id.clone(),
        case_id: s.case_id.clone(),
        plan_item_id: s.plan_item_id.clone(),
        execution: s.execution,
        settlement: s.settlement,
        started_at: s.started_at.clone(),
        finished_at: s.finished_at.clone(),
        evidence_count: s.evidence_count,
    }
}

fn in_scope_exec(owner: &Option<String>, case_id: Option<&str>) -> (r: bool)
    ensures
        r == in_scope(opt_string_view(*owner), crate::json::opt_str_view(case_id)),
{
    match case_id {
        Some(w) => match owner {
            Some(o) => str_eq(o.as_str(), w),
            None => false,
        },
        None => true,
    }
}

/// The run list of a cell, from its run directories (in listing order) and
/// its readable case records: within the scope, runs with something to
/// project newest first (by start time, then run id, both descending), and
/// the ids of the runs with nothing to project, ascending.
pub fn list(
    cases: &Vec<crate::sfwp::case_views::CaseRecord>,
    dirs: &Vec<RunDirRecords>,
    case_id: Option<&str>,
) -> (r: RunListResult)
    ensures
        exists|order: Seq<usize>| {
            &&& #[trigger] crate::order::is_index_permutation(order, listed_runs(dirs@, cases@, crate::json::opt_str_view(case_id)).len())
            &&& crate::order::ordered_by(
                listed_runs(dirs@, cases@, crate::json::opt_str_view(case_id)).map_values(|v: RunSummaryView| run_key(v)),
                order,
                true,
            )
            &&& r.runs@.map_values(|s: RunSummary| run_summary_view(s)) == order.map_values(
                |i: usize| listed_runs(dirs@, cases@, crate::json::opt_str_view(case_id))[i as int],
            )
        },
        exists|order: Seq<usize>| {
            &&& #[trigger] crate::order::is_index_permutation(order, unreadable_runs(dirs@, cases@, crate::json::opt_str_view(case_id)).len())
            &&& crate::order::ordered_by(
                unreadable_runs(dirs@, cases@, crate::json::opt_str_view(case_id)).map_values(|n: Seq<char>| (n, Seq::<char>::empty())),
                order,
                false,
            )
            &&& strings_view(r.unreadable@) == order.map_values(
                |i: usize| unreadable_runs(dirs@, cases@, crate::json::opt_str_view(case_id))[i as int],
            )
        },
{
    let ghost scope = crate::json::opt_str_view(case_id);
    let ghost dv = dirs@;
    let mut rows: Vec<RunSummary> = Vec::new();
    let mut names: Vec<String> = Vec::new();
    let mut i: usize = 0;
    while i < dirs.len()
        invariant
            dv == dirs@,
            scope == crate::json::opt_str_view(case_id),
            i <= dirs@.len(),
            rows@.map_values(|s: RunSummary| run_summary_view(s)) == listed_runs(dv.subrange(0, i as int), cases@, scope),
            strings_view(names@) == unreadable_runs(dv.subrange(0, i as int), cases@, scope),
        decreases dirs@.len() - i,
    {
        proof {
            assert(dv.subrange(0, i + 1).drop_last() =~= dv.subrange(0, i as int));
            assert(dv.subrange(0, i + 1).last() == dirs@[i as int]);
        }
        let ghost r0 = rows@.map_values(|s: RunSummary| run_summary_view(s));
        let ghost n0 = strings_view(names@);
        let d = &dirs[i];
        let owner = case_owner(cases, d.run_id.as_str());
        if in_scope_exec(&owner, case_id) {
            if d.events.len() == 0 && d.settlement.is_none() {
                names.push(d.run_id.clone());
                proof {
                    assert(strings_view(names@) =~= n0.push(d.run_id@));
                }
            } else {
                let row = summary_exec(d, owner);
                rows.push(row);
                proof {
                    assert(rows@.map_values(|s: RunSummary| run_summary_view(s)) =~= r0.push(run_summary_view(row)));
                }
            }
        }
        i += 1;
    }
    proof {
        assert(dv.subrange(0, dirs@.len() as int) =~= dv);
    }
    let ghost rv = rows@.map_values(|s: RunSummary| run_summary_view(s));
    let mut keys: Vec<(String, String)> = Vec::new();
    let mut k: usize = 0;
    while k < rows.len()
        invariant
            k <= rows@.len(),
            keys@.len() == k,
            forall|j: int| 0 <= j < k ==> ((#[trigger] keys@[j]).0@, keys@[j].1@) == run_key(run_summary_view(rows@[j])),
        decreases rows@.len() - k,
    {
        keys.push((opt_key_exec(&rows[k].started_at), rows[k].run_id.clone()));
        k += 1;
    }
    proof {
        assert(crate::order::pairs_view(keys@) =~= rv.map_values(|v: RunSummaryView| run_key(v)));
    }
    let order = crate::order::order_by_pairs(&keys, true);
    let mut runs: Vec<RunSummary> = Vec::new();
    let mut t: usize = 0;
    while t < order.len()
        invariant
            crate::order::is_index_permutation(order@, rows@.len()),
            t <= order@.len(),
            runs@.len() == t,
            forall|j: int| 0 <= j < t ==> run_summary_view(#[trigger] runs@[j]) == rv[order@[j] as int],
            rv == rows@.map_values(|s: RunSummary| run_summary_view(s)),
        decreases order@.len() - t,
    {
        runs.push(clone_summary(&rows[order[t]]));
        t += 1;
    }
    proof {
        assert(runs@.map_values(|s: RunSummary| run_summary_view(s)) =~= order@.map_values(|i: usize| rv[i as int]));
    }
    let ghost nv = strings_view(names@);
    let mut nkeys: Vec<(String, String)> = Vec::new();
    let mut k: usize = 0;
    while k < names.len()
        invariant
            k <= names@.len(),
            nkeys@.len() == k,
            forall|j: int| 0 <= j < k ==> (#[trigger] nkeys@[j]).0@ == names@[j]@ && nkeys@[j].1@ == Seq::<char>::empty(),
        decreases names@.len() - k,
    {
        nkeys.push((names[k].clone(), String::new()));
        k += 1;
    }
    proof {
        assert(crate::order::pairs_view(nkeys@) =~= nv.map_values(|n: Seq<char>| (n, Seq::<char>::empty())));
    }
    let norder = crate::order::order_by_pairs(&nkeys, false);
    let mut unreadable: Vec<String> = Vec::new();
    let mut t: usize = 0;
    while t < norder.len()
        invariant
            crate::order::is_index_permutation(norder@, names@.len()),
            t <= norder@.len(),
            unreadable@.len() == t,
            forall|j: int| 0 <= j < t ==> (#[trigger] unreadable@[j])@ == nv[norder@[j] as int],
            nv == strings_view(names@),
        decreases norder@.len() - t,
    {
        unreadable.push(names[norder[t]].clone());
        t += 1;
    }
    proof {
        assert(strings_view(unreadable@) =~= norder@.map_values(|i: usize| nv[i as int]));
    }
    RunListResult { runs, unreadable }
}

// ---------------------------------------------------------------------------
// run.get
// ---------------------------------------------------------------------------

/// One row of the run's trace, its payload carried through verbatim.
pub struct TraceRow {
    pub event_id: String,
    /// The kind's wire word.
    pub kind: String,
    pub plan_item_id: Option<String>,
    pub actor_id: String,
    pub timestamp: String,
    pub payload: Json,
}

/// The immutable criteria record a run was committed against.
pub struct CriteriaRecord {
    pub criteria_id: String,
    pub criteria: SettlementCriteria,
}

/// What was read of one run directory for `run.get`: the well-formed
/// prefixes of its journals, the records that parsed, and which canonical
/// record files exist.
pub struct RunFiles {
    pub events: Vec<RunTraceEvent>,
    pub settlement: Option<SettlementRecord>,
    pub plan: Option<Vec<RunPlanItem>>,
    pub criteria_record: Option<CriteriaRecord>,
    pub authority: Option<AuthorityProjection>,
    pub declarations: Vec<DeclarationRow>,
    pub evidence: Vec<EvidenceRow>,
    pub records: Vec<RecordPresence>,
}

/// `run.get` result body: the single linked view of one run episode.
pub struct RunRecord {
    pub run_id: String,
    pub case_id: Option<String>,
    pub plan_item_id: Option<String>,
    pub plan_item_name: Option<String>,
    pub item_kind: Option<String>,
    pub execution: ExecutionStanding,
    pub settlement: SettlementStanding,
    pub started_at: Option<String>,
    pub finished_at: Option<String>,
    /// How execution ended; never conflated with `settlement`.
    pub termination: Option<RunTermination>,
    pub authority: Option<AuthorityProjection>,
    pub criteria_ref: Option<String>,
    pub criteria: Vec<CriterionCheck>,
    pub settlement_record: Option<SettlementDetail>,
    pub declarations: Vec<DeclarationRow>,
    pub evidence: Vec<EvidenceRow>,
    pub trace: Vec<TraceRow>,
    pub records: Vec<RecordPresence>,
}

pub struct TraceRowView {
    pub event_id: Seq<char>,
    pub kind: Seq<char>,
    pub plan_item_id: Option<Seq<char>>,
    pub actor_id: Seq<char>,
    pub timestamp: Seq<char>,
    pub payload: JsonView,
}

pub open spec fn trace_row_view(t: TraceRow) -> TraceRowView {
    TraceRowView {
        event_id: t.event_id@,
        kind: t.kind@,
        plan_item_id: opt_string_view(t.plan_item_id),
        actor_id: t.actor_id@,
        timestamp: t.timestamp@,
        payload: t.payload@,
    }
}

pub open spec fn row_of_event(e: RunTraceEvent) -> TraceRowView {
    TraceRowView {
        event_id: e.event_id@,
        kind: e.kind_word@,
        plan_item_id: opt_string_view(e.plan_item_id),
        actor_id: e.actor_id@,
        timestamp: e.timestamp@,
        payload: e.payload@,
    }
}

pub struct DetailView {
    pub settlement_id: Seq<char>,
    pub status: SettlementStanding,
    pub basis: Seq<Seq<char>>,
    pub review_required: bool,
    pub settled_at: Seq<char>,
    pub criteria_ref: Option<Seq<char>>,
}

pub open spec fn detail_view(d: SettlementDetail) -> DetailView {
    DetailView {
        settlement_id: d.settlement_id@,
        status: d.status,
        basis: strings_view(d.basis@),
        review_required: d.review_required,
        settled_at: d.settled_at@,
        criteria_ref: opt_string_view(d.criteria_ref),
    }
}

pub open spec fn detail_of(s: SettlementRecord) -> DetailView {
    DetailView {
        settlement_id: s.settlement_id@,
        status: standing_of(s.status),
        basis: strings_view(s.basis@),
        review_required: s.review_required,
        settled_at: s.settled_at@,
        criteria_ref: opt_string_view(s.criteria_ref),
    }
}

/// The run's plan item, from the run-local plan and the item the trace names.
pub open spec fn run_item(plan: Option<Vec<RunPlanItem>>, id: Option<Seq<char>>) -> Option<RunPlanItem> {
    match plan {
        Some(items) => match selected_item(items@, id) {
            Some(i) => Some(items@[i]),
            None => None,
        },
        None => None,
    }
}

/// The criteria the run is judged against: the immutable criteria record
/// where there is one, else the plan item's inline criteria.
pub open spec fn run_criteria(record: Option<CriteriaRecord>, item: Option<RunPlanItem>) -> Option<SettlementCriteria> {
    match record {
        Some(r) => Some(r.criteria),
        None => match item {
            Some(i) => Some(i.settlement_criteria),
            None => None,
        },
    }
}

/// The criteria record's id, else the one the settlement names.
pub open spec fn run_criteria_ref(record: Option<CriteriaRecord>, settlement: Option<SettlementRecord>) -> Option<Seq<char>> {
    match record {
        Some(r) => Some(r.criteria_id@),
        None => match settlement {
            Some(s) => opt_string_view(s.criteria_ref),
            None => None,
        },
    }
}

pub open spec fn unreadable_run_message(run_id: Seq<char>) -> Seq<char> {
    "run "@ + run_id + " directory exists but holds no readable trace, plan, or settlement record"@
}

fn item_name(item: Option<&RunPlanItem>) -> (r: (Option<String>, Option<String>))
    ensures
        opt_string_view(r.0) == (match item {
            Some(i) => Some(i.name@),
            None => None::<Seq<char>>,
        }),
        opt_string_view(r.1) == (match item {
            Some(i) => Some(i.item_kind@),
            None => None::<Seq<char>>,
        }),
{
    match item {
        Some(i) => (Some(i.name.clone()), Some(i.item_kind.clone())),
        None => (None, None),
    }
}

fn trace_rows(events: &Vec<RunTraceEvent>) -> (r: Vec<TraceRow>)
    ensures
        r@.map_values(|t: TraceRow| trace_row_view(t)) == events@.map_values(|e: RunTraceEvent| row_of_event(e)),
{
    let mut rows: Vec<TraceRow> = Vec::new();
    let mut i: usize = 0;
    while i < events.len()
        invariant
            i <= events@.len(),
            rows@.len() == i,
            forall|j: int| 0 <= j < i ==> trace_row_view(#[trigger] rows@[j]) == row_of_event(events@[j]),
        decreases events@.len() - i,
    {
        let e = &events[i];
        rows.push(
            TraceRow {
                event_id: e.event_id.clone(),
                kind: e.kind_word.clone(),
                plan_item_id: e.plan_item_id.clone(),
                actor_id: e.actor_id.clone(),
                timestamp: e.timestamp.clone(),
                payload: crate::json::json_clone(&e.payload),
            },
        );
        i += 1;
    }
    proof {
        assert(rows@.map_values(|t: TraceRow| trace_row_view(t)) =~= events@.map_values(|e: RunTraceEvent| row_of_event(e)));
    }
    rows
}

/// One run's linked record, from what its directory holds. Not found for an
/// id that is not a run id or names no directory; unreadable for a directory
/// with no readable trace, settlement or plan; otherwise the projection:
/// execution from the trace, settlement from the settlement record, never
/// one from the other.
pub fn get(
    cases: &Vec<crate::sfwp::case_views::CaseRecord>,
    run_id: &str,
    dir_exists: bool,
    files: RunFiles,
) -> (r: Result<RunRecord, RunViewError>)
    ensures
        (!crate::sfwp::case_views::is_case_id(run_id@) || !dir_exists) <==> (r matches Err(RunViewError::NotFound(id)) && id@ == run_id@),
        (crate::sfwp::case_views::is_case_id(run_id@) && dir_exists && files.events@.len() == 0 && files.settlement is None
            && files.plan is None) <==> (r matches Err(RunViewError::Unreadable(m)) && m@ == unreadable_run_message(run_id@)),
        r matches Ok(rec) ==> {
            let f = fold_events(files.events@);
            let item = run_item(files.plan, f.plan_item_id);
            &&& rec.run_id@ == run_id@
            &&& opt_string_view(rec.case_id) == owner_of(cases@, run_id@)
            &&& opt_string_view(rec.plan_item_id) == f.plan_item_id
            &&& opt_string_view(rec.plan_item_name) == (match item {
                Some(i) => Some(i.name@),
                None => None::<Seq<char>>,
            })
            &&& opt_string_view(rec.item_kind) == (match item {
                Some(i) => Some(i.item_kind@),
                None => None::<Seq<char>>,
            })
            &&& rec.execution == f.execution
            &&& rec.settlement == run_settlement(files.settlement)
            &&& opt_string_view(rec.started_at) == f.started_at
            &&& opt_string_view(rec.finished_at) == f.finished_at
            &&& (match rec.termination {
                Some(t) => Some(termination_view(t)),
                None => None::<TerminationView>,
            }) == f.termination
            &&& rec.authority == files.authority
            &&& opt_string_view(rec.criteria_ref) == run_criteria_ref(files.criteria_record, files.settlement)
            &&& checks_view(rec.criteria@) == (match run_criteria(files.criteria_record, item) {
                Some(c) => pairing(c, files.settlement),
                None => Seq::<CheckView>::empty(),
            })
            &&& (match rec.settlement_record {
                Some(d) => Some(detail_view(d)),
                None => None::<DetailView>,
            }) == (match files.settlement {
                Some(s) => Some(detail_of(s)),
                None => None::<DetailView>,
            })
            &&& rec.declarations == files.declarations
            &&& rec.evidence == files.evidence
            &&& rec.trace@.map_values(|t: TraceRow| trace_row_view(t)) == files.events@.map_values(
                |e: RunTraceEvent| row_of_event(e),
            )
            &&& rec.records == files.records
        },
{
    if !valid_run_id(run_id) || !dir_exists {
        return Err(RunViewError::NotFound(owned(run_id)));
    }
    if files.events.len() == 0 && files.settlement.is_none() && files.plan.is_none() {
        let m = concat3("run ", run_id, " directory exists but holds no readable trace, plan, or settlement record");
        return Err(RunViewError::Unreadable(m));
    }
    let ghost fv = fold_events(files.events@);
    let fold = fold_trace(&files.events);
    let id_ref: Option<&str> = match &fold.plan_item_id {
        Some(s) => Some(s.as_str()),
        None => None,
    };
    let item: Option<&RunPlanItem> = match &files.plan {
        Some(items) => plan_item(items, id_ref),
        None => None,
    };
    proof {
        assert(crate::json::opt_str_view(id_ref) == fv.plan_item_id);
        match item {
            Some(x) => assert(run_item(files.plan, fv.plan_item_id) == Some(*x)),
            None => assert(run_item(files.plan, fv.plan_item_id) is None),
        }
    }
    let (plan_item_name, item_kind) = item_name(item);
    let criteria: Option<&SettlementCriteria> = match &files.criteria_record {
        Some(rec) => Some(&rec.criteria),
        None => match item {
            Some(i) => Some(&i.settlement_criteria),
            None => None,
        },
    };
    let checks = match criteria {
        Some(c) => pair_criteria(c, files.settlement.as_ref()),
        None => Vec::new(),
    };
    let criteria_ref = match &files.criteria_record {
        Some(rec) => Some(rec.criteria_id.clone()),
        None => match &files.settlement {
            Some(s) => s.criteria_ref.clone(),
            None => None,
        },
    };
    let settlement = match &files.settlement {
        Some(s) => settlement_standing(s.status),
        None => SettlementStanding::Unsettled,
    };
    let settlement_record = match &files.settlement {
        Some(s) => Some(
            SettlementDetail {
                settlement_id: s.settlement_id.clone(),
                status: settlement_standing(s.status),
                basis: crate::envelope::clone_strings(&s.basis),
                review_required: s.review_required,
                settled_at: s.settled_at.clone(),
                criteria_ref: s.criteria_ref.clone(),
            },
        ),
        None => None,
    };
    let trace = trace_rows(&files.events);
    let case_id = case_owner(cases, run_id);
    let RunFiles { events: _, settlement: _, plan: _, criteria_record: _, authority, declarations, evidence, records } = files;
    Ok(
        RunRecord {
            run_id: owned(run_id),
            case_id,
            plan_item_id: fold.plan_item_id,
            plan_item_name,
            item_kind,
            execution: fold.execution,
            settlement,
            started_at: fold.started_at,
            finished_at: fold.finished_at,
            termination: fold.termination,
            authority,
            criteria_ref,
            criteria: checks,
            settlement_record,
            declarations,
            evidence,
            trace,
            records,
        },
    )
}

// ---------------------------------------------------------------------------
// Laws of the criteria pairing
// ---------------------------------------------------------------------------

/// Without a settlement record, every declared criterion is unavailable
/// with no basis: an unsettled run never renders as passing.
pub proof fn law_unsettled_criteria_are_unavailable(criteria: SettlementCriteria)
    ensures
        forall|i: int| 0 <= i < pairing(criteria, None).len() ==> (#[trigger] pairing(criteria, None)[i]).standing
            == CriterionStanding::Unavailable && pairing(criteria, None)[i].basis.len() == 0,
{
    let basis = basis_of(None);
    assert(basis =~= Seq::<Seq<char>>::empty());
    assert(with_prefix(basis, "batch_"@) =~= Seq::<Seq<char>>::empty());
    match criteria.evaluator {
        Some(e) => assert(with_prefix(basis, "evaluator_score:"@ + e@ + "="@) =~= Seq::<Seq<char>>::empty()),
        None => {},
    }
    let p = pairing(criteria, None);
    let a = exit_part(criteria, basis);
    let b = artifacts_part(criteria, basis);
    let c = stdout_part(criteria, basis);
    let d = agent_part(criteria, None);
    let e = approval_part(criteria, basis);
    let f = evaluator_part(criteria, basis);
    let g = batch_part(criteria, basis);
    assert forall|i: int| 0 <= i < p.len() implies (#[trigger] p[i]).standing == CriterionStanding::Unavailable
        && p[i].basis.len() == 0 by {
        if i < a.len() {
            assert(p[i] == a[i]);
        } else if i < a.len() + b.len() {
            assert(p[i] == b[i - a.len()]);
        } else if i < a.len() + b.len() + c.len() {
            assert(p[i] == c[i - a.len() - b.len()]);
        } else if i < a.len() + b.len() + c.len() + d.len() {
            assert(p[i] == d[i - a.len() - b.len() - c.len()]);
        } else if i < a.len() + b.len() + c.len() + d.len() + e.len() {
            assert(p[i] == e[i - a.len() - b.len() - c.len() - d.len()]);
        } else if i < a.len() + b.len() + c.len() + d.len() + e.len() + f.len() {
            assert(p[i] == f[i - a.len() - b.len() - c.len() - d.len() - e.len()]);
        } else {
            assert(p[i] == g[i - a.len() - b.len() - c.len() - d.len() - e.len() - f.len()]);
        }
    }
}

/// A row whose standing is unavailable cites no basis: the operator sees
/// that the settlement said nothing about it.
pub proof fn law_unavailable_rows_cite_no_basis(criteria: SettlementCriteria, settlement: Option<SettlementRecord>)
    ensures
        forall|i: int| 0 <= i < pairing(criteria, settlement).len() && (#[trigger] pairing(criteria, settlement)[i]).standing
            == CriterionStanding::Unavailable ==> pairing(criteria, settlement)[i].basis.len() == 0,
{
    let basis = basis_of(settlement);
    let p = pairing(criteria, settlement);
    let a = exit_part(criteria, basis);
    let b = artifacts_part(criteria, basis);
    let c = stdout_part(criteria, basis);
    let d = agent_part(criteria, settlement);
    let e = approval_part(criteria, basis);
    let f = evaluator_part(criteria, basis);
    let g = batch_part(criteria, basis);
    assert forall|i: int| 0 <= i < p.len() && (#[trigger] p[i]).standing == CriterionStanding::Unavailable implies p[i].basis.len()
        == 0 by {
        if i < a.len() {
            assert(p[i] == a[i]);
        } else if i < a.len() + b.len() {
            assert(p[i] == b[i - a.len()]);
        } else if i < a.len() + b.len() + c.len() {
            assert(p[i] == c[i - a.len() - b.len()]);
        } else if i < a.len() + b.len() + c.len() + d.len() {
            assert(p[i] == d[i - a.len() - b.len() - c.len()]);
        } else if i < a.len() + b.len() + c.len() + d.len() + e.len() {
            assert(p[i] == e[i - a.len() - b.len() - c.len() - d.len()]);
        } else if i < a.len() + b.len() + c.len() + d.len() + e.len() + f.len() {
            assert(p[i] == f[i - a.len() - b.len() - c.len() - d.len() - e.len()]);
        } else {
            assert(p[i] == g[i - a.len() - b.len() - c.len() - d.len() - e.len() - f.len()]);
        }
    }
}

/// An evaluator criterion is never satisfied or unsatisfied: its score is
/// recorded as evidence, or unavailable.
pub proof fn law_evaluator_scores_never_decide(basis: Seq<Seq<char>>, evaluator: Seq<char>)
    ensures
        evaluator_check(basis, evaluator).standing == CriterionStanding::Recorded || evaluator_check(basis, evaluator).standing
            == CriterionStanding::Unavailable,
{
}

/// A criterion's failing token outranks its passing token: with both in the
/// basis, the criterion is unsatisfied, decided by the failing token alone.
pub proof fn law_failing_token_decides(basis: Seq<Seq<char>>, pass: Seq<char>, fail: Seq<char>)
    requires
        basis.contains(pass),
        basis.contains(fail),
    ensures
        join_of(basis, pass, fail) == (CriterionStanding::Unsatisfied, seq![fail]),
{
}


/// The trace kinds that move a run's execution standing.
pub open spec fn moves_run_execution(k: RunTraceKind) -> bool {
    ||| k == RunTraceKind::ItemEnabled
    ||| k == RunTraceKind::RunStarted
    ||| k == RunTraceKind::ItemActivated
    ||| k == RunTraceKind::CommandStarted
    ||| k == RunTraceKind::ItemCompleted
    ||| k == RunTraceKind::HumanTaskCompleted
    ||| k == RunTraceKind::ItemFailed
    ||| k == RunTraceKind::InternalError
    ||| k == RunTraceKind::ItemTerminated
}

/// A run's folded execution standing is set by the last event of its trace
/// that moves execution: enabled after `item_enabled`; active after
/// `run_started`, `item_activated` or `command_started`; completed after
/// `item_completed` or `human_task_completed`; failed after `item_failed` or
/// `internal_error`; terminated after `item_terminated`. The events after it
/// (a command finishing, a halt, the run finishing, any other) leave it.
pub proof fn law_run_execution_follows_its_last_execution_event(events: Seq<RunTraceEvent>, i: int)
    requires
        0 <= i < events.len(),
        moves_run_execution(events[i].kind),
        forall|j: int| i < j < events.len() ==> !moves_run_execution(#[trigger] events[j].kind),
    ensures
        ({
            let k = events[i].kind;
            let x = fold_events(events).execution;
            &&& k == RunTraceKind::ItemEnabled ==> x == ExecutionStanding::Enabled
            &&& (k == RunTraceKind::RunStarted || k == RunTraceKind::ItemActivated || k == RunTraceKind::CommandStarted)
                ==> x == ExecutionStanding::Active
            &&& (k == RunTraceKind::ItemCompleted || k == RunTraceKind::HumanTaskCompleted) ==> x
                == ExecutionStanding::Completed
            &&& (k == RunTraceKind::ItemFailed || k == RunTraceKind::InternalError) ==> x == ExecutionStanding::Failed
            &&& k == RunTraceKind::ItemTerminated ==> x == ExecutionStanding::Terminated
        }),
    decreases events.len(),
{
    if i < events.len() - 1 {
        let pre = events.drop_last();
        assert forall|j: int| i < j < pre.len() implies !moves_run_execution(#[trigger] pre[j].kind) by {
            assert(pre[j] == events[j]);
        }
        assert(pre[i] == events[i]);
        law_run_execution_follows_its_last_execution_event(pre, i);
        assert(!moves_run_execution(events[events.len() - 1].kind));
        assert(fold_events(pre).execution != ExecutionStanding::Pending);
    }
}

/// A run whose trace holds no event that moves execution is pending, or
/// active once a command has finished.
pub proof fn law_run_execution_without_execution_events(events: Seq<RunTraceEvent>)
    requires
        forall|j: int| 0 <= j < events.len() ==> !moves_run_execution(#[trigger] events[j].kind),
    ensures
        fold_events(events).execution == if exists|j: int|
            0 <= j < events.len() && #[trigger] events[j].kind == RunTraceKind::CommandFinished {
            ExecutionStanding::Active
        } else {
            ExecutionStanding::Pending
        },
    decreases events.len(),
{
    if events.len() > 0 {
        let pre = events.drop_last();
        assert forall|j: int| 0 <= j < pre.len() implies !moves_run_execution(#[trigger] pre[j].kind) by {
            assert(pre[j] == events[j]);
        }
        law_run_execution_without_execution_events(pre);
        assert(!moves_run_execution(events[events.len() - 1].kind));
        if exists|j: int| 0 <= j < pre.len() && #[trigger] pre[j].kind == RunTraceKind::CommandFinished {
            let j = choose|j: int| 0 <= j < pre.len() && #[trigger] pre[j].kind == RunTraceKind::CommandFinished;
            assert(events[j] == pre[j]);
        }
        if events.last().kind == RunTraceKind::CommandFinished {
            assert(events[events.len() - 1].kind == RunTraceKind::CommandFinished);
        }
        if exists|j: int| 0 <= j < events.len() && #[trigger] events[j].kind == RunTraceKind::CommandFinished {
            let j = choose|j: int| 0 <= j < events.len() && #[trigger] events[j].kind == RunTraceKind::CommandFinished;
            if j < pre.len() {
                assert(pre[j] == events[j]);
            }
        }
    }
}


/// The trace kinds that end a run's episode and record how.
pub open spec fn ends_run_episode(k: RunTraceKind) -> bool {
    ||| k == RunTraceKind::CommandFinished
    ||| k == RunTraceKind::RunHalted
    ||| k == RunTraceKind::ItemFailed
    ||| k == RunTraceKind::ItemTerminated
}

/// A run's termination is the last event of its trace that ends the
/// episode: its kind word and time, and, for anything but a finished
/// command, no exit code and no execution status.
pub proof fn law_run_termination_is_its_last_ending_event(events: Seq<RunTraceEvent>, i: int)
    requires
        0 <= i < events.len(),
        ends_run_episode(events[i].kind),
        forall|j: int| i < j < events.len() ==> !ends_run_episode(#[trigger] events[j].kind),
    ensures
        fold_events(events).termination is Some,
        fold_events(events).termination->0.trace_kind == events[i].kind_word@,
        fold_events(events).termination->0.at == events[i].timestamp@,
        events[i].kind != RunTraceKind::CommandFinished ==> fold_events(events).termination->0.exit_code is None
            && fold_events(events).termination->0.execution_status is None,
    decreases events.len(),
{
    if i < events.len() - 1 {
        let pre = events.drop_last();
        assert forall|j: int| i < j < pre.len() implies !ends_run_episode(#[trigger] pre[j].kind) by {
            assert(pre[j] == events[j]);
        }
        assert(pre[i] == events[i]);
        law_run_termination_is_its_last_ending_event(pre, i);
        assert(!ends_run_episode(events[events.len() - 1].kind));
    }
}

/// A run whose trace holds no event that ends the episode has no
/// termination.
pub proof fn law_run_without_ending_event_has_no_termination(events: Seq<RunTraceEvent>)
    requires
        forall|j: int| 0 <= j < events.len() ==> !ends_run_episode(#[trigger] events[j].kind),
    ensures
        fold_events(events).termination is None,
    decreases events.len(),
{
    if events.len() > 0 {
        let pre = events.drop_last();
        assert forall|j: int| 0 <= j < pre.len() implies !ends_run_episode(#[trigger] pre[j].kind) by {
            assert(pre[j] == events[j]);
        }
        law_run_without_ending_event_has_no_termination(pre);
        assert(!ends_run_episode(events[events.len() - 1].kind));
    }
}

/// A run started at its trace's first event.
pub proof fn law_run_started_at_its_first_event(events: Seq<RunTraceEvent>)
    requires
        events.len() > 0,
    ensures
        fold_events(events).started_at == Some(events[0].timestamp@),
    decreases events.len(),
{
    if events.len() > 1 {
        law_run_started_at_its_first_event(events.drop_last());
        assert(events.drop_last()[0] == events[0]);
    } else {
        assert(fold_events(events.drop_last()) == fold_start());
        assert(events.last() == events[0]);
    }
}


/// A run's plan item is that of the first event of its trace that names one.
pub proof fn law_run_plan_item_is_the_first_named(events: Seq<RunTraceEvent>, i: int)
    requires
        0 <= i < events.len(),
        events[i].plan_item_id is Some,
        forall|j: int| 0 <= j < i ==> (#[trigger] events[j]).plan_item_id is None,
    ensures
        fold_events(events).plan_item_id == Some(events[i].plan_item_id->0@),
    decreases events.len(),
{
    if i < events.len() - 1 {
        let pre = events.drop_last();
        assert forall|j: int| 0 <= j < i implies (#[trigger] pre[j]).plan_item_id is None by {
            assert(pre[j] == events[j]);
        }
        assert(pre[i] == events[i]);
        law_run_plan_item_is_the_first_named(pre, i);
    } else {
        let pre = events.drop_last();
        assert forall|j: int| 0 <= j < pre.len() implies (#[trigger] pre[j]).plan_item_id is None by {
            assert(pre[j] == events[j]);
        }
        lemma_no_plan_item(pre);
        assert(events.last() == events[i]);
    }
}

proof fn lemma_no_plan_item(events: Seq<RunTraceEvent>)
    requires
        forall|j: int| 0 <= j < events.len() ==> (#[trigger] events[j]).plan_item_id is None,
    ensures
        fold_events(events).plan_item_id is None,
    decreases events.len(),
{
    if events.len() > 0 {
        let pre = events.drop_last();
        assert forall|j: int| 0 <= j < pre.len() implies (#[trigger] pre[j]).plan_item_id is None by {
            assert(pre[j] == events[j]);
        }
        lemma_no_plan_item(pre);
        assert(events.last() == events[events.len() - 1]);
    }
}

/// The trace kinds that mark when a run finished.
pub open spec fn marks_run_finish(k: RunTraceKind) -> bool {
    ends_run_episode(k) || k == RunTraceKind::RunFinished
}

/// A run finished at the time of the last event of its trace that ends the
/// episode or finishes the run.
pub proof fn law_run_finished_at_its_last_finishing_event(events: Seq<RunTraceEvent>, i: int)
    requires
        0 <= i < events.len(),
        marks_run_finish(events[i].kind),
        forall|j: int| i < j < events.len() ==> !marks_run_finish(#[trigger] events[j].kind),
    ensures
        fold_events(events).finished_at == Some(events[i].timestamp@),
    decreases events.len(),
{
    if i < events.len() - 1 {
        let pre = events.drop_last();
        assert forall|j: int| i < j < pre.len() implies !marks_run_finish(#[trigger] pre[j].kind) by {
            assert(pre[j] == events[j]);
        }
        assert(pre[i] == events[i]);
        law_run_finished_at_its_last_finishing_event(pre, i);
        assert(!marks_run_finish(events[events.len() - 1].kind));
    }
}

} // verus!
