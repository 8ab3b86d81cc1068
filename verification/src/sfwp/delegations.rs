//! The delegation roster: agent delegations, live and finished. A run's
//! standing comes from the settlement on disk, else from the server's live
//! handle; a delegation run with neither is unresolved, never assumed
//! cancelled or failed.
use vstd::prelude::*;
use crate::envelope::{strings_view, opt_string_view};
use crate::governed_settlement_return::SettlementStatus;
use crate::sfwp::case_views::{CaseRecord, SettlementRecord};
use crate::sfwp::run_views::{owner_of, case_owner};
use crate::text::{owned, str_eq};

verus! {

/// What the server knows about a live delegation.
pub struct LiveDelegation {
    pub case_id: String,
    /// A cancellation has been requested and recorded; the episode has not
    /// yet observed it or not yet terminated.
    pub cancellation_requested: bool,
}

/// Where a delegation sits in its lifecycle.
#[derive(Clone, Copy, Debug, PartialEq, Eq, Structural)]
pub enum DelegationStanding {
    /// A live handle, no cancellation requested.
    Active,
    /// A cancellation was recorded; the episode has not settled yet.
    CancellationRequested,
    /// A settlement record exists.
    Settled,
    /// A delegation run with no settlement and no live handle.
    Unresolved,
}

pub open spec fn standing_spec(handle: Option<LiveDelegation>, settled: bool) -> DelegationStanding {
    if settled {
        DelegationStanding::Settled
    } else {
        match handle {
            Some(h) => if h.cancellation_requested {
                DelegationStanding::CancellationRequested
            } else {
                DelegationStanding::Active
            },
            None => DelegationStanding::Unresolved,
        }
    }
}

pub open spec fn opt_live(h: Option<&LiveDelegation>) -> Option<LiveDelegation> {
    match h {
        Some(x) => Some(*x),
        None => None,
    }
}

/// The lifecycle fold: a settlement on disk always wins over the live
/// handle, which is only this process's memory of the episode.
pub fn standing_of(handle: Option<&LiveDelegation>, settled: bool) -> (r: DelegationStanding)
    ensures
        r == standing_spec(opt_live(handle), settled),
{
    if settled {
        return DelegationStanding::Settled;
    }
    match handle {
        Some(held) => if held.cancellation_requested {
            DelegationStanding::CancellationRequested
        } else {
            DelegationStanding::Active
        },
        None => DelegationStanding::Unresolved,
    }
}

/// The bounds an agent task was committed under.
pub struct PlannedTask {
    pub endpoint_ref: String,
    pub max_turns: u32,
    pub token_budget: Option<u64>,
}

/// An operation of a plan item, as the roster reads it.
pub enum PlannedOperation {
    AgentTask(PlannedTask),
    /// A probe of the named agent endpoint.
    AgentProbe(String),
    Other,
}

pub struct TaskView {
    pub endpoint_ref: Seq<char>,
    pub max_turns: u32,
    pub token_budget: Option<u64>,
}

pub open spec fn task_view(t: PlannedTask) -> TaskView {
    TaskView { endpoint_ref: t.endpoint_ref@, max_turns: t.max_turns, token_budget: t.token_budget }
}

/// The first agent task among operations.
pub open spec fn first_task(ops: Seq<PlannedOperation>) -> Option<TaskView>
    decreases ops.len(),
{
    if ops.len() == 0 {
        None
    } else {
        match first_task(ops.drop_last()) {
            Some(t) => Some(t),
            None => match ops.last() {
                PlannedOperation::AgentTask(t) => Some(task_view(t)),
                _ => None,
            },
        }
    }
}

/// The first agent task of a plan, item by item.
pub open spec fn plan_task(items: Seq<Vec<PlannedOperation>>) -> Option<TaskView>
    decreases items.len(),
{
    if items.len() == 0 {
        None
    } else {
        match plan_task(items.drop_last()) {
            Some(t) => Some(t),
            None => first_task(items.last()@),
        }
    }
}

pub open spec fn opt_task_view(t: Option<PlannedTask>) -> Option<TaskView> {
    match t {
        Some(x) => Some(task_view(x)),
        None => None,
    }
}

fn task_copy(t: &PlannedTask) -> (r: PlannedTask)
    ensures
        task_view(r) == task_view(*t),
{
    PlannedTask { endpoint_ref: t.endpoint_ref.clone(), max_turns: t.max_turns, token_budget: t.token_budget }
}

fn first_task_exec(ops: &Vec<PlannedOperation>) -> (r: Option<PlannedTask>)
    ensures
        opt_task_view(r) == first_task(ops@),
{
    let mut i: usize = 0;
    while i < ops.len()
        invariant
            i <= ops@.len(),
            first_task(ops@.subrange(0, i as int)) is None,
        decreases ops@.len() - i,
    {
        proof {
            assert(ops@.subrange(0, i + 1).drop_last() =~= ops@.subrange(0, i as int));
        }
        match &ops[i] {
            PlannedOperation::AgentTask(t) => {
                proof {
                    lemma_first_task_prefix(ops@, i as int + 1);
                }
                return Some(task_copy(t));
            },
            _ => {},
        }
        i += 1;
    }
    proof {
        assert(ops@.subrange(0, ops@.len() as int) =~= ops@);
    }
    None
}

/// Once a prefix holds an agent task, every longer prefix has the same first task.
proof fn lemma_first_task_prefix(ops: Seq<PlannedOperation>, k: int)
    requires
        0 <= k <= ops.len(),
        first_task(ops.subrange(0, k)) is Some,
    ensures
        first_task(ops) == first_task(ops.subrange(0, k)),
    decreases ops.len() - k,
{
    if k == ops.len() {
        assert(ops.subrange(0, k) =~= ops);
    } else {
        assert(ops.subrange(0, k + 1).drop_last() =~= ops.subrange(0, k));
        lemma_first_task_prefix(ops, k + 1);
    }
}

proof fn lemma_plan_task_prefix(items: Seq<Vec<PlannedOperation>>, k: int)
    requires
        0 <= k <= items.len(),
        plan_task(items.subrange(0, k)) is Some,
    ensures
        plan_task(items) == plan_task(items.subrange(0, k)),
    decreases items.len() - k,
{
    if k == items.len() {
        assert(items.subrange(0, k) =~= items);
    } else {
        assert(items.subrange(0, k + 1).drop_last() =~= items.subrange(0, k));
        lemma_plan_task_prefix(items, k + 1);
    }
}

/// The first agent task in a plan, with the bounds it was committed under.
pub fn planned_task(items: &Vec<Vec<PlannedOperation>>) -> (r: Option<PlannedTask>)
    ensures
        opt_task_view(r) == plan_task(items@),
{
    let mut i: usize = 0;
    while i < items.len()
        invariant
            i <= items@.len(),
            plan_task(items@.subrange(0, i as int)) is None,
        decreases items@.len() - i,
    {
        proof {
            assert(items@.subrange(0, i + 1).drop_last() =~= items@.subrange(0, i as int));
        }
        let t = first_task_exec(&items[i]);
        if t.is_some() {
            proof {
                lemma_plan_task_prefix(items@, i as int + 1);
            }
            return t;
        }
        i += 1;
    }
    proof {
        assert(items@.subrange(0, items@.len() as int) =~= items@);
    }
    None
}

// ---------------------------------------------------------------------------
// The roster
// ---------------------------------------------------------------------------

/// What a finished delegation's transcript evidence records.
pub struct TranscriptSummary {
    /// How the dialogue ended, as its wire word.
    pub termination: String,
    pub turns_used: u32,
    pub tool_calls: u32,
    pub transcript_sha256: String,
}

/// What was read of one run directory for the roster.
pub struct DelegationDir {
    pub run_id: String,
    /// The plan's items, each its operations; none when `plan.json` is unreadable.
    pub plan: Option<Vec<Vec<PlannedOperation>>>,
    pub settlement: Option<SettlementRecord>,
    pub evidence: Option<TranscriptSummary>,
}

/// One delegation in the roster.
pub struct DelegationRow {
    pub run_id: String,
    pub case_id: Option<String>,
    /// The endpoint the plan named; absent for a live handle whose plan is not on disk yet.
    pub endpoint_ref: Option<String>,
    pub standing: DelegationStanding,
    /// This exact run can be cancelled now: a live handle, no cancellation recorded.
    pub cancellable: bool,
    /// The settlement's own word, once a settlement exists.
    pub settlement: Option<String>,
    pub termination: Option<String>,
    /// Turns taken; absent while the delegation still runs.
    pub turns_used: Option<u32>,
    pub max_turns: Option<u32>,
    pub token_budget: Option<u64>,
    pub tool_calls: Option<u32>,
    pub transcript_sha256: Option<String>,
    pub settled_at: Option<String>,
}

/// `delegation.list` result body.
pub struct DelegationListResult {
    /// Live delegations first, then the unsettled, then the rest, newest first.
    pub delegations: Vec<DelegationRow>,
    /// Runs with a live handle whose plan could not be read.
    pub unreadable: Vec<String>,
}

pub struct RowView {
    pub run_id: Seq<char>,
    pub case_id: Option<Seq<char>>,
    pub endpoint_ref: Option<Seq<char>>,
    pub standing: DelegationStanding,
    pub cancellable: bool,
    pub settlement: Option<Seq<char>>,
    pub termination: Option<Seq<char>>,
    pub turns_used: Option<u32>,
    pub max_turns: Option<u32>,
    pub token_budget: Option<u64>,
    pub tool_calls: Option<u32>,
    pub transcript_sha256: Option<Seq<char>>,
    pub settled_at: Option<Seq<char>>,
}

pub open spec fn row_view(r: DelegationRow) -> RowView {
    RowView {
        run_id: r.run_id@,
        case_id: opt_string_view(r.case_id),
        endpoint_ref: opt_string_view(r.endpoint_ref),
        standing: r.standing,
        cancellable: r.cancellable,
        settlement: opt_string_view(r.settlement),
        termination: opt_string_view(r.termination),
        turns_used: r.turns_used,
        max_turns: r.max_turns,
        token_budget: r.token_budget,
        tool_calls: r.tool_calls,
        transcript_sha256: opt_string_view(r.transcript_sha256),
        settled_at: opt_string_view(r.settled_at),
    }
}

/// A settlement status's wire word.
pub open spec fn settlement_word_of(s: SettlementStatus) -> Seq<char> {
    match s {
        SettlementStatus::Accepted => "accepted"@,
        SettlementStatus::Rejected => "rejected"@,
        SettlementStatus::Escalated => "escalated"@,
    }
}

pub fn settlement_word(s: SettlementStatus) -> (r: &'static str)
    ensures
        r@ == settlement_word_of(s),
{
    match s {
        SettlementStatus::Accepted => "accepted",
        SettlementStatus::Rejected => "rejected",
        SettlementStatus::Escalated => "escalated",
    }
}

/// The live handle of a run, if the server holds one.
pub open spec fn live_of(live: Seq<(String, LiveDelegation)>, run_id: Seq<char>) -> Option<LiveDelegation>
    decreases live.len(),
{
    if live.len() == 0 {
        None
    } else if live.last().0@ == run_id {
        Some(live.last().1)
    } else {
        live_of(live.drop_last(), run_id)
    }
}

fn live_get<'a>(live: &'a Vec<(String, LiveDelegation)>, run_id: &str) -> (r: Option<&'a LiveDelegation>)
    ensures
        opt_live(r) == live_of(live@, run_id@),
{
    let mut found: Option<&LiveDelegation> = None;
    let mut i: usize = 0;
    while i < live.len()
        invariant
            i <= live@.len(),
            opt_live(found) == live_of(live@.subrange(0, i as int), run_id@),
        decreases live@.len() - i,
    {
        proof {
            assert(live@.subrange(0, i + 1).drop_last() =~= live@.subrange(0, i as int));
        }
        if str_eq(live[i].0.as_str(), run_id) {
            found = Some(&live[i].1);
        }
        i += 1;
    }
    proof {
        assert(live@.subrange(0, live@.len() as int) =~= live@);
    }
    found
}

/// The roster row of a delegation run directory.
pub open spec fn dir_row(d: DelegationDir, t: TaskView, handle: Option<LiveDelegation>, owner: Option<Seq<char>>) -> RowView {
    RowView {
        run_id: d.run_id@,
        case_id: match owner {
            Some(o) => Some(o),
            None => match handle {
                Some(h) => Some(h.case_id@),
                None => None,
            },
        },
        endpoint_ref: Some(t.endpoint_ref),
        standing: standing_spec(handle, d.settlement is Some),
        cancellable: handle is Some && !handle->0.cancellation_requested,
        settlement: match d.settlement {
            Some(s) => Some(settlement_word_of(s.status)),
            None => None,
        },
        termination: match d.evidence {
            Some(e) => Some(e.termination@),
            None => None,
        },
        turns_used: match d.evidence {
            Some(e) => Some(e.turns_used),
            None => None,
        },
        max_turns: Some(t.max_turns),
        token_budget: t.token_budget,
        tool_calls: match d.evidence {
            Some(e) => Some(e.tool_calls),
            None => None,
        },
        transcript_sha256: match d.evidence {
            Some(e) => Some(e.transcript_sha256@),
            None => None,
        },
        settled_at: match d.settlement {
            Some(s) => Some(s.settled_at@),
            None => None,
        },
    }
}

/// The agent task of a directory's readable plan.
pub open spec fn dir_task(d: DelegationDir) -> Option<TaskView> {
    match d.plan {
        Some(items) => plan_task(items@),
        None => None,
    }
}

/// The rows of the delegation run directories, in directory order.
pub open spec fn dir_rows(
    dirs: Seq<DelegationDir>,
    live: Seq<(String, LiveDelegation)>,
    cases: Seq<CaseRecord>,
) -> Seq<RowView>
    decreases dirs.len(),
{
    if dirs.len() == 0 {
        Seq::empty()
    } else {
        let rest = dir_rows(dirs.drop_last(), live, cases);
        let d = dirs.last();
        match dir_task(d) {
            Some(t) => rest.push(dir_row(d, t, live_of(live, d.run_id@), owner_of(cases, d.run_id@))),
            None => rest,
        }
    }
}

/// The run ids of the delegation run directories.
pub open spec fn seen_runs(dirs: Seq<DelegationDir>) -> Seq<Seq<char>>
    decreases dirs.len(),
{
    if dirs.len() == 0 {
        Seq::empty()
    } else {
        let rest = seen_runs(dirs.drop_last());
        if dir_task(dirs.last()) is Some {
            rest.push(dirs.last().run_id@)
        } else {
            rest
        }
    }
}

/// Directories whose plan is unreadable while a live handle proves them delegations.
pub open spec fn unreadable_delegations(dirs: Seq<DelegationDir>, live: Seq<(String, LiveDelegation)>) -> Seq<Seq<char>>
    decreases dirs.len(),
{
    if dirs.len() == 0 {
        Seq::empty()
    } else {
        let rest = unreadable_delegations(dirs.drop_last(), live);
        let d = dirs.last();
        if d.plan is None && live_of(live, d.run_id@) is Some {
            rest.push(d.run_id@)
        } else {
            rest
        }
    }
}

/// The row of a live handle whose run directory has not appeared.
pub open spec fn live_row(run_id: Seq<char>, held: LiveDelegation) -> RowView {
    RowView {
        run_id,
        case_id: Some(held.case_id@),
        endpoint_ref: None,
        standing: standing_spec(Some(held), false),
        cancellable: !held.cancellation_requested,
        settlement: None,
        termination: None,
        turns_used: None,
        max_turns: None,
        token_budget: None,
        tool_calls: None,
        transcript_sha256: None,
        settled_at: None,
    }
}

/// The live handles not among the delegation directories, in handle order.
pub open spec fn live_rows(live: Seq<(String, LiveDelegation)>, seen: Seq<Seq<char>>) -> Seq<RowView>
    decreases live.len(),
{
    if live.len() == 0 {
        Seq::empty()
    } else {
        let rest = live_rows(live.drop_last(), seen);
        if seen.contains(live.last().0@) {
            rest
        } else {
            rest.push(live_row(live.last().0@, live.last().1))
        }
    }
}

pub open spec fn roster_rows(
    dirs: Seq<DelegationDir>,
    live: Seq<(String, LiveDelegation)>,
    cases: Seq<CaseRecord>,
) -> Seq<RowView> {
    dir_rows(dirs, live, cases) + live_rows(live, seen_runs(dirs))
}

/// The roster order: cancellable first, then unsettled, then by run id, all descending.
pub open spec fn roster_key(v: RowView) -> (Seq<char>, Seq<char>) {
    (
        seq![
            if v.cancellable {
                '1'
            } else {
                '0'
            },
            if v.settled_at is Some {
                '0'
            } else {
                '1'
            },
        ],
        v.run_id,
    )
}

fn opt_word(s: &Option<SettlementRecord>) -> (r: (Option<String>, Option<String>))
    ensures
        opt_string_view(r.0) == (match *s {
            Some(x) => Some(settlement_word_of(x.status)),
            None => None::<Seq<char>>,
        }),
        opt_string_view(r.1) == (match *s {
            Some(x) => Some(x.settled_at@),
            None => None::<Seq<char>>,
        }),
{
    match s {
        Some(x) => (Some(owned(settlement_word(x.status))), Some(x.settled_at.clone())),
        None => (None, None),
    }
}

fn dir_row_exec(d: &DelegationDir, t: PlannedTask, handle: Option<&LiveDelegation>, owner: Option<String>) -> (r: DelegationRow)
    ensures
        row_view(r) == dir_row(*d, task_view(t), opt_live(handle), opt_string_view(owner)),
        r.run_id@ == d.run_id@,
        d.evidence matches Some(e) ==> r.turns_used == Some(e.turns_used) && r.tool_calls == Some(e.tool_calls),
        d.evidence is None ==> r.turns_used is None && r.tool_calls is None,
{
    let case_id = match owner {
        Some(o) => Some(o),
        None => match handle {
            Some(h) => Some(h.case_id.clone()),
            None => None,
        },
    };
    let (settlement, settled_at) = opt_word(&d.settlement);
    let (termination, turns_used, tool_calls, transcript_sha256) = match &d.evidence {
        Some(e) => (Some(e.termination.clone()), Some(e.turns_used), Some(e.tool_calls), Some(e.transcript_sha256.clone())),
        None => (None, None, None, None),
    };
    DelegationRow {
        run_id: d.run_id.clone(),
        case_id,
        endpoint_ref: Some(t.endpoint_ref),
        standing: standing_of(handle, d.settlement.is_some()),
        cancellable: match handle {
            Some(h) => !h.cancellation_requested,
            None => false,
        },
        settlement,
        termination,
        turns_used,
        max_turns: Some(t.max_turns),
        token_budget: t.token_budget,
        tool_calls,
        transcript_sha256,
        settled_at,
    }
}

fn live_row_exec(run_id: &String, held: &LiveDelegation) -> (r: DelegationRow)
    ensures
        row_view(r) == live_row(run_id@, *held),
{
    DelegationRow {
        run_id: run_id.clone(),
        case_id: Some(held.case_id.clone()),
        endpoint_ref: None,
        standing: standing_of(Some(held), false),
        cancellable: !held.cancellation_requested,
        settlement: None,
        termination: None,
        turns_used: None,
        max_turns: None,
        token_budget: None,
        tool_calls: None,
        transcript_sha256: None,
        settled_at: None,
    }
}

fn clone_row(r: &DelegationRow) -> (c: DelegationRow)
    ensures
        row_view(c) == row_view(*r),
{
    DelegationRow {
        run_id: r.run_id.clone(),
        case_id: r.case_id.clone(),
        endpoint_ref: r.endpoint_ref.clone(),
        standing: r.standing,
        cancellable: r.cancellable,
        settlement: r.settlement.clone(),
        termination: r.termination.clone(),
        turns_used: r.turns_used,
        max_turns: r.max_turns,
        token_budget: r.token_budget,
        tool_calls: r.tool_calls,
        transcript_sha256: r.transcript_sha256.clone(),
        settled_at: r.settled_at.clone(),
    }
}

fn roster_key_exec(r: &DelegationRow) -> (k: (String, String))
    ensures
        (k.0@, k.1@) == roster_key(row_view(*r)),
{
    let mut flags = String::new();
    crate::text::push_char(&mut flags, if r.cancellable { '1' } else { '0' });
    crate::text::push_char(&mut flags, if r.settled_at.is_some() { '0' } else { '1' });
    proof {
        let v = row_view(*r);
        assert(flags@ =~= roster_key(v).0);
    }
    (flags, r.run_id.clone())
}

/// Collect the rows of the delegation directories, the ids they cover, and
/// the unreadable ones.
fn scan_dirs(
    cases: &Vec<CaseRecord>,
    dirs: &Vec<DelegationDir>,
    live: &Vec<(String, LiveDelegation)>,
) -> (r: (Vec<DelegationRow>, Vec<String>, Vec<String>))
    ensures
        r.0@.map_values(|x: DelegationRow| row_view(x)) == dir_rows(dirs@, live@, cases@),
        strings_view(r.1@) == seen_runs(dirs@),
        strings_view(r.2@) == unreadable_delegations(dirs@, live@),
{
    let ghost dv = dirs@;
    let mut rows: Vec<DelegationRow> = Vec::new();
    let mut seen: Vec<String> = Vec::new();
    let mut unreadable: Vec<String> = Vec::new();
    let mut i: usize = 0;
    while i < dirs.len()
        invariant
            dv == dirs@,
            i <= dirs@.len(),
            rows@.map_values(|x: DelegationRow| row_view(x)) == dir_rows(dv.subrange(0, i as int), live@, cases@),
            strings_view(seen@) == seen_runs(dv.subrange(0, i as int)),
            strings_view(unreadable@) == unreadable_delegations(dv.subrange(0, i as int), live@),
        decreases dirs@.len() - i,
    {
        proof {
            assert(dv.subrange(0, i + 1).drop_last() =~= dv.subrange(0, i as int));
            assert(dv.subrange(0, i + 1).last() == dirs@[i as int]);
        }
        let ghost r0 = rows@.map_values(|x: DelegationRow| row_view(x));
        let ghost s0 = strings_view(seen@);
        let ghost u0 = strings_view(unreadable@);
        let d = &dirs[i];
        let handle = live_get(live, d.run_id.as_str());
        match &d.plan {
            None => {
                if handle.is_some() {
                    unreadable.push(d.run_id.clone());
                    proof {
                        assert(strings_view(unreadable@) =~= u0.push(d.run_id@));
                    }
                }
            },
            Some(items) => {
                match planned_task(items) {
                    Some(t) => {
                        let owner = case_owner(cases, d.run_id.as_str());
                        let row = dir_row_exec(d, t, handle, owner);
                        rows.push(row);
                        seen.push(d.run_id.clone());
                        proof {
                            assert(rows@.map_values(|x: DelegationRow| row_view(x)) =~= r0.push(row_view(row)));
                            assert(strings_view(seen@) =~= s0.push(d.run_id@));
                        }
                    },
                    None => {},
                }
            },
        }
        i += 1;
    }
    proof {
        assert(dv.subrange(0, dirs@.len() as int) =~= dv);
    }
    (rows, seen, unreadable)
}

/// Append the rows of the live handles whose directories were not seen.
fn push_live_rows(rows: &mut Vec<DelegationRow>, live: &Vec<(String, LiveDelegation)>, seen: &Vec<String>)
    ensures
        final(rows)@.map_values(|x: DelegationRow| row_view(x)) == old(rows)@.map_values(|x: DelegationRow| row_view(x))
            + live_rows(live@, strings_view(seen@)),
{
    let ghost before = rows@.map_values(|x: DelegationRow| row_view(x));
    let ghost sv = strings_view(seen@);
    let mut i: usize = 0;
    while i < live.len()
        invariant
            i <= live@.len(),
            sv == strings_view(seen@),
            rows@.map_values(|x: DelegationRow| row_view(x)) == before + live_rows(live@.subrange(0, i as int), sv),
        decreases live@.len() - i,
    {
        proof {
            assert(live@.subrange(0, i + 1).drop_last() =~= live@.subrange(0, i as int));
            assert(live@.subrange(0, i + 1).last() == live@[i as int]);
        }
        let ghost r0 = rows@.map_values(|x: DelegationRow| row_view(x));
        if !crate::envelope::contains_string(seen, live[i].0.as_str()) {
            let row = live_row_exec(&live[i].0, &live[i].1);
            rows.push(row);
            proof {
                assert(rows@.map_values(|x: DelegationRow| row_view(x)) =~= r0.push(row_view(row)));
            }
        }
        i += 1;
    }
    proof {
        assert(live@.subrange(0, live@.len() as int) =~= live@);
    }
}

/// The delegation roster, from the run directories (in listing order), the
/// server's live handles, and the readable case records: a row per run
/// directory whose plan holds an agent task, then a row per live handle
/// without such a directory; ordered live first, then unsettled, then newest
/// first. The unreadable list holds, ascending, the directories with a live
/// handle whose plan could not be read.
pub fn list(
    cases: &Vec<CaseRecord>,
    dirs: &Vec<DelegationDir>,
    live: &Vec<(String, LiveDelegation)>,
) -> (r: DelegationListResult)
    ensures
        exists|order: Seq<usize>| {
            &&& #[trigger] crate::order::is_index_permutation(order, roster_rows(dirs@, live@, cases@).len())
            &&& crate::order::ordered_by(roster_rows(dirs@, live@, cases@).map_values(|v: RowView| roster_key(v)), order, true)
            &&& r.delegations@.map_values(|x: DelegationRow| row_view(x)) == order.map_values(
                |i: usize| roster_rows(dirs@, live@, cases@)[i as int],
            )
        },
        exists|order: Seq<usize>| {
            &&& #[trigger] crate::order::is_index_permutation(order, unreadable_delegations(dirs@, live@).len())
            &&& crate::order::ordered_by(
                unreadable_delegations(dirs@, live@).map_values(|n: Seq<char>| (n, Seq::<char>::empty())),
                order,
                false,
            )
            &&& strings_view(r.unreadable@) == order.map_values(|i: usize| unreadable_delegations(dirs@, live@)[i as int])
        },
{
    let (mut rows, seen, names) = scan_dirs(cases, dirs, live);
    push_live_rows(&mut rows, live, &seen);
    let ghost rv = rows@.map_values(|x: DelegationRow| row_view(x));
    proof {
        assert(rv == roster_rows(dirs@, live@, cases@));
    }
    let mut keys: Vec<(String, String)> = Vec::new();
    let mut k: usize = 0;
    while k < rows.len()
        invariant
            k <= rows@.len(),
            keys@.len() == k,
            forall|j: int| 0 <= j < k ==> ((#[trigger] keys@[j]).0@, keys@[j].1@) == roster_key(row_view(rows@[j])),
        decreases rows@.len() - k,
    {
        keys.push(roster_key_exec(&rows[k]));
        k += 1;
    }
    proof {
        assert(crate::order::pairs_view(keys@) =~= rv.map_values(|v: RowView| roster_key(v)));
    }
    let order = crate::order::order_by_pairs(&keys, true);
    let mut delegations: Vec<DelegationRow> = Vec::new();
    let mut t: usize = 0;
    while t < order.len()
        invariant
            crate::order::is_index_permutation(order@, rows@.len()),
            t <= order@.len(),
            delegations@.len() == t,
            forall|j: int| 0 <= j < t ==> row_view(#[trigger] delegations@[j]) == rv[order@[j] as int],
            rv == rows@.map_values(|x: DelegationRow| row_view(x)),
        decreases order@.len() - t,
    {
        delegations.push(clone_row(&rows[order[t]]));
        t += 1;
    }
    proof {
        assert(delegations@.map_values(|x: DelegationRow| row_view(x)) =~= order@.map_values(|i: usize| rv[i as int]));
    }
    let ghost nv = strings_view(names@);
    let mut nkeys: Vec<(String, String)> = Vec::new();
    let mut k: usize = 0;
    while k < names.len()
        invariant
            k <= names@.len(),
            nkeys@.len() == k,
            forall|j: int| 0 <= j < k ==> (#[trigger] nkeys@[j]).0@ == names@[j]@ && nkeys@[j].1@ == Seq::<char>::empty(),
        decreases names@.len() - k,
    {
        nkeys.push((names[k].clone(), String::new()));
        k += 1;
    }
    proof {
        assert(crate::order::pairs_view(nkeys@) =~= nv.map_values(|n: Seq<char>| (n, Seq::<char>::empty())));
    }
    let norder = crate::order::order_by_pairs(&nkeys, false);
    let mut unreadable: Vec<String> = Vec::new();
    let mut t: usize = 0;
    while t < norder.len()
        invariant
            crate::order::is_index_permutation(norder@, names@.len()),
            t <= norder@.len(),
            unreadable@.len() == t,
            forall|j: int| 0 <= j < t ==> (#[trigger] unreadable@[j])@ == nv[norder@[j] as int],
            nv == strings_view(names@),
        decreases norder@.len() - t,
    {
        unreadable.push(names[norder[t]].clone());
        t += 1;
    }
    proof {
        assert(strings_view(unreadable@) =~= norder@.map_values(|i: usize| nv[i as int]));
    }
    DelegationListResult { delegations, unreadable }
}

// ---------------------------------------------------------------------------
// Laws
// ---------------------------------------------------------------------------

/// A settlement on disk always wins over the live handle, and a run with
/// neither is unresolved: never cancelled, never failed.
pub proof fn law_settlement_outranks_memory(handle: Option<LiveDelegation>)
    ensures
        standing_spec(handle, true) == DelegationStanding::Settled,
        standing_spec(None, false) == DelegationStanding::Unresolved,
        handle matches Some(h) ==> standing_spec(handle, false) == (if h.cancellation_requested {
            DelegationStanding::CancellationRequested
        } else {
            DelegationStanding::Active
        }),
{
}


/// Each roster row of a run directory is the row of one directory whose plan
/// holds an agent task, under that directory's run id; where the directory
/// holds transcript evidence, the row reports the evidence's turns, tool
/// calls, termination and transcript digest, and where it holds none, no
/// turns and no tool calls; a settled directory's row carries the
/// settlement's status word and time, an unsettled one's neither.
pub proof fn law_roster_rows_report_their_evidence(
    dirs: Seq<DelegationDir>,
    live: Seq<(String, LiveDelegation)>,
    cases: Seq<CaseRecord>,
)
    ensures
        forall|k: int|
            #![trigger dir_rows(dirs, live, cases)[k]]
            0 <= k < dir_rows(dirs, live, cases).len() ==> reported_by_a_dir(dir_rows(dirs, live, cases)[k], dirs),
        dir_rows(dirs, live, cases) =~= roster_rows(dirs, live, cases).subrange(0, dir_rows(dirs, live, cases).len() as int),
    decreases dirs.len(),
{
    if dirs.len() > 0 {
        let pre = dirs.drop_last();
        law_roster_rows_report_their_evidence(pre, live, cases);
        let rows = dir_rows(dirs, live, cases);
        let prows = dir_rows(pre, live, cases);
        assert forall|k: int| #![trigger rows[k]] 0 <= k < rows.len() implies reported_by_a_dir(rows[k], dirs) by {
            if k < prows.len() {
                assert(rows[k] == prows[k]);
                let j = choose|j: int| 0 <= j < pre.len() && #[trigger] reports_dir(prows[k], pre[j]);
                assert(pre[j] == dirs[j]);
                assert(reports_dir(rows[k], dirs[j]));
            } else {
                assert(reports_dir(rows[k], dirs[dirs.len() - 1]));
            }
        }
    }
}

/// Row `r` is the row of one of the directories.
pub open spec fn reported_by_a_dir(r: RowView, dirs: Seq<DelegationDir>) -> bool {
    exists|j: int| 0 <= j < dirs.len() && #[trigger] reports_dir(r, dirs[j])
}

/// Row `r` is a directory `d`'s row: its run id, an agent-task plan, the
/// counts and digest its transcript evidence records, and its settlement's
/// word and time.
pub open spec fn reports_dir(r: RowView, d: DelegationDir) -> bool {
    &&& dir_task(d) is Some
    &&& r.run_id == d.run_id@
    &&& d.evidence matches Some(e) ==> {
        &&& r.turns_used == Some(e.turns_used)
        &&& r.tool_calls == Some(e.tool_calls)
        &&& r.termination == Some(e.termination@)
        &&& r.transcript_sha256 == Some(e.transcript_sha256@)
    }
    &&& d.evidence is None ==> r.turns_used is None && r.tool_calls is None && r.termination is None
    &&& d.settlement matches Some(st) ==> {
        &&& r.settled_at == Some(st.settled_at@)
        &&& st.status == SettlementStatus::Accepted ==> r.settlement == Some("accepted"@)
        &&& st.status == SettlementStatus::Rejected ==> r.settlement == Some("rejected"@)
        &&& st.status == SettlementStatus::Escalated ==> r.settlement == Some("escalated"@)
    }
    &&& d.settlement is None ==> r.settlement is None && r.settled_at is None
}

} // verus!
