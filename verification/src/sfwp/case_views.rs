//! Read-only projections of committed cases: the case list, one case's
//! overview, and its horizon folded from the case runner's trace events.
//! Execution standing and settlement standing are derived separately and
//! never from each other.
use vstd::prelude::*;
use crate::envelope::{strings_view, opt_string_view};
use crate::text::{owned, str_eq, concat2, concat3};
use crate::governed_settlement_return::SettlementStatus;
use vstd::string::StrSliceExecFns;

verus! {

/// How far an item has progressed as execution, from trace events only.
#[derive(Clone, Copy, Debug, PartialEq, Eq, Structural)]
pub enum ExecutionStanding {
    Pending,
    Enabled,
    Active,
    Completed,
    Failed,
    Terminated,
}

/// Whether a governed settlement has been recorded for the item.
#[derive(Clone, Copy, Debug, PartialEq, Eq, Structural)]
pub enum SettlementStanding {
    Unsettled,
    Accepted,
    Rejected,
    Escalated,
}

/// The trace event kinds the horizon folds.
#[derive(Clone, Copy, Debug, PartialEq, Eq, Structural)]
pub enum TraceKind {
    ItemEnabled,
    ItemActivated,
    ItemCompleted,
    HumanTaskCompleted,
    ItemFailed,
    ItemTerminated,
    SettlementRecorded,
    /// Any other kind: it moves no standing.
    Other,
}

/// A committed case record, as the views read it.
pub struct CaseRecord {
    pub case_id: String,
    /// The case state's wire word.
    pub state: String,
    pub summary: String,
    pub created_at: String,
    pub closed_at: Option<String>,
    pub close_reason: Option<String>,
    pub plan_ref: String,
    pub run_ids: Vec<String>,
    pub stages: Vec<String>,
}

/// A plan item, as the views read it.
pub struct PlanItemRecord {
    pub plan_item_id: String,
    pub name: String,
    /// The item kind's wire word.
    pub item_kind: String,
    pub parent_stage: Option<String>,
    pub depends_on: Vec<String>,
}

/// A case plan, as the views read it.
pub struct PlanRecord {
    pub template_ref: Option<String>,
    pub items: Vec<PlanItemRecord>,
}

/// A trace event of the case runner, as the horizon reads it.
pub struct TraceEventRecord {
    pub event_id: String,
    pub plan_item_id: Option<String>,
    pub kind: TraceKind,
    /// `payload.status`, when it is a string.
    pub status: Option<String>,
    pub timestamp: String,
    pub run_id: String,
}

/// A settlement record of a run, as the views read it.
pub struct SettlementRecord {
    pub settlement_id: String,
    pub status: SettlementStatus,
    pub basis: Vec<String>,
    pub review_required: bool,
    pub settled_at: String,
    /// The immutable criteria record the settlement judged against.
    pub criteria_ref: Option<String>,
}

/// One row of the case horizon.
pub struct HorizonItem {
    pub plan_item_id: String,
    pub name: String,
    pub item_kind: String,
    pub execution: ExecutionStanding,
    pub settlement: SettlementStanding,
    pub parent_stage: Option<String>,
    pub depends_on: Vec<String>,
    pub last_event_at: Option<String>,
    /// Runs that carried episodes of this item, in first-seen order.
    pub run_ids: Vec<String>,
}

/// `case.get_horizon` result body.
pub struct CaseHorizon {
    pub case_id: String,
    pub case_state: String,
    pub items: Vec<HorizonItem>,
    pub last_event_id: Option<String>,
    pub events_folded: usize,
}

/// One row of `case.list`.
pub struct CaseSummary {
    pub case_id: String,
    pub case_state: String,
    pub summary: String,
    pub created_at: String,
    pub closed_at: Option<String>,
    pub run_count: usize,
    pub close_reason: Option<String>,
}

/// `case.list` result body.
pub struct CaseListResult {
    /// Newest first.
    pub cases: Vec<CaseSummary>,
    /// Case directories whose record exists but cannot be read.
    pub unreadable: Vec<String>,
}

/// A settlement record linked to a run.
pub struct RunSettlement {
    pub run_id: String,
    pub status: SettlementStanding,
    pub basis: Vec<String>,
    pub review_required: bool,
    pub settled_at: String,
}

/// `case.get_overview` result body.
pub struct CaseOverview {
    pub case_id: String,
    pub case_state: String,
    pub summary: String,
    pub created_at: String,
    pub closed_at: Option<String>,
    pub close_reason: Option<String>,
    pub plan_ref: Option<String>,
    pub template_ref: Option<String>,
    pub item_count: usize,
    pub stages: Vec<String>,
    pub settlements: Vec<RunSettlement>,
    pub run_ids: Vec<String>,
}

/// Why a case view could not be produced.
pub enum CaseViewError {
    /// No case with a readable record for this id.
    NotFound(String),
    /// The record exists but could not be parsed.
    Unreadable(String),
}

impl CaseViewError {
    pub fn class(&self) -> (r: &'static str)
        ensures
            r@ == (match self {
                CaseViewError::NotFound(_) => "not_found"@,
                CaseViewError::Unreadable(_) => "record_unreadable"@,
            }),
    {
        match self {
            CaseViewError::NotFound(_) => "not_found",
            CaseViewError::Unreadable(_) => "record_unreadable",
        }
    }

    pub fn message(&self) -> (r: String)
        ensures
            r@ == (match self {
                CaseViewError::NotFound(id) => "no case record for "@ + id@,
                CaseViewError::Unreadable(detail) => detail@,
            }),
    {
        match self {
            CaseViewError::NotFound(id) => concat2("no case record for ", id.as_str()),
            CaseViewError::Unreadable(detail) => detail.clone(),
        }
    }
}

/// A case id addresses a directory, so only ASCII letters, digits, `-` and
/// `_` (1 to 128 of them) are accepted.
pub open spec fn is_case_id(s: Seq<char>) -> bool {
    0 < s.len() <= 128 && forall|i: int| 0 <= i < s.len() ==> crate::sfwp::correlation::safe_char(#[trigger] s[i]) == s[i]
}

pub fn valid_case_id(case_id: &str) -> (r: bool)
    ensures
        r == is_case_id(case_id@),
{
    let n = case_id.unicode_len();
    if n == 0 || n > 128 {
        return false;
    }
    let mut i: usize = 0;
    while i < n
        invariant
            n == case_id@.len(),
            i <= n,
            forall|j: int| 0 <= j < i ==> crate::sfwp::correlation::safe_char(#[trigger] case_id@[j]) == case_id@[j],
        decreases n - i,
    {
        let c = case_id.get_char(i);
        if !(crate::text::is_ascii_alnum_exec(c) || c == '-' || c == '_') {
            return false;
        }
        i += 1;
    }
    true
}

pub open spec fn standing_of(s: SettlementStatus) -> SettlementStanding {
    match s {
        SettlementStatus::Accepted => SettlementStanding::Accepted,
        SettlementStatus::Rejected => SettlementStanding::Rejected,
        SettlementStatus::Escalated => SettlementStanding::Escalated,
    }
}

pub fn settlement_standing(status: SettlementStatus) -> (r: SettlementStanding)
    ensures
        r == standing_of(status),
{
    match status {
        SettlementStatus::Accepted => SettlementStanding::Accepted,
        SettlementStatus::Rejected => SettlementStanding::Rejected,
        SettlementStatus::Escalated => SettlementStanding::Escalated,
    }
}

/// What reading a case record gave: nothing, an unparsable record (with
/// the parser's reason), or the record.
pub open spec fn case_outcome_view(found: &Option<Result<CaseRecord, String>>) -> Option<Result<Seq<char>, Seq<char>>> {
    match found {
        None => None,
        Some(Ok(c)) => Some(Ok(c.case_id@)),
        Some(Err(e)) => Some(Err(e@)),
    }
}

/// The case-record lookup: an invalid id or a missing record is not found,
/// an unparsable one is unreadable.
pub open spec fn lookup_refusal(case_id: Seq<char>, found: Option<Result<Seq<char>, Seq<char>>>) -> Option<(bool, Seq<char>)> {
    if !is_case_id(case_id) {
        Some((true, case_id))
    } else {
        match found {
            None => Some((true, case_id)),
            Some(Err(e)) => Some((false, "case "@ + case_id + " record is unreadable: "@ + e)),
            Some(Ok(_)) => None,
        }
    }
}

pub open spec fn error_view(e: &CaseViewError) -> (bool, Seq<char>) {
    match e {
        CaseViewError::NotFound(id) => (true, id@),
        CaseViewError::Unreadable(d) => (false, d@),
    }
}

fn read_case_outcome(case_id: &str, found: Option<Result<CaseRecord, String>>) -> (r: Result<CaseRecord, CaseViewError>)
    ensures
        match r {
            Ok(c) => lookup_refusal(case_id@, case_outcome_view(&found)) is None && found == Some(Ok::<CaseRecord, String>(c)),
            Err(e) => lookup_refusal(case_id@, case_outcome_view(&found)) == Some(error_view(&e)),
        },
{
    if !valid_case_id(case_id) {
        return Err(CaseViewError::NotFound(owned(case_id)));
    }
    match found {
        None => Err(CaseViewError::NotFound(owned(case_id))),
        Some(Err(e)) => {
            let mut m = concat3("case ", case_id, " record is unreadable: ");
            m.append(e.as_str());
            Err(CaseViewError::Unreadable(m))
        },
        Some(Ok(c)) => Ok(c),
    }
}

pub struct RunSettlementView {
    pub run_id: Seq<char>,
    pub status: SettlementStanding,
    pub basis: Seq<Seq<char>>,
    pub review_required: bool,
    pub settled_at: Seq<char>,
}

pub open spec fn run_settlement_view(s: RunSettlement) -> RunSettlementView {
    RunSettlementView {
        run_id: s.run_id@,
        status: s.status,
        basis: strings_view(s.basis@),
        review_required: s.review_required,
        settled_at: s.settled_at@,
    }
}

pub open spec fn settlement_row(run_id: Seq<char>, s: SettlementRecord) -> RunSettlementView {
    RunSettlementView {
        run_id,
        status: standing_of(s.status),
        basis: strings_view(s.basis@),
        review_required: s.review_required,
        settled_at: s.settled_at@,
    }
}

fn settlement_row_exec(run_id: &String, s: &SettlementRecord) -> (r: RunSettlement)
    ensures
        run_settlement_view(r) == settlement_row(run_id@, *s),
{
    RunSettlement {
        run_id: run_id.clone(),
        status: settlement_standing(s.status),
        basis: crate::envelope::clone_strings(&s.basis),
        review_required: s.review_required,
        settled_at: s.settled_at.clone(),
    }
}

/// The settlement read for `run`: the first read recorded under that run id.
pub open spec fn read_for(reads: Seq<(String, Option<SettlementRecord>)>, run: Seq<char>) -> Option<SettlementRecord>
    decreases reads.len(),
{
    if reads.len() == 0 {
        None
    } else if reads[0].0@ == run {
        reads[0].1
    } else {
        read_for(reads.drop_first(), run)
    }
}

/// The case's settlements: for each of its run ids in order, the run whose
/// settlement was read, with that run id.
pub open spec fn overview_settlements(run_ids: Seq<String>, reads: Seq<(String, Option<SettlementRecord>)>) -> Seq<RunSettlementView>
    decreases run_ids.len(),
{
    if run_ids.len() == 0 {
        Seq::empty()
    } else {
        let rest = overview_settlements(run_ids.drop_last(), reads);
        match read_for(reads, run_ids.last()@) {
            Some(s) => rest.push(settlement_row(run_ids.last()@, s)),
            None => rest,
        }
    }
}

fn find_read<'a>(reads: &'a Vec<(String, Option<SettlementRecord>)>, run: &str) -> (r: Option<&'a SettlementRecord>)
    ensures
        match r {
            Some(s) => read_for(reads@, run@) == Some(*s),
            None => read_for(reads@, run@) is None,
        },
{
    let mut i: usize = 0;
    proof {
        assert(reads@.skip(0) =~= reads@);
    }
    while i < reads.len()
        invariant
            i <= reads@.len(),
            read_for(reads@, run@) == read_for(reads@.skip(i as int), run@),
        decreases reads@.len() - i,
    {
        proof {
            assert(reads@.skip(i as int).drop_first() =~= reads@.skip(i + 1));
            assert(reads@.skip(i as int)[0] == reads@[i as int]);
        }
        if str_eq(reads[i].0.as_str(), run) {
            return match &reads[i].1 {
                Some(s) => Some(s),
                None => None,
            };
        }
        i += 1;
    }
    None
}

/// The overview of one case: its record's fields, the template and item
/// count of its plan when the plan is readable, and, for each of its run ids
/// in order, the run whose settlement was read (`settlement_reads` holds
/// what was read under each run id, none where nothing parsed).
pub fn get_overview(
    case_id: &str,
    found: Option<Result<CaseRecord, String>>,
    plan: Option<&PlanRecord>,
    settlement_reads: &Vec<(String, Option<SettlementRecord>)>,
) -> (r: Result<CaseOverview, CaseViewError>)
    ensures
        match r {
            Err(e) => lookup_refusal(case_id@, case_outcome_view(&found)) == Some(error_view(&e)),
            Ok(o) => lookup_refusal(case_id@, case_outcome_view(&found)) is None && (found matches Some(Ok(c)) && {
                &&& o.case_id@ == c.case_id@
                &&& o.case_state@ == c.state@
                &&& o.summary@ == c.summary@
                &&& o.created_at@ == c.created_at@
                &&& opt_string_view(o.closed_at) == opt_string_view(c.closed_at)
                &&& opt_string_view(o.close_reason) == opt_string_view(c.close_reason)
                &&& opt_string_view(o.plan_ref) == Some(c.plan_ref@)
                &&& opt_string_view(o.template_ref) == (match plan {
                    Some(p) => opt_string_view(p.template_ref),
                    None => None,
                })
                &&& o.item_count == (match plan {
                    Some(p) => p.items@.len(),
                    None => 0,
                })
                &&& strings_view(o.stages@) == strings_view(c.stages@)
                &&& strings_view(o.run_ids@) == strings_view(c.run_ids@)
                &&& o.settlements@.map_values(|s: RunSettlement| run_settlement_view(s))
                    == overview_settlements(c.run_ids@, settlement_reads@)
            }),
        },
{
    let case = match read_case_outcome(case_id, found) {
        Ok(c) => c,
        Err(e) => {
            return Err(e);
        },
    };
    let mut rows: Vec<RunSettlement> = Vec::new();
    let mut i: usize = 0;
    while i < case.run_ids.len()
        invariant
            i <= case.run_ids@.len(),
            rows@.map_values(|s: RunSettlement| run_settlement_view(s)) == overview_settlements(
                case.run_ids@.take(i as int),
                settlement_reads@,
            ),
        decreases case.run_ids@.len() - i,
    {
        proof {
            assert(case.run_ids@.take(i + 1).drop_last() =~= case.run_ids@.take(i as int));
            assert(case.run_ids@.take(i + 1).last() == case.run_ids@[i as int]);
        }
        let ghost before = rows@.map_values(|s: RunSettlement| run_settlement_view(s));
        match find_read(settlement_reads, case.run_ids[i].as_str()) {
            Some(s) => {
                let row = settlement_row_exec(&case.run_ids[i], s);
                rows.push(row);
                proof {
                    assert(rows@.map_values(|s: RunSettlement| run_settlement_view(s)) =~= before.push(run_settlement_view(row)));
                }
            },
            None => {},
        }
        i += 1;
    }
    proof {
        assert(case.run_ids@.take(case.run_ids@.len() as int) =~= case.run_ids@);
    }
    let (template_ref, item_count) = match plan {
        Some(p) => (p.template_ref.clone(), p.items.len()),
        None => (None, 0),
    };
    Ok(
        CaseOverview {
            case_id: case.case_id.clone(),
            case_state: case.state.clone(),
            summary: case.summary.clone(),
            created_at: case.created_at.clone(),
            closed_at: case.closed_at.clone(),
            close_reason: case.close_reason.clone(),
            plan_ref: Some(case.plan_ref.clone()),
            template_ref,
            item_count,
            stages: crate::envelope::clone_strings(&case.stages),
            settlements: rows,
            run_ids: crate::envelope::clone_strings(&case.run_ids),
        },
    )
}


// ---------------------------------------------------------------------------
// The horizon
// ---------------------------------------------------------------------------

pub struct RowView {
    pub plan_item_id: Seq<char>,
    pub name: Seq<char>,
    pub item_kind: Seq<char>,
    pub execution: ExecutionStanding,
    pub settlement: SettlementStanding,
    pub parent_stage: Option<Seq<char>>,
    pub depends_on: Seq<Seq<char>>,
    pub last_event_at: Option<Seq<char>>,
    pub run_ids: Seq<Seq<char>>,
}

pub open spec fn row_view(h: HorizonItem) -> RowView {
    RowView {
        plan_item_id: h.plan_item_id@,
        name: h.name@,
        item_kind: h.item_kind@,
        execution: h.execution,
        settlement: h.settlement,
        parent_stage: opt_string_view(h.parent_stage),
        depends_on: strings_view(h.depends_on@),
        last_event_at: opt_string_view(h.last_event_at),
        run_ids: strings_view(h.run_ids@),
    }
}

pub struct EventView {
    pub event_id: Seq<char>,
    pub plan_item_id: Option<Seq<char>>,
    pub kind: TraceKind,
    pub status: Option<Seq<char>>,
    pub timestamp: Seq<char>,
    pub run_id: Seq<char>,
}

pub open spec fn event_view(e: TraceEventRecord) -> EventView {
    EventView {
        event_id: e.event_id@,
        plan_item_id: opt_string_view(e.plan_item_id),
        kind: e.kind,
        status: opt_string_view(e.status),
        timestamp: e.timestamp@,
        run_id: e.run_id@,
    }
}

/// A plan item's row before any event: pending and unsettled.
pub open spec fn initial_row(it: PlanItemRecord) -> RowView {
    RowView {
        plan_item_id: it.plan_item_id@,
        name: it.name@,
        item_kind: it.item_kind@,
        execution: ExecutionStanding::Pending,
        settlement: SettlementStanding::Unsettled,
        parent_stage: opt_string_view(it.parent_stage),
        depends_on: strings_view(it.depends_on@),
        last_event_at: None,
        run_ids: Seq::empty(),
    }
}

/// Execution standing moves only on execution events; settlement standing
/// only on a recorded settlement's own status.
pub open spec fn apply_event(r: RowView, e: EventView) -> RowView {
    let execution = match e.kind {
        TraceKind::ItemEnabled => ExecutionStanding::Enabled,
        TraceKind::ItemActivated => ExecutionStanding::Active,
        TraceKind::ItemCompleted | TraceKind::HumanTaskCompleted => ExecutionStanding::Completed,
        TraceKind::ItemFailed => ExecutionStanding::Failed,
        TraceKind::ItemTerminated => ExecutionStanding::Terminated,
        _ => r.execution,
    };
    let settlement = if e.kind == TraceKind::SettlementRecorded && e.status is Some {
        let st = e.status->0;
        if st == "accepted"@ {
            SettlementStanding::Accepted
        } else if st == "rejected"@ {
            SettlementStanding::Rejected
        } else if st == "escalated"@ {
            SettlementStanding::Escalated
        } else {
            SettlementStanding::Unsettled
        }
    } else {
        r.settlement
    };
    RowView {
        execution,
        settlement,
        last_event_at: Some(e.timestamp),
        run_ids: if e.run_id.len() > 0 && !r.run_ids.contains(e.run_id) {
            r.run_ids.push(e.run_id)
        } else {
            r.run_ids
        },
        ..r
    }
}

/// A row folded over the events that name `id`.
pub open spec fn fold_row(r: RowView, events: Seq<EventView>, id: Seq<char>) -> RowView
    decreases events.len(),
{
    if events.len() == 0 {
        r
    } else {
        let prev = fold_row(r, events.drop_last(), id);
        if events.last().plan_item_id == Some(id) {
            apply_event(prev, events.last())
        } else {
            prev
        }
    }
}

/// The last plan item with id `id` (its row is the one the plan keeps).
pub open spec fn last_item(items: Seq<PlanItemRecord>, id: Seq<char>) -> int
    decreases items.len(),
{
    if items.len() == 0 {
        -1
    } else if items.last().plan_item_id@ == id {
        items.len() - 1
    } else {
        last_item(items.drop_last(), id)
    }
}

/// The horizon rows: one per plan item, in plan order.
pub open spec fn horizon_rows(items: Seq<PlanItemRecord>, events: Seq<EventView>) -> Seq<RowView> {
    items.map_values(|it: PlanItemRecord|
        fold_row(initial_row(items[last_item(items, it.plan_item_id@)]), events, it.plan_item_id@))
}

proof fn lemma_last_item(items: Seq<PlanItemRecord>, id: Seq<char>)
    ensures
        last_item(items, id) < items.len(),
        last_item(items, id) >= 0 ==> items[last_item(items, id)].plan_item_id@ == id,
        (exists|k: int| 0 <= k < items.len() && (#[trigger] items[k]).plan_item_id@ == id) ==> last_item(items, id) >= 0,
    decreases items.len(),
{
    if items.len() > 0 {
        lemma_last_item(items.drop_last(), id);
        if items.last().plan_item_id@ != id {
            if exists|k: int| 0 <= k < items.len() && (#[trigger] items[k]).plan_item_id@ == id {
                let k = choose|k: int| 0 <= k < items.len() && (#[trigger] items[k]).plan_item_id@ == id;
                assert(items.drop_last()[k] == items[k]);
            }
        }
    }
}

fn initial_row_exec(it: &PlanItemRecord) -> (r: HorizonItem)
    ensures
        row_view(r) == initial_row(*it),
{
    let r = HorizonItem {
        plan_item_id: it.plan_item_id.clone(),
        name: it.name.clone(),
        item_kind: it.item_kind.clone(),
        execution: ExecutionStanding::Pending,
        settlement: SettlementStanding::Unsettled,
        parent_stage: match &it.parent_stage {
            Some(p) => Some(p.clone()),
            None => None,
        },
        depends_on: crate::envelope::clone_strings(&it.depends_on),
        last_event_at: None,
        run_ids: Vec::new(),
    };
    proof {
        assert(strings_view(r.run_ids@) =~= Seq::<Seq<char>>::empty());
    }
    r
}

fn apply_event_exec(row: &mut HorizonItem, e: &TraceEventRecord)
    ensures
        row_view(*final(row)) == apply_event(row_view(*old(row)), event_view(*e)),
{
    match e.kind {
        TraceKind::ItemEnabled => row.execution = ExecutionStanding::Enabled,
        TraceKind::ItemActivated => row.execution = ExecutionStanding::Active,
        TraceKind::ItemCompleted | TraceKind::HumanTaskCompleted => row.execution = ExecutionStanding::Completed,
        TraceKind::ItemFailed => row.execution = ExecutionStanding::Failed,
        TraceKind::ItemTerminated => row.execution = ExecutionStanding::Terminated,
        TraceKind::SettlementRecorded => {
            match &e.status {
                Some(st) => {
                    row.settlement = if str_eq(st.as_str(), "accepted") {
                        SettlementStanding::Accepted
                    } else if str_eq(st.as_str(), "rejected") {
                        SettlementStanding::Rejected
                    } else if str_eq(st.as_str(), "escalated") {
                        SettlementStanding::Escalated
                    } else {
                        SettlementStanding::Unsettled
                    };
                },
                None => {},
            }
        },
        TraceKind::Other => {},
    }
    row.last_event_at = Some(e.timestamp.clone());
    if e.run_id.as_str().unicode_len() > 0 && !crate::envelope::contains_string(&row.run_ids, e.run_id.as_str()) {
        let ghost before = row.run_ids@;
        row.run_ids.push(e.run_id.clone());
        proof {
            assert(strings_view(row.run_ids@) =~= strings_view(before).push(e.run_id@));
        }
    }
}

/// Fold the case's trace events over its plan items: one row per item, in
/// plan order, with the execution and settlement standing the events give.
pub fn fold_horizon(
    case_id: &String,
    case_state: &String,
    items: &Vec<PlanItemRecord>,
    events: &Vec<TraceEventRecord>,
) -> (r: CaseHorizon)
    ensures
        r.case_id@ == case_id@,
        r.case_state@ == case_state@,
        r.items@.map_values(|h: HorizonItem| row_view(h)) == horizon_rows(items@, events@.map_values(|e: TraceEventRecord| event_view(e))),
        opt_string_view(r.last_event_id) == (if events@.len() > 0 {
            Some(events@.last().event_id@)
        } else {
            None
        }),
        r.events_folded == events@.len(),
{
    let ghost ev = events@.map_values(|e: TraceEventRecord| event_view(e));
    let mut rows: Vec<HorizonItem> = Vec::new();
    let mut k: usize = 0;
    while k < items.len()
        invariant
            ev == events@.map_values(|e: TraceEventRecord| event_view(e)),
            k <= items@.len(),
            rows@.len() == k,
            forall|j: int| 0 <= j < k ==> row_view(#[trigger] rows@[j]) == horizon_rows(items@, ev)[j],
        decreases items@.len() - k,
    {
        let id = &items[k].plan_item_id;
        // the row the plan keeps for this id is the last item's
        let mut last: usize = k;
        let mut m: usize = k + 1;
        proof {
            lemma_last_item(items@, id@);
        }
        while m < items.len()
            invariant
                k < items@.len(),
                id@ == items@[k as int].plan_item_id@,
                k <= last < m <= items@.len(),
                items@[last as int].plan_item_id@ == id@,
                forall|j: int| last < j < m ==> (#[trigger] items@[j]).plan_item_id@ != id@,
            decreases items@.len() - m,
        {
            if str_eq(items[m].plan_item_id.as_str(), id.as_str()) {
                last = m;
            }
            m += 1;
        }
        proof {
            lemma_last_is(items@, id@, last as int);
        }
        let mut row = initial_row_exec(&items[last]);
        let mut e: usize = 0;
        while e < events.len()
            invariant
                ev == events@.map_values(|x: TraceEventRecord| event_view(x)),
                e <= events@.len(),
                row_view(row) == fold_row(initial_row(items@[last as int]), ev.subrange(0, e as int), id@),
            decreases events@.len() - e,
        {
            proof {
                assert(ev.subrange(0, e + 1).drop_last() =~= ev.subrange(0, e as int));
                assert(ev.subrange(0, e + 1).last() == event_view(events@[e as int]));
            }
            let hit = match &events[e].plan_item_id {
                Some(p) => str_eq(p.as_str(), id.as_str()),
                None => false,
            };
            if hit {
                apply_event_exec(&mut row, &events[e]);
            }
            e += 1;
        }
        proof {
            assert(ev.subrange(0, events@.len() as int) =~= ev);
        }
        rows.push(row);
        k += 1;
    }
    proof {
        assert(rows@.map_values(|h: HorizonItem| row_view(h)) =~= horizon_rows(items@, ev));
    }
    let last_event_id = if events.len() > 0 {
        Some(events[events.len() - 1].event_id.clone())
    } else {
        None
    };
    CaseHorizon {
        case_id: case_id.clone(),
        case_state: case_state.clone(),
        items: rows,
        last_event_id,
        events_folded: events.len(),
    }
}

proof fn lemma_last_is(items: Seq<PlanItemRecord>, id: Seq<char>, last: int)
    requires
        0 <= last < items.len(),
        items[last].plan_item_id@ == id,
        forall|j: int| last < j < items.len() ==> (#[trigger] items[j]).plan_item_id@ != id,
    ensures
        last_item(items, id) == last,
    decreases items.len(),
{
    if items.len() - 1 != last {
        assert(items.last() == items[items.len() - 1]);
        lemma_last_is(items.drop_last(), id, last);
    }
}

/// The horizon of one case: the case-record lookup, then the fold of its
/// trace events over its plan's items (no items without a readable plan).
pub fn get_horizon(
    case_id: &str,
    found: Option<Result<CaseRecord, String>>,
    plan: Option<&PlanRecord>,
    events: &Vec<TraceEventRecord>,
) -> (r: Result<CaseHorizon, CaseViewError>)
    ensures
        match r {
            Err(e) => lookup_refusal(case_id@, case_outcome_view(&found)) == Some(error_view(&e)),
            Ok(h) => lookup_refusal(case_id@, case_outcome_view(&found)) is None && (found matches Some(Ok(c)) && {
                &&& h.case_id@ == c.case_id@
                &&& h.case_state@ == c.state@
                &&& h.items@.map_values(|x: HorizonItem| row_view(x)) == horizon_rows(
                    match plan {
                        Some(p) => p.items@,
                        None => Seq::empty(),
                    },
                    events@.map_values(|e: TraceEventRecord| event_view(e)),
                )
                &&& h.events_folded == events@.len()
            }),
        },
{
    let case = match read_case_outcome(case_id, found) {
        Ok(c) => c,
        Err(e) => {
            return Err(e);
        },
    };
    match plan {
        Some(p) => Ok(fold_horizon(&case.case_id, &case.state, &p.items, events)),
        None => {
            let none: Vec<PlanItemRecord> = Vec::new();
            let h = fold_horizon(&case.case_id, &case.state, &none, events);
            proof {
                assert(none@ =~= Seq::<PlanItemRecord>::empty());
            }
            Ok(h)
        },
    }
}


// ---------------------------------------------------------------------------
// The case list
// ---------------------------------------------------------------------------

pub struct SummaryView {
    pub case_id: Seq<char>,
    pub case_state: Seq<char>,
    pub summary: Seq<char>,
    pub created_at: Seq<char>,
    pub closed_at: Option<Seq<char>>,
    pub run_count: nat,
    pub close_reason: Option<Seq<char>>,
}

pub open spec fn summary_view(s: CaseSummary) -> SummaryView {
    SummaryView {
        case_id: s.case_id@,
        case_state: s.case_state@,
        summary: s.summary@,
        created_at: s.created_at@,
        closed_at: opt_string_view(s.closed_at),
        run_count: s.run_count as nat,
        close_reason: opt_string_view(s.close_reason),
    }
}

pub open spec fn summary_of(c: CaseRecord) -> SummaryView {
    SummaryView {
        case_id: c.case_id@,
        case_state: c.state@,
        summary: c.summary@,
        created_at: c.created_at@,
        closed_at: opt_string_view(c.closed_at),
        run_count: c.run_ids@.len(),
        close_reason: opt_string_view(c.close_reason),
    }
}

/// The readable case records among the directories, in directory order.
pub open spec fn readable_cases(dirs: Seq<(String, Option<Result<CaseRecord, String>>)>) -> Seq<CaseRecord>
    decreases dirs.len(),
{
    if dirs.len() == 0 {
        Seq::empty()
    } else {
        let rest = readable_cases(dirs.drop_last());
        match dirs.last().1 {
            Some(Ok(c)) => if is_case_id(dirs.last().0@) {
                rest.push(c)
            } else {
                rest
            },
            _ => rest,
        }
    }
}

/// The directories whose case record is present but unparsable.
pub open spec fn unreadable_dirs(dirs: Seq<(String, Option<Result<CaseRecord, String>>)>) -> Seq<Seq<char>>
    decreases dirs.len(),
{
    if dirs.len() == 0 {
        Seq::empty()
    } else {
        let rest = unreadable_dirs(dirs.drop_last());
        match dirs.last().1 {
            Some(Err(_)) => if is_case_id(dirs.last().0@) {
                rest.push(dirs.last().0@)
            } else {
                rest
            },
            _ => rest,
        }
    }
}

fn summary_exec(c: &CaseRecord) -> (r: CaseSummary)
    ensures
        summary_view(r) == summary_of(*c),
        r.case_id@ == c.case_id@,
        r.run_count == c.run_ids@.len(),
{
    CaseSummary {
        case_id: c.case_id.clone(),
        case_state: c.state.clone(),
        summary: c.summary.clone(),
        created_at: c.created_at.clone(),
        closed_at: c.closed_at.clone(),
        run_count: c.run_ids.len(),
        close_reason: c.close_reason.clone(),
    }
}

/// The case list of a cell, from its case directories (name and what
/// reading its record gave): readable cases newest first (by creation time,
/// then case id), and the names of directories whose record is unparsable,
/// in ascending order. Directories without a record, or whose name is not a
/// case id, are not cases.
pub fn list(dirs: Vec<(String, Option<Result<CaseRecord, String>>)>) -> (r: CaseListResult)
    ensures
        exists|order: Seq<usize>| {
            &&& #[trigger] crate::order::is_index_permutation(order, readable_cases(dirs@).len())
            &&& crate::order::ordered_by(readable_cases(dirs@).map_values(|c: CaseRecord| (c.created_at@, c.case_id@)), order, true)
            &&& r.cases@.map_values(|s: CaseSummary| summary_view(s)) == order.map_values(|i: usize| summary_of(readable_cases(dirs@)[i as int]))
        },
        exists|order: Seq<usize>| {
            &&& #[trigger] crate::order::is_index_permutation(order, unreadable_dirs(dirs@).len())
            &&& crate::order::ordered_by(unreadable_dirs(dirs@).map_values(|n: Seq<char>| (n, Seq::<char>::empty())), order, false)
            &&& strings_view(r.unreadable@) == order.map_values(|i: usize| unreadable_dirs(dirs@)[i as int])
        },
        forall|k: int|
            0 <= k < r.cases@.len() ==> exists|j: int|
                0 <= j < readable_cases(dirs@).len() && (#[trigger] r.cases@[k]).case_id@ == readable_cases(dirs@)[j].case_id@
                    && r.cases@[k].run_count == readable_cases(dirs@)[j].run_ids@.len(),
{
    let ghost dv = dirs@;
    let mut readable: Vec<&CaseRecord> = Vec::new();
    let mut names: Vec<String> = Vec::new();
    let mut i: usize = 0;
    while i < dirs.len()
        invariant
            dv == dirs@,
            i <= dirs@.len(),
            readable@.map_values(|c: &CaseRecord| *c) == readable_cases(dv.subrange(0, i as int)),
            strings_view(names@) == unreadable_dirs(dv.subrange(0, i as int)),
        decreases dirs@.len() - i,
    {
        proof {
            assert(dv.subrange(0, i + 1).drop_last() =~= dv.subrange(0, i as int));
            assert(dv.subrange(0, i + 1).last() == dirs@[i as int]);
        }
        let ghost r0 = readable@.map_values(|c: &CaseRecord| *c);
        let ghost n0 = strings_view(names@);
        if valid_case_id(dirs[i].0.as_str()) {
            match &dirs[i].1 {
                Some(Ok(c)) => {
                    readable.push(c);
                    proof {
                        assert(readable@.map_values(|c: &CaseRecord| *c) =~= r0.push(*c));
                    }
                },
                Some(Err(_)) => {
                    names.push(dirs[i].0.clone());
                    proof {
                        assert(strings_view(names@) =~= n0.push(dirs@[i as int].0@));
                    }
                },
                None => {},
            }
        }
        i += 1;
    }
    proof {
        assert(dv.subrange(0, dirs@.len() as int) =~= dv);
    }
    let ghost rv = readable@.map_values(|c: &CaseRecord| *c);
    // order the readable cases
    let mut keys: Vec<(String, String)> = Vec::new();
    let mut k: usize = 0;
    while k < readable.len()
        invariant
            k <= readable@.len(),
            keys@.len() == k,
            forall|j: int| 0 <= j < k ==> (#[trigger] keys@[j]).0@ == readable@[j].created_at@ && keys@[j].1@ == readable@[j].case_id@,
        decreases readable@.len() - k,
    {
        keys.push((readable[k].created_at.clone(), readable[k].case_id.clone()));
        k += 1;
    }
    proof {
        assert(crate::order::pairs_view(keys@) =~= rv.map_values(|c: CaseRecord| (c.created_at@, c.case_id@)));
    }
    let order = crate::order::order_by_pairs(&keys, true);
    let mut cases: Vec<CaseSummary> = Vec::new();
    let mut t: usize = 0;
    while t < order.len()
        invariant
            crate::order::is_index_permutation(order@, readable@.len()),
            t <= order@.len(),
            cases@.len() == t,
            forall|j: int| 0 <= j < t ==> summary_view(#[trigger] cases@[j]) == summary_of(rv[order@[j] as int]),
            rv == readable@.map_values(|c: &CaseRecord| *c),
        decreases order@.len() - t,
    {
        cases.push(summary_exec(readable[order[t]]));
        t += 1;
    }
    proof {
        assert(cases@.map_values(|s: CaseSummary| summary_view(s)) =~= order@.map_values(|i: usize| summary_of(rv[i as int])));
    }
    // order the unreadable names
    let ghost nv = strings_view(names@);
    let mut nkeys: Vec<(String, String)> = Vec::new();
    let mut k: usize = 0;
    while k < names.len()
        invariant
            k <= names@.len(),
            nkeys@.len() == k,
            forall|j: int| 0 <= j < k ==> (#[trigger] nkeys@[j]).0@ == names@[j]@ && nkeys@[j].1@ == Seq::<char>::empty(),
        decreases names@.len() - k,
    {
        nkeys.push((names[k].clone(), String::new()));
        k += 1;
    }
    proof {
        assert(crate::order::pairs_view(nkeys@) =~= nv.map_values(|n: Seq<char>| (n, Seq::<char>::empty())));
    }
    let norder = crate::order::order_by_pairs(&nkeys, false);
    let mut unreadable: Vec<String> = Vec::new();
    let mut t: usize = 0;
    while t < norder.len()
        invariant
            crate::order::is_index_permutation(norder@, names@.len()),
            t <= norder@.len(),
            unreadable@.len() == t,
            forall|j: int| 0 <= j < t ==> (#[trigger] unreadable@[j])@ == nv[norder@[j] as int],
            nv == strings_view(names@),
        decreases norder@.len() - t,
    {
        unreadable.push(names[norder[t]].clone());
        t += 1;
    }
    proof {
        assert(strings_view(unreadable@) =~= norder@.map_values(|i: usize| nv[i as int]));
    }
    proof {
        assert forall|k: int| 0 <= k < cases@.len() implies exists|j: int|
            0 <= j < readable_cases(dirs@).len() && (#[trigger] cases@[k]).case_id@ == readable_cases(dirs@)[j].case_id@
                && cases@[k].run_count == readable_cases(dirs@)[j].run_ids@.len() by {
            let j = order@[k] as int;
            assert(cases@.map_values(|s: CaseSummary| summary_view(s))[k] == summary_view(cases@[k]));
            assert(summary_view(cases@[k]) == summary_of(rv[j]));
        }
    }
    CaseListResult { cases, unreadable }
}


/// A case list row reports its own record: its id, state, summary, times,
/// close reason, and as run count the number of run ids the record holds.
pub proof fn law_case_row_reports_its_record(c: CaseRecord)
    ensures
        summary_of(c).case_id == c.case_id@,
        summary_of(c).case_state == c.state@,
        summary_of(c).summary == c.summary@,
        summary_of(c).created_at == c.created_at@,
        summary_of(c).closed_at == opt_string_view(c.closed_at),
        summary_of(c).close_reason == opt_string_view(c.close_reason),
        summary_of(c).run_count == c.run_ids@.len(),
{
}

/// The trace kinds that move a plan item's execution standing.
pub open spec fn moves_item_execution(k: TraceKind) -> bool {
    ||| k == TraceKind::ItemEnabled
    ||| k == TraceKind::ItemActivated
    ||| k == TraceKind::ItemCompleted
    ||| k == TraceKind::HumanTaskCompleted
    ||| k == TraceKind::ItemFailed
    ||| k == TraceKind::ItemTerminated
}

/// The execution standing an item has right after an event of kind `k`
/// that moves execution.
proof fn lemma_row_execution_follows(r: RowView, events: Seq<EventView>, id: Seq<char>, i: int)
    requires
        0 <= i < events.len(),
        events[i].plan_item_id == Some(id),
        moves_item_execution(events[i].kind),
        forall|j: int|
            i < j < events.len() && (#[trigger] events[j]).plan_item_id == Some(id) ==> !moves_item_execution(
                events[j].kind,
            ),
    ensures
        ({
            let k = events[i].kind;
            let x = fold_row(r, events, id).execution;
            &&& k == TraceKind::ItemEnabled ==> x == ExecutionStanding::Enabled
            &&& k == TraceKind::ItemActivated ==> x == ExecutionStanding::Active
            &&& (k == TraceKind::ItemCompleted || k == TraceKind::HumanTaskCompleted) ==> x == ExecutionStanding::Completed
            &&& k == TraceKind::ItemFailed ==> x == ExecutionStanding::Failed
            &&& k == TraceKind::ItemTerminated ==> x == ExecutionStanding::Terminated
        }),
    decreases events.len(),
{
    if i < events.len() - 1 {
        let pre = events.drop_last();
        assert forall|j: int|
            i < j < pre.len() && (#[trigger] pre[j]).plan_item_id == Some(id) implies !moves_item_execution(pre[j].kind) by {
            assert(pre[j] == events[j]);
        }
        assert(pre[i] == events[i]);
        lemma_row_execution_follows(r, pre, id, i);
        assert(events.last() == events[events.len() - 1]);
    }
}

/// A plan item's horizon row has the execution standing set by the last
/// event of the case trace that names the item and moves execution: enabled
/// after `item_enabled`, active after `item_activated`, completed after
/// `item_completed` or `human_task_completed`, failed after `item_failed`,
/// terminated after `item_terminated`. Later events of the item that move no
/// execution (a settlement, any other), and events of other items, leave it.
pub proof fn law_horizon_execution_follows_the_items_last_execution_event(
    items: Seq<PlanItemRecord>,
    events: Seq<EventView>,
    k: int,
    i: int,
)
    requires
        0 <= k < items.len(),
        0 <= i < events.len(),
        events[i].plan_item_id == Some(items[k].plan_item_id@),
        moves_item_execution(events[i].kind),
        forall|j: int|
            i < j < events.len() && (#[trigger] events[j]).plan_item_id == Some(items[k].plan_item_id@)
                ==> !moves_item_execution(events[j].kind),
    ensures
        horizon_rows(items, events).len() == items.len(),
        ({
            let kind = events[i].kind;
            let x = horizon_rows(items, events)[k].execution;
            &&& kind == TraceKind::ItemEnabled ==> x == ExecutionStanding::Enabled
            &&& kind == TraceKind::ItemActivated ==> x == ExecutionStanding::Active
            &&& (kind == TraceKind::ItemCompleted || kind == TraceKind::HumanTaskCompleted) ==> x
                == ExecutionStanding::Completed
            &&& kind == TraceKind::ItemFailed ==> x == ExecutionStanding::Failed
            &&& kind == TraceKind::ItemTerminated ==> x == ExecutionStanding::Terminated
        }),
{
    let id = items[k].plan_item_id@;
    lemma_row_execution_follows(initial_row(items[last_item(items, id)]), events, id, i);
}


/// Whether an event records a settlement with a status.
pub open spec fn records_settlement(e: EventView) -> bool {
    e.kind == TraceKind::SettlementRecorded && e.status is Some
}

proof fn lemma_row_settlement_follows(r: RowView, events: Seq<EventView>, id: Seq<char>, i: int)
    requires
        0 <= i < events.len(),
        events[i].plan_item_id == Some(id),
        records_settlement(events[i]),
        forall|j: int|
            i < j < events.len() && (#[trigger] events[j]).plan_item_id == Some(id) ==> !records_settlement(events[j]),
    ensures
        ({
            let st = events[i].status->0;
            let x = fold_row(r, events, id).settlement;
            &&& st == "accepted"@ ==> x == SettlementStanding::Accepted
            &&& st == "rejected"@ ==> x == SettlementStanding::Rejected
            &&& st == "escalated"@ ==> x == SettlementStanding::Escalated
            &&& (st != "accepted"@ && st != "rejected"@ && st != "escalated"@) ==> x == SettlementStanding::Unsettled
        }),
    decreases events.len(),
{
    reveal_strlit("accepted");
    reveal_strlit("rejected");
    reveal_strlit("escalated");
    assert("accepted"@[0] != "rejected"@[0] && "accepted"@[0] != "escalated"@[0] && "rejected"@[0] != "escalated"@[0]);
    if i < events.len() - 1 {
        let pre = events.drop_last();
        assert forall|j: int|
            i < j < pre.len() && (#[trigger] pre[j]).plan_item_id == Some(id) implies !records_settlement(pre[j]) by {
            assert(pre[j] == events[j]);
        }
        assert(pre[i] == events[i]);
        lemma_row_settlement_follows(r, pre, id, i);
        assert(events.last() == events[events.len() - 1]);
    }
}

/// A plan item's horizon row has the settlement standing of the last
/// settlement recorded for the item with a status: accepted, rejected or
/// escalated by that status's word, and unsettled for any other word.
/// Execution events and events of other items leave it.
pub proof fn law_horizon_settlement_follows_the_items_last_settlement(
    items: Seq<PlanItemRecord>,
    events: Seq<EventView>,
    k: int,
    i: int,
)
    requires
        0 <= k < items.len(),
        0 <= i < events.len(),
        events[i].plan_item_id == Some(items[k].plan_item_id@),
        records_settlement(events[i]),
        forall|j: int|
            i < j < events.len() && (#[trigger] events[j]).plan_item_id == Some(items[k].plan_item_id@)
                ==> !records_settlement(events[j]),
    ensures
        ({
            let st = events[i].status->0;
            let x = horizon_rows(items, events)[k].settlement;
            &&& st == "accepted"@ ==> x == SettlementStanding::Accepted
            &&& st == "rejected"@ ==> x == SettlementStanding::Rejected
            &&& st == "escalated"@ ==> x == SettlementStanding::Escalated
            &&& (st != "accepted"@ && st != "rejected"@ && st != "escalated"@) ==> x == SettlementStanding::Unsettled
        }),
{
    let id = items[k].plan_item_id@;
    lemma_row_settlement_follows(initial_row(items[last_item(items, id)]), events, id, i);
}


/// A plan item's horizon row was last touched at the time of the last event
/// of the case trace that names the item; a row no event names has no time.
pub proof fn law_horizon_row_last_event_time(r: RowView, events: Seq<EventView>, id: Seq<char>, i: int)
    requires
        0 <= i < events.len() ==> events[i].plan_item_id == Some(id),
        i < events.len(),
        i < 0 ==> r.last_event_at is None,
        forall|j: int| 0 <= j < events.len() && i < j ==> (#[trigger] events[j]).plan_item_id != Some(id),
    ensures
        0 <= i ==> fold_row(r, events, id).last_event_at == Some(events[i].timestamp),
        i < 0 ==> fold_row(r, events, id).last_event_at is None,
    decreases events.len(),
{
    if events.len() > 0 && i < events.len() - 1 {
        let pre = events.drop_last();
        assert forall|j: int| 0 <= j < pre.len() && i < j implies (#[trigger] pre[j]).plan_item_id != Some(id) by {
            assert(pre[j] == events[j]);
        }
        if i >= 0 {
            assert(pre[i] == events[i]);
        }
        law_horizon_row_last_event_time(r, pre, id, i);
        assert(events.last() == events[events.len() - 1]);
    }
}

} // verus!
