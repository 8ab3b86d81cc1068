//! Server-owned, case-local dispatch: what each case-engine action does, how
//! an executable item becomes an episode, and how a dispatch ends. The
//! engine re-derives every scheduling decision from the case's events; the
//! decisions here are the ones the dispatcher adds.
use vstd::prelude::*;
use crate::json::{Json, JsonView, push_member, members_view, object_of};
use crate::envelope::{strings_view, opt_string_view};
use crate::text::{owned, str_eq, concat2, decimal, decimal_exec};

verus! {

/// A case submitted to the server, as its status reports it.
pub struct CaseEntry {
    pub case_id: String,
    pub state: String,
    pub exit_code: Option<i32>,
    pub run_dir: Option<String>,
}

/// A submission: the plan file to dispatch and the governance context.
pub struct SubmitPayload {
    /// Accepted for compatibility; it has no effect on dispatch.
    pub intent: Option<String>,
    pub plan: Option<String>,
    pub policy: String,
    pub entity: String,
    pub process: String,
    pub timeout: u64,
}

/// How a dispatch ended.
pub struct DispatchOutcome {
    pub case_id: String,
    /// `active`, `completed` or `terminated`.
    pub state: String,
    pub exit_code: u8,
}

/// The case engine's next actions.
pub enum CaseAction {
    Enable(String),
    AchieveMilestone(String),
    CompleteCase,
    TerminateCase { blocking_item: String },
    ParkHumanTask(String),
    Activate(String),
}

/// What the dispatcher does for an action.
pub enum DispatchEffect {
    /// Append this trace event (its kind's wire word) for the item, with this payload.
    Record { kind: String, item: Option<String>, payload: Json },
    /// Close the case completed.
    Complete,
    /// Drain the episodes in flight, then close the case terminated for this reason.
    Terminate { close_reason: String, payload: Json },
    /// Record the human task as activated and park the dispatch.
    Park { item: String, payload: Json },
    /// Dispatch an episode of this item.
    Dispatch { item: String },
}

pub open spec fn single(k: Seq<char>, v: JsonView) -> JsonView {
    JsonView::Object(seq![(k, v)])
}

fn single_member(k: &str, v: Json) -> (r: Json)
    ensures
        r@ == single(k@, v@),
{
    let mut m: Vec<(String, Json)> = Vec::new();
    push_member(&mut m, k, v);
    proof {
        assert(members_view(m@) =~= seq![(k@, v@)]);
    }
    object_of(m)
}

fn empty_object() -> (r: Json)
    ensures
        r@ == JsonView::Object(Seq::empty()),
{
    let m: Vec<(String, Json)> = Vec::new();
    proof {
        assert(members_view(m@) =~= Seq::<(Seq<char>, JsonView)>::empty());
    }
    object_of(m)
}

/// The effect of one case-engine action.
pub fn action_effect(action: CaseAction) -> (r: DispatchEffect)
    ensures
        match action {
            CaseAction::Enable(i) => r matches DispatchEffect::Record { kind, item, payload } && kind@ == "item_enabled"@
                && opt_string_view(item) == Some(i@) && payload@ == JsonView::Object(Seq::empty()),
            CaseAction::AchieveMilestone(i) => r matches DispatchEffect::Record { kind, item, payload } && kind@
                == "milestone_achieved"@ && opt_string_view(item) == Some(i@) && payload@ == JsonView::Object(Seq::empty()),
            CaseAction::CompleteCase => r is Complete,
            CaseAction::TerminateCase { blocking_item } => r matches DispatchEffect::Terminate { close_reason, payload }
                && close_reason@ == "required_item_failed:"@ + blocking_item@ && payload@ == single(
                "blocking_item"@,
                JsonView::Str(blocking_item@),
            ),
            CaseAction::ParkHumanTask(i) => r matches DispatchEffect::Park { item, payload } && item@ == i@ && payload@
                == single("human_task"@, JsonView::Bool(true)),
            CaseAction::Activate(i) => r matches DispatchEffect::Dispatch { item } && item@ == i@,
        },
{
    match action {
        CaseAction::Enable(i) => DispatchEffect::Record { kind: owned("item_enabled"), item: Some(i), payload: empty_object() },
        CaseAction::AchieveMilestone(i) => DispatchEffect::Record {
            kind: owned("milestone_achieved"),
            item: Some(i),
            payload: empty_object(),
        },
        CaseAction::CompleteCase => DispatchEffect::Complete,
        CaseAction::TerminateCase { blocking_item } => {
            let close_reason = concat2("required_item_failed:", blocking_item.as_str());
            let payload = single_member("blocking_item", Json::Str(blocking_item));
            DispatchEffect::Terminate { close_reason, payload }
        },
        CaseAction::ParkHumanTask(i) => DispatchEffect::Park { item: i, payload: single_member("human_task", Json::Bool(true)) },
        CaseAction::Activate(i) => DispatchEffect::Dispatch { item: i },
    }
}

/// The ending of a dispatch: parked with work still open, completed, or
/// terminated, each with its exit code.
pub fn parked(case_id: String) -> (r: DispatchOutcome)
    ensures
        r.case_id == case_id,
        r.state@ == "active"@,
        r.exit_code == 5,
{
    DispatchOutcome { case_id, state: owned("active"), exit_code: 5 }
}

pub fn completed(case_id: String) -> (r: DispatchOutcome)
    ensures
        r.case_id == case_id,
        r.state@ == "completed"@,
        r.exit_code == 0,
{
    DispatchOutcome { case_id, state: owned("completed"), exit_code: 0 }
}

pub fn terminated(case_id: String) -> (r: DispatchOutcome)
    ensures
        r.case_id == case_id,
        r.state@ == "terminated"@,
        r.exit_code == 3,
{
    DispatchOutcome { case_id, state: owned("terminated"), exit_code: 3 }
}

/// The kind of an item to activate, as dispatch reads it.
pub enum DispatchKind {
    SandboxedTask,
    AgentTask,
    /// Any other kind, by its `Debug` name.
    Other(String),
}

/// Only sandboxed and agent tasks can be dispatched; any other activated
/// kind is refused before any permit or side effect, with the episode kind
/// word of the ones that can.
pub fn episode_kind(kind: &DispatchKind) -> (r: Result<&'static str, String>)
    ensures
        match kind {
            DispatchKind::SandboxedTask => r matches Ok(w) && w@ == "sandboxed_task"@,
            DispatchKind::AgentTask => r matches Ok(w) && w@ == "agent_task"@,
            DispatchKind::Other(name) => r matches Err(m) && m@ == "non_executable item kind cannot be dispatched: "@
                + name@,
        },
{
    match kind {
        DispatchKind::SandboxedTask => Ok("sandboxed_task"),
        DispatchKind::AgentTask => Ok("agent_task"),
        DispatchKind::Other(name) => Err(concat2("non_executable item kind cannot be dispatched: ", name.as_str())),
    }
}

/// What the dispatch loop does at the end of one scan of ready actions.
#[derive(Clone, Copy, Debug, PartialEq, Eq, Structural)]
pub enum RoundEnd {
    /// Nothing is ready and nothing runs: the case is parked (active, exit 5).
    Park,
    /// Wait for one episode in flight to complete, record it, scan again.
    AwaitOne,
    /// A human task parked the case: record every episode in flight, then park.
    DrainThenPark,
    /// Scan again at once.
    Rescan,
}

/// The loop's decision after a scan: with no ready action it parks when
/// nothing is in flight and otherwise awaits one completion; after acting,
/// a parked human task drains and parks, a dispatch awaits one completion,
/// and anything else scans again.
pub open spec fn round_end_of(no_actions: bool, in_flight: nat, dispatched: bool, parked_human: bool) -> RoundEnd {
    if no_actions {
        if in_flight == 0 {
            RoundEnd::Park
        } else {
            RoundEnd::AwaitOne
        }
    } else if parked_human {
        RoundEnd::DrainThenPark
    } else if dispatched {
        RoundEnd::AwaitOne
    } else {
        RoundEnd::Rescan
    }
}

pub fn round_end(no_actions: bool, in_flight: usize, dispatched: bool, parked_human: bool) -> (r: RoundEnd)
    ensures
        r == round_end_of(no_actions, in_flight as nat, dispatched, parked_human),
{
    if no_actions {
        if in_flight == 0 {
            RoundEnd::Park
        } else {
            RoundEnd::AwaitOne
        }
    } else if parked_human {
        RoundEnd::DrainThenPark
    } else if dispatched {
        RoundEnd::AwaitOne
    } else {
        RoundEnd::Rescan
    }
}

/// The instance number of an item's next episode: one past the instances
/// the case projection counts for it (the first state naming it), else 1.
pub open spec fn next_instance_of(states: Seq<(String, u32)>, item: Seq<char>) -> int
    decreases states.len(),
{
    if states.len() == 0 {
        1
    } else if states[0].0@ == item {
        states[0].1 + 1
    } else {
        next_instance_of(states.drop_first(), item)
    }
}

pub fn next_instance(states: &Vec<(String, u32)>, item: &str) -> (r: u32)
    requires
        next_instance_of(states@, item@) <= u32::MAX,
    ensures
        r == next_instance_of(states@, item@),
{
    let mut i: usize = 0;
    proof {
        assert(states@.skip(0) =~= states@);
    }
    while i < states.len()
        invariant
            i <= states@.len(),
            next_instance_of(states@, item@) == next_instance_of(states@.skip(i as int), item@),
            next_instance_of(states@, item@) <= u32::MAX,
        decreases states@.len() - i,
    {
        proof {
            assert(states@.skip(i as int).drop_first() =~= states@.skip(i + 1));
            assert(states@.skip(i as int)[0] == states@[i as int]);
        }
        if str_eq(states[i].0.as_str(), item) {
            return states[i].1 + 1;
        }
        i += 1;
    }
    1
}

/// The settlement basis of an episode whose dispatch failed: the failure's
/// class is kept in the durable record.
pub fn dispatch_error_basis(class: &str) -> (r: Vec<String>)
    ensures
        strings_view(r@) == seq!["episode_dispatch_error"@, class@],
{
    let mut v: Vec<String> = Vec::new();
    v.push(owned("episode_dispatch_error"));
    v.push(owned(class));
    proof {
        assert(strings_view(v@) =~= seq!["episode_dispatch_error"@, class@]);
    }
    v
}

/// The status entry a finished dispatch leaves for its case.
pub fn entry_of(outcome: &DispatchOutcome) -> (r: CaseEntry)
    ensures
        r.case_id@ == outcome.case_id@,
        r.state@ == outcome.state@,
        r.exit_code == Some(outcome.exit_code as i32),
        r.run_dir is None,
{
    CaseEntry {
        case_id: outcome.case_id.clone(),
        state: outcome.state.clone(),
        exit_code: Some(outcome.exit_code as i32),
        run_dir: None,
    }
}

/// The response to a dispatched submission.
pub open spec fn submitted_view(case_id: Seq<char>, state: Seq<char>, exit_code: u8) -> JsonView {
    JsonView::Object(
        seq![
            ("case_id"@, JsonView::Str(case_id)),
            ("state"@, JsonView::Str(state)),
            ("exit_code"@, JsonView::Number(decimal(exit_code as nat))),
        ],
    )
}

pub fn submitted_response(outcome: &DispatchOutcome) -> (r: Json)
    ensures
        r@ == submitted_view(outcome.case_id@, outcome.state@, outcome.exit_code),
{
    let mut m: Vec<(String, Json)> = Vec::new();
    push_member(&mut m, "case_id", Json::Str(outcome.case_id.clone()));
    push_member(&mut m, "state", Json::Str(outcome.state.clone()));
    push_member(&mut m, "exit_code", Json::Number(decimal_exec(outcome.exit_code as u64)));
    proof {
        assert(members_view(m@) =~= seq![
            ("case_id"@, JsonView::Str(outcome.case_id@)),
            ("state"@, JsonView::Str(outcome.state@)),
            ("exit_code"@, JsonView::Number(decimal(outcome.exit_code as nat))),
        ]);
    }
    object_of(m)
}

/// The event a notify command receives when a run finishes.
pub fn notify_event(case_id: &str) -> (r: Json)
    ensures
        r@ == JsonView::Object(seq![("event"@, JsonView::Str("run_finished"@)), ("case_id"@, JsonView::Str(case_id@))]),
{
    let mut m: Vec<(String, Json)> = Vec::new();
    push_member(&mut m, "event", Json::Str(owned("run_finished")));
    push_member(&mut m, "case_id", Json::Str(owned(case_id)));
    proof {
        assert(members_view(m@) =~= seq![("event"@, JsonView::Str("run_finished"@)), ("case_id"@, JsonView::Str(case_id@))]);
    }
    object_of(m)
}

} // verus!
