//! Start-up recovery of delegations that can no longer finish: a cancellation
//! that was requested but never settled, and an ACP session whose permission
//! request was orphaned by a restart. The plan of what to settle is decided
//! here from the case ledger's entries; the writes are the caller's.
use vstd::prelude::*;
use crate::json::{Json, JsonView, get_str, jget, jstr, opt_str_view};
use crate::envelope::strings_view;
use crate::text::{owned, str_eq};

verus! {

/// One entry of a case ledger, as far as recovery reads it.
pub struct LedgerEntry {
    pub record_kind: String,
    pub entry_ulid: String,
    pub payload: Json,
}

pub struct EntryView {
    pub record_kind: Seq<char>,
    pub entry_ulid: Seq<char>,
    pub payload: JsonView,
}

impl View for LedgerEntry {
    type V = EntryView;

    open spec fn view(&self) -> EntryView {
        EntryView { record_kind: self.record_kind@, entry_ulid: self.entry_ulid@, payload: self.payload@ }
    }
}

/// How a recovered delegation terminated.
#[derive(Clone, Copy, Debug, PartialEq, Eq, Structural)]
pub enum RecoveryKind {
    /// A cancellation was requested and never settled.
    Cancelled,
    /// An ACP permission request was left without its session.
    AcpDisconnect,
}

/// One delegation to settle as rejected.
pub struct RecoveryStep {
    pub kind: RecoveryKind,
    pub run_id: String,
    pub case_id: String,
    pub plan_item_id: String,
    /// The ACP session to record (for an orphaned permission request).
    pub session_id: Option<String>,
    /// The ledger entry the recovery descends from.
    pub cause_ulid: String,
}

pub struct StepView {
    pub kind: RecoveryKind,
    pub run_id: Seq<char>,
    pub case_id: Seq<char>,
    pub plan_item_id: Seq<char>,
    pub session_id: Option<Seq<char>>,
    pub cause_ulid: Seq<char>,
}

impl View for RecoveryStep {
    type V = StepView;

    open spec fn view(&self) -> StepView {
        StepView {
            kind: self.kind,
            run_id: self.run_id@,
            case_id: self.case_id@,
            plan_item_id: self.plan_item_id@,
            session_id: crate::envelope::opt_string_view(self.session_id),
            cause_ulid: self.cause_ulid@,
        }
    }
}

/// The recoveries to perform, in order, and the refusal that stops the scan
/// after them (a control or permission entry without a readable field).
pub struct RecoveryPlan {
    pub steps: Vec<RecoveryStep>,
    pub error: Option<String>,
}

pub struct PlanView {
    pub steps: Seq<StepView>,
    pub error: Option<Seq<char>>,
    /// The runs that are terminal after the scan.
    pub terminal: Seq<Seq<char>>,
}

pub open spec fn field(e: EntryView, k: Seq<char>) -> Option<Seq<char>> {
    jstr(jget(e.payload, k))
}

/// The runs that already carry a settlement, in ledger order.
pub open spec fn settled_runs(entries: Seq<EntryView>) -> Seq<Seq<char>>
    decreases entries.len(),
{
    if entries.len() == 0 {
        Seq::empty()
    } else {
        let rest = settled_runs(entries.drop_last());
        let e = entries.last();
        if e.record_kind == "settlement"@ && field(e, "run_id"@) is Some {
            rest.push(field(e, "run_id"@)->0)
        } else {
            rest
        }
    }
}

/// One entry of the cancellation pass, given the plan so far.
pub open spec fn control_step(p: PlanView, e: EntryView) -> PlanView {
    if p.error is Some || e.record_kind != "control_request"@ {
        p
    } else if field(e, "run_id"@) is None {
        PlanView { error: Some("invalid cancellation control run_id"@), ..p }
    } else if p.terminal.contains(field(e, "run_id"@)->0) {
        p
    } else if field(e, "plan_item_id"@) is None {
        PlanView { error: Some("invalid cancellation control plan_item_id"@), ..p }
    } else if field(e, "case_id"@) is None {
        PlanView { error: Some("invalid cancellation control case_id"@), ..p }
    } else {
        let run = field(e, "run_id"@)->0;
        PlanView {
            steps: p.steps.push(
                StepView {
                    kind: RecoveryKind::Cancelled,
                    run_id: run,
                    case_id: field(e, "case_id"@)->0,
                    plan_item_id: field(e, "plan_item_id"@)->0,
                    session_id: None,
                    cause_ulid: e.entry_ulid,
                },
            ),
            error: None,
            terminal: p.terminal.push(run),
        }
    }
}

/// One entry of the orphaned-permission pass, given the plan so far.
pub open spec fn permission_step(p: PlanView, e: EntryView) -> PlanView {
    if p.error is Some || e.record_kind != "permission_request"@ {
        p
    } else if field(e, "run_id"@) is None {
        PlanView { error: Some("invalid ACP permission run_id"@), ..p }
    } else if p.terminal.contains(field(e, "run_id"@)->0) {
        p
    } else if field(e, "case_id"@) is None {
        PlanView { error: Some("invalid ACP permission case_id"@), ..p }
    } else if field(e, "plan_item_id"@) is None {
        PlanView { error: Some("invalid ACP permission item_id"@), ..p }
    } else if field(e, "session_id"@) is None {
        PlanView { error: Some("invalid ACP permission session_id"@), ..p }
    } else {
        let run = field(e, "run_id"@)->0;
        PlanView {
            steps: p.steps.push(
                StepView {
                    kind: RecoveryKind::AcpDisconnect,
                    run_id: run,
                    case_id: field(e, "case_id"@)->0,
                    plan_item_id: field(e, "plan_item_id"@)->0,
                    session_id: field(e, "session_id"@),
                    cause_ulid: e.entry_ulid,
                },
            ),
            error: None,
            terminal: p.terminal.push(run),
        }
    }
}

pub open spec fn control_pass(p: PlanView, entries: Seq<EntryView>) -> PlanView
    decreases entries.len(),
{
    if entries.len() == 0 {
        p
    } else {
        control_step(control_pass(p, entries.drop_last()), entries.last())
    }
}

pub open spec fn permission_pass(p: PlanView, entries: Seq<EntryView>) -> PlanView
    decreases entries.len(),
{
    if entries.len() == 0 {
        p
    } else {
        permission_step(permission_pass(p, entries.drop_last()), entries.last())
    }
}

/// The recovery plan of one case ledger: first every unsettled cancellation,
/// then every orphaned ACP permission request, each run at most once.
pub open spec fn recovery_of(entries: Seq<EntryView>) -> PlanView {
    let start = PlanView { steps: Seq::empty(), error: None, terminal: settled_runs(entries) };
    permission_pass(control_pass(start, entries), entries)
}

pub open spec fn entries_view(v: Seq<LedgerEntry>) -> Seq<EntryView> {
    v.map_values(|e: LedgerEntry| e@)
}

fn contains_run(v: &Vec<String>, run: &str) -> (r: bool)
    ensures
        r == strings_view(v@).contains(run@),
{
    crate::envelope::contains_string(v, run)
}

/// The recovery plan of one case ledger's entries.
pub fn recovery_plan(entries: &Vec<LedgerEntry>) -> (r: RecoveryPlan)
    ensures
        r.steps@.map_values(|s: RecoveryStep| s@) == recovery_of(entries_view(entries@)).steps,
        crate::envelope::opt_string_view(r.error) == recovery_of(entries_view(entries@)).error,
{
    let ghost ev = entries_view(entries@);
    let mut terminal: Vec<String> = Vec::new();
    let mut i: usize = 0;
    while i < entries.len()
        invariant
            ev == entries_view(entries@),
            i <= entries@.len(),
            strings_view(terminal@) == settled_runs(ev.subrange(0, i as int)),
        decreases entries@.len() - i,
    {
        let ghost before = strings_view(terminal@);
        proof {
            assert(ev.subrange(0, i + 1).drop_last() =~= ev.subrange(0, i as int));
            assert(ev.subrange(0, i + 1).last() == entries@[i as int]@);
        }
        if str_eq(entries[i].record_kind.as_str(), "settlement") {
            match get_str(&entries[i].payload, "run_id") {
                Some(run) => {
                    terminal.push(owned(run));
                    proof {
                        assert(strings_view(terminal@) =~= before.push(run@));
                    }
                },
                None => {},
            }
        }
        i += 1;
    }
    proof {
        assert(ev.subrange(0, entries@.len() as int) =~= ev);
    }
    let ghost start = PlanView { steps: Seq::empty(), error: None, terminal: settled_runs(ev) };
    let mut steps: Vec<RecoveryStep> = Vec::new();
    let mut error: Option<String> = None;
    proof {
        assert(steps@.map_values(|s: RecoveryStep| s@) =~= Seq::<StepView>::empty());
        assert(control_pass(start, ev.subrange(0, 0)) == start);
    }
    let mut i: usize = 0;
    while i < entries.len() && error.is_none()
        invariant
            ev == entries_view(entries@),
            i <= entries@.len(),
            start == (PlanView { steps: Seq::empty(), error: None, terminal: settled_runs(ev) }),
            control_pass(start, ev.subrange(0, i as int)) == (PlanView {
                steps: steps@.map_values(|s: RecoveryStep| s@),
                error: crate::envelope::opt_string_view(error),
                terminal: strings_view(terminal@),
            }),
        decreases entries@.len() - i,
    {
        let ghost sv = steps@.map_values(|s: RecoveryStep| s@);
        let ghost tv = strings_view(terminal@);
        proof {
            assert(ev.subrange(0, i + 1).drop_last() =~= ev.subrange(0, i as int));
            assert(ev.subrange(0, i + 1).last() == entries@[i as int]@);
        }
        let e = &entries[i];
        if str_eq(e.record_kind.as_str(), "control_request") {
            match get_str(&e.payload, "run_id") {
                None => {
                    error = Some(owned("invalid cancellation control run_id"));
                },
                Some(run) => {
                    if !contains_run(&terminal, run) {
                        match get_str(&e.payload, "plan_item_id") {
                            None => {
                                error = Some(owned("invalid cancellation control plan_item_id"));
                            },
                            Some(item) => match get_str(&e.payload, "case_id") {
                                None => {
                                    error = Some(owned("invalid cancellation control case_id"));
                                },
                                Some(case) => {
                                    steps.push(
                                        RecoveryStep {
                                            kind: RecoveryKind::Cancelled,
                                            run_id: owned(run),
                                            case_id: owned(case),
                                            plan_item_id: owned(item),
                                            session_id: None,
                                            cause_ulid: e.entry_ulid.clone(),
                                        },
                                    );
                                    terminal.push(owned(run));
                                    proof {
                                        assert(steps@.map_values(|s: RecoveryStep| s@) =~= sv.push(
                                            steps@.last()@,
                                        ));
                                        assert(strings_view(terminal@) =~= tv.push(run@));
                                    }
                                },
                            },
                        }
                    }
                },
            }
        }
        i += 1;
    }
    proof {
        lemma_control_pass_stops(start, ev, i as int);
    }
    let ghost mid = control_pass(start, ev);
    proof {
        assert(permission_pass(mid, ev.subrange(0, 0)) == mid);
    }
    let mut i: usize = 0;
    while i < entries.len() && error.is_none()
        invariant
            ev == entries_view(entries@),
            i <= entries@.len(),
            permission_pass(mid, ev.subrange(0, i as int)) == (PlanView {
                steps: steps@.map_values(|s: RecoveryStep| s@),
                error: crate::envelope::opt_string_view(error),
                terminal: strings_view(terminal@),
            }),
        decreases entries@.len() - i,
    {
        let ghost sv = steps@.map_values(|s: RecoveryStep| s@);
        let ghost tv = strings_view(terminal@);
        proof {
            assert(ev.subrange(0, i + 1).drop_last() =~= ev.subrange(0, i as int));
            assert(ev.subrange(0, i + 1).last() == entries@[i as int]@);
        }
        let e = &entries[i];
        if str_eq(e.record_kind.as_str(), "permission_request") {
            match get_str(&e.payload, "run_id") {
                None => {
                    error = Some(owned("invalid ACP permission run_id"));
                },
                Some(run) => {
                    if !contains_run(&terminal, run) {
                        match get_str(&e.payload, "case_id") {
                            None => {
                                error = Some(owned("invalid ACP permission case_id"));
                            },
                            Some(case) => match get_str(&e.payload, "plan_item_id") {
                                None => {
                                    error = Some(owned("invalid ACP permission item_id"));
                                },
                                Some(item) => match get_str(&e.payload, "session_id") {
                                    None => {
                                        error = Some(owned("invalid ACP permission session_id"));
                                    },
                                    Some(session) => {
                                        steps.push(
                                            RecoveryStep {
                                                kind: RecoveryKind::AcpDisconnect,
                                                run_id: owned(run),
                                                case_id: owned(case),
                                                plan_item_id: owned(item),
                                                session_id: Some(owned(session)),
                                                cause_ulid: e.entry_ulid.clone(),
                                            },
                                        );
                                        terminal.push(owned(run));
                                        proof {
                                            assert(steps@.map_values(|s: RecoveryStep| s@) =~= sv.push(
                                                steps@.last()@,
                                            ));
                                            assert(strings_view(terminal@) =~= tv.push(run@));
                                        }
                                    },
                                },
                            },
                        }
                    }
                },
            }
        }
        i += 1;
    }
    proof {
        lemma_permission_pass_stops(mid, ev, i as int);
    }
    RecoveryPlan { steps, error }
}

/// Once the cancellation pass has stopped on a refusal, the rest of the
/// entries change nothing.
proof fn lemma_control_pass_stops(p: PlanView, entries: Seq<EntryView>, i: int)
    requires
        0 <= i <= entries.len(),
        i < entries.len() ==> control_pass(p, entries.subrange(0, i)).error is Some,
    ensures
        control_pass(p, entries) == control_pass(p, entries.subrange(0, i)),
    decreases entries.len() - i,
{
    if i == entries.len() {
        assert(entries.subrange(0, i) =~= entries);
    } else {
        assert(entries.subrange(0, i + 1).drop_last() =~= entries.subrange(0, i));
        lemma_control_pass_stops(p, entries, i + 1);
    }
}

proof fn lemma_permission_pass_stops(p: PlanView, entries: Seq<EntryView>, i: int)
    requires
        0 <= i <= entries.len(),
        i < entries.len() ==> permission_pass(p, entries.subrange(0, i)).error is Some,
    ensures
        permission_pass(p, entries) == permission_pass(p, entries.subrange(0, i)),
    decreases entries.len() - i,
{
    if i == entries.len() {
        assert(entries.subrange(0, i) =~= entries);
    } else {
        assert(entries.subrange(0, i + 1).drop_last() =~= entries.subrange(0, i));
        lemma_permission_pass_stops(p, entries, i + 1);
    }
}


pub open spec fn runs_of(steps: Seq<StepView>) -> Seq<Seq<char>> {
    steps.map_values(|s: StepView| s.run_id)
}

/// The plan so far recovers each run at most once, none of the `base` runs,
/// and counts as terminal exactly the base runs and the recovered ones.
pub open spec fn plan_sound(p: PlanView, base: Seq<Seq<char>>) -> bool {
    &&& p.terminal == base + runs_of(p.steps)
    &&& forall|i: int, j: int| 0 <= i < j < p.steps.len() ==> p.steps[i].run_id != p.steps[j].run_id
    &&& forall|i: int| 0 <= i < p.steps.len() ==> !base.contains(#[trigger] p.steps[i].run_id)
}

proof fn lemma_push_sound(p: PlanView, base: Seq<Seq<char>>, st: StepView, q: PlanView)
    requires
        plan_sound(p, base),
        !p.terminal.contains(st.run_id),
        q.steps == p.steps.push(st),
        q.terminal == p.terminal.push(st.run_id),
    ensures
        plan_sound(q, base),
{
    assert(runs_of(q.steps) =~= runs_of(p.steps).push(st.run_id));
    assert(q.terminal =~= base + runs_of(q.steps));
    assert forall|i: int| 0 <= i < p.steps.len() implies p.steps[i].run_id != st.run_id by {
        assert(p.terminal[base.len() + i] == p.steps[i].run_id);
    }
    assert forall|i: int| 0 <= i < q.steps.len() implies !base.contains(#[trigger] q.steps[i].run_id) by {
        if i == p.steps.len() {
            if base.contains(st.run_id) {
                let k = choose|k: int| 0 <= k < base.len() && base[k] == st.run_id;
                assert(p.terminal[k] == st.run_id);
            }
        }
    }
}

proof fn lemma_control_pass_sound(p: PlanView, base: Seq<Seq<char>>, entries: Seq<EntryView>)
    requires
        plan_sound(p, base),
    ensures
        plan_sound(control_pass(p, entries), base),
    decreases entries.len(),
{
    if entries.len() > 0 {
        lemma_control_pass_sound(p, base, entries.drop_last());
        let q = control_pass(p, entries.drop_last());
        let r = control_step(q, entries.last());
        if r.steps.len() != q.steps.len() {
            lemma_push_sound(q, base, r.steps.last(), r);
        }
    }
}

proof fn lemma_permission_pass_sound(p: PlanView, base: Seq<Seq<char>>, entries: Seq<EntryView>)
    requires
        plan_sound(p, base),
    ensures
        plan_sound(permission_pass(p, entries), base),
    decreases entries.len(),
{
    if entries.len() > 0 {
        lemma_permission_pass_sound(p, base, entries.drop_last());
        let q = permission_pass(p, entries.drop_last());
        let r = permission_step(q, entries.last());
        if r.steps.len() != q.steps.len() {
            lemma_push_sound(q, base, r.steps.last(), r);
        }
    }
}

/// Recovery settles each run at most once, and never a run the ledger
/// already holds a settlement for.
pub proof fn law_recovery_settles_each_run_once(entries: Seq<EntryView>)
    ensures
        forall|i: int, j: int|
            0 <= i < j < recovery_of(entries).steps.len() ==> recovery_of(entries).steps[i].run_id
                != recovery_of(entries).steps[j].run_id,
        forall|i: int|
            0 <= i < recovery_of(entries).steps.len() ==> !settled_runs(entries).contains(
                #[trigger] recovery_of(entries).steps[i].run_id,
            ),
{
    let base = settled_runs(entries);
    let start = PlanView { steps: Seq::empty(), error: None, terminal: base };
    assert(runs_of(start.steps) =~= Seq::<Seq<char>>::empty());
    assert(start.terminal =~= base + runs_of(start.steps));
    lemma_control_pass_sound(start, base, entries);
    lemma_permission_pass_sound(control_pass(start, entries), base, entries);
}

proof fn lemma_settled_runs_append(a: Seq<EntryView>, b: Seq<EntryView>)
    ensures
        settled_runs(a + b) == settled_runs(a) + settled_runs(b),
    decreases b.len(),
{
    if b.len() == 0 {
        assert(a + b =~= a);
        assert(settled_runs(a) + settled_runs(b) =~= settled_runs(a));
    } else {
        assert((a + b).drop_last() =~= a + b.drop_last());
        assert((a + b).last() == b.last());
        lemma_settled_runs_append(a, b.drop_last());
        assert(settled_runs(a) + settled_runs(b.drop_last()).push(field(b.last(), "run_id"@)->0) =~= (settled_runs(a)
            + settled_runs(b.drop_last())).push(field(b.last(), "run_id"@)->0));
    }
}

/// A settlement entry of `b` for run `r` makes `r` settled.
proof fn lemma_settled_runs_contains(b: Seq<EntryView>, j: int, r: Seq<char>)
    requires
        0 <= j < b.len(),
        b[j].record_kind == "settlement"@,
        field(b[j], "run_id"@) == Some(r),
    ensures
        settled_runs(b).contains(r),
    decreases b.len(),
{
    if j < b.len() - 1 {
        assert(b.drop_last()[j] == b[j]);
        lemma_settled_runs_contains(b.drop_last(), j, r);
        let rest = settled_runs(b.drop_last());
        let k = choose|k: int| 0 <= k < rest.len() && rest[k] == r;
        if b.last().record_kind == "settlement"@ && field(b.last(), "run_id"@) is Some {
            assert(settled_runs(b)[k] == r);
        } else {
            assert(settled_runs(b)[k] == r);
        }
    } else {
        assert(b.last() == b[j]);
        assert(settled_runs(b).last() == r);
    }
}

proof fn lemma_passes_append(p: PlanView, a: Seq<EntryView>, b: Seq<EntryView>)
    ensures
        control_pass(p, a + b) == control_pass(control_pass(p, a), b),
        permission_pass(p, a + b) == permission_pass(permission_pass(p, a), b),
    decreases b.len(),
{
    if b.len() == 0 {
        assert(a + b =~= a);
    } else {
        assert((a + b).drop_last() =~= a + b.drop_last());
        assert((a + b).last() == b.last());
        lemma_passes_append(p, a, b.drop_last());
    }
}

/// Entries that are neither control nor permission requests leave both
/// passes where they were.
proof fn lemma_passes_quiet(p: PlanView, b: Seq<EntryView>)
    requires
        forall|i: int|
            0 <= i < b.len() ==> (#[trigger] b[i]).record_kind != "control_request"@ && b[i].record_kind
                != "permission_request"@,
    ensures
        control_pass(p, b) == p,
        permission_pass(p, b) == p,
    decreases b.len(),
{
    if b.len() > 0 {
        assert forall|i: int| 0 <= i < b.drop_last().len() implies (#[trigger] b.drop_last()[i]).record_kind
            != "control_request"@ && b.drop_last()[i].record_kind != "permission_request"@ by {
            assert(b.drop_last()[i] == b[i]);
        }
        lemma_passes_quiet(p, b.drop_last());
        assert(b.last() == b[b.len() - 1]);
    }
}

/// Run beside a first scan that planned only runs terminal in `q`'s
/// terminal list and refused nothing, the cancellation pass leaves `q`
/// (with no steps and no refusal) as it was.
proof fn lemma_control_pass_idle(p: PlanView, q: PlanView, entries: Seq<EntryView>)
    requires
        q.error is None,
        forall|r: Seq<char>| p.terminal.contains(r) ==> q.terminal.contains(r),
        control_pass(p, entries).error is None,
        forall|i: int|
            0 <= i < control_pass(p, entries).steps.len() ==> q.terminal.contains(
                #[trigger] control_pass(p, entries).steps[i].run_id,
            ),
    ensures
        control_pass(q, entries) == q,
        forall|r: Seq<char>| control_pass(p, entries).terminal.contains(r) ==> q.terminal.contains(r),
    decreases entries.len(),
{
    if entries.len() > 0 {
        let pre = entries.drop_last();
        let p1 = control_pass(p, pre);
        let e = entries.last();
        let p2 = control_step(p1, e);
        assert(p1.error is None);
        assert(p2.steps.len() >= p1.steps.len());
        assert forall|i: int| 0 <= i < p1.steps.len() implies q.terminal.contains(#[trigger] p1.steps[i].run_id) by {
            assert(p2.steps[i] == p1.steps[i]);
        }
        lemma_control_pass_idle(p, q, pre);
        if e.record_kind == "control_request"@ && !p1.terminal.contains(field(e, "run_id"@)->0) {
            assert(p2.steps.last().run_id == field(e, "run_id"@)->0);
            assert(q.terminal.contains(p2.steps[p2.steps.len() - 1].run_id));
            assert forall|r: Seq<char>| p2.terminal.contains(r) implies q.terminal.contains(r) by {
                if r != field(e, "run_id"@)->0 {
                    let k = choose|k: int| 0 <= k < p2.terminal.len() && p2.terminal[k] == r;
                    assert(p1.terminal[k] == r);
                }
            }
        }
    }
}

/// The same for the orphaned-permission pass.
proof fn lemma_permission_pass_idle(p: PlanView, q: PlanView, entries: Seq<EntryView>)
    requires
        q.error is None,
        forall|r: Seq<char>| p.terminal.contains(r) ==> q.terminal.contains(r),
        permission_pass(p, entries).error is None,
        forall|i: int|
            0 <= i < permission_pass(p, entries).steps.len() ==> q.terminal.contains(
                #[trigger] permission_pass(p, entries).steps[i].run_id,
            ),
    ensures
        permission_pass(q, entries) == q,
        forall|r: Seq<char>| permission_pass(p, entries).terminal.contains(r) ==> q.terminal.contains(r),
    decreases entries.len(),
{
    if entries.len() > 0 {
        let pre = entries.drop_last();
        let p1 = permission_pass(p, pre);
        let e = entries.last();
        let p2 = permission_step(p1, e);
        assert(p1.error is None);
        assert(p2.steps.len() >= p1.steps.len());
        assert forall|i: int| 0 <= i < p1.steps.len() implies q.terminal.contains(#[trigger] p1.steps[i].run_id) by {
            assert(p2.steps[i] == p1.steps[i]);
        }
        lemma_permission_pass_idle(p, q, pre);
        if e.record_kind == "permission_request"@ && !p1.terminal.contains(field(e, "run_id"@)->0) {
            assert(p2.steps.last().run_id == field(e, "run_id"@)->0);
            assert(q.terminal.contains(p2.steps[p2.steps.len() - 1].run_id));
            assert forall|r: Seq<char>| p2.terminal.contains(r) implies q.terminal.contains(r) by {
                if r != field(e, "run_id"@)->0 {
                    let k = choose|k: int| 0 <= k < p2.terminal.len() && p2.terminal[k] == r;
                    assert(p1.terminal[k] == r);
                }
            }
        }
    }
}

/// The permission pass keeps the steps it was given, in front, and never
/// clears a refusal.
proof fn lemma_permission_pass_extends(p: PlanView, entries: Seq<EntryView>)
    ensures
        permission_pass(p, entries).steps.len() >= p.steps.len(),
        forall|i: int| 0 <= i < p.steps.len() ==> #[trigger] permission_pass(p, entries).steps[i] == p.steps[i],
        p.error is Some ==> permission_pass(p, entries).error is Some,
    decreases entries.len(),
{
    if entries.len() > 0 {
        lemma_permission_pass_extends(p, entries.drop_last());
    }
}

/// Recovering twice recovers nothing the second time: once a scan that
/// refused nothing has been carried out, with a settlement entry appended
/// for each run it planned (and, besides those, only entries that are
/// neither control nor permission requests), the next scan plans no step
/// and refuses nothing.
pub proof fn law_recovery_is_idempotent(entries: Seq<EntryView>, appended: Seq<EntryView>)
    requires
        recovery_of(entries).error is None,
        forall|i: int|
            0 <= i < appended.len() ==> (#[trigger] appended[i]).record_kind != "control_request"@
                && appended[i].record_kind != "permission_request"@,
        forall|i: int|
            0 <= i < recovery_of(entries).steps.len() ==> exists|j: int|
                0 <= j < appended.len() && appended[j].record_kind == "settlement"@ && #[trigger] field(
                    appended[j],
                    "run_id"@,
                ) == Some(#[trigger] recovery_of(entries).steps[i].run_id),
    ensures
        recovery_of(entries + appended).steps.len() == 0,
        recovery_of(entries + appended).error is None,
{
    let s1 = settled_runs(entries);
    let s2 = settled_runs(entries + appended);
    lemma_settled_runs_append(entries, appended);
    let start1 = PlanView { steps: Seq::empty(), error: None, terminal: s1 };
    let start2 = PlanView { steps: Seq::empty(), error: None, terminal: s2 };
    let c1 = control_pass(start1, entries);
    let f1 = permission_pass(c1, entries);
    assert(f1 == recovery_of(entries));
    lemma_permission_pass_extends(c1, entries);
    assert forall|r: Seq<char>| s1.contains(r) implies s2.contains(r) by {
        let k = choose|k: int| 0 <= k < s1.len() && s1[k] == r;
        assert(s2[k] == r);
    }
    assert forall|i: int| 0 <= i < f1.steps.len() implies s2.contains(#[trigger] f1.steps[i].run_id) by {
        let j = choose|j: int|
            0 <= j < appended.len() && appended[j].record_kind == "settlement"@ && #[trigger] field(appended[j], "run_id"@)
                == Some(f1.steps[i].run_id);
        lemma_settled_runs_contains(appended, j, f1.steps[i].run_id);
        let t = settled_runs(appended);
        let k = choose|k: int| 0 <= k < t.len() && t[k] == f1.steps[i].run_id;
        assert(s2[s1.len() + k] == f1.steps[i].run_id);
    }
    assert forall|i: int| 0 <= i < c1.steps.len() implies s2.contains(#[trigger] c1.steps[i].run_id) by {
        assert(f1.steps[i] == c1.steps[i]);
    }
    lemma_control_pass_idle(start1, start2, entries);
    lemma_permission_pass_idle(c1, start2, entries);
    lemma_passes_append(start2, entries, appended);
    lemma_passes_quiet(start2, appended);
    lemma_passes_append(control_pass(start2, entries + appended), entries, appended);
    assert(control_pass(start2, entries + appended) == start2);
    assert(recovery_of(entries + appended) == permission_pass(start2, entries + appended));
}


/// A plan item as recovery reads it: its id and, when its first operation
/// is an agent task, that task's endpoint.
pub struct PlanItemRef {
    pub plan_item_id: String,
    pub agent_endpoint: Option<String>,
}

/// A delegation's plan as recovery reads it.
pub struct DelegationPlanRef {
    pub case_id: String,
    pub run_id: String,
    pub items: Vec<PlanItemRef>,
}

/// The first item with id `item`.
pub open spec fn find_item(items: Seq<PlanItemRef>, item: Seq<char>) -> Option<int>
    decreases items.len(),
{
    if items.len() == 0 {
        None
    } else {
        match find_item(items.drop_last(), item) {
            Some(i) => Some(i),
            None => if items.last().plan_item_id@ == item {
                Some(items.len() - 1)
            } else {
                None
            },
        }
    }
}

/// The endpoint a recovered delegation ran against, read off its plan, or
/// why the plan cannot stand for the recovered step.
pub open spec fn plan_endpoint(plan: DelegationPlanRef, step: StepView) -> Result<Seq<char>, Seq<char>> {
    if plan.case_id@ != step.case_id || plan.run_id@ != step.run_id {
        Err(
            match step.kind {
                RecoveryKind::Cancelled => "cancelled delegation control does not match plan identity"@,
                RecoveryKind::AcpDisconnect => "orphaned ACP permission does not match plan identity"@,
            },
        )
    } else {
        match find_item(plan.items@, step.plan_item_id) {
            Some(i) if plan.items@[i].agent_endpoint is Some => Ok(plan.items@[i].agent_endpoint->0@),
            _ => Err(
                match step.kind {
                    RecoveryKind::Cancelled => "cancelled delegation plan missing agent_task"@,
                    RecoveryKind::AcpDisconnect => "orphaned ACP plan missing agent task"@,
                },
            ),
        }
    }
}

proof fn lemma_find_item(items: Seq<PlanItemRef>, item: Seq<char>)
    ensures
        find_item(items, item) matches Some(i) ==> 0 <= i < items.len() && items[i].plan_item_id@ == item
            && forall|j: int| 0 <= j < i ==> (#[trigger] items[j]).plan_item_id@ != item,
        find_item(items, item) is None ==> forall|j: int| 0 <= j < items.len() ==> (#[trigger] items[j]).plan_item_id@ != item,
    decreases items.len(),
{
    if items.len() > 0 {
        lemma_find_item(items.drop_last(), item);
        assert forall|j: int| 0 <= j < items.len() - 1 implies items.drop_last()[j] == #[trigger] items[j] by {}
    }
}

proof fn lemma_find_item_char(items: Seq<PlanItemRef>, item: Seq<char>)
    ensures
        forall|i: int| 0 <= i < items.len() && items[i].plan_item_id@ == item && (forall|j: int| 0 <= j < i ==> (#[trigger] items[j]).plan_item_id@ != item) ==> find_item(items, item) == Some(i),
        (forall|j: int| 0 <= j < items.len() ==> (#[trigger] items[j]).plan_item_id@ != item) ==> find_item(items, item) is None,
{
    lemma_find_item(items, item);
}

pub open spec fn result_text_view(r: Result<String, String>) -> Result<Seq<char>, Seq<char>> {
    match r {
        Ok(x) => Ok(x@),
        Err(x) => Err(x@),
    }
}

/// The endpoint of the agent task a recovered step settles, from its plan.
pub fn plan_agent_endpoint(plan: &DelegationPlanRef, step: &RecoveryStep) -> (r: Result<String, String>)
    ensures
        result_text_view(r) == plan_endpoint(*plan, step@),
{
    if !str_eq(plan.case_id.as_str(), step.case_id.as_str()) || !str_eq(plan.run_id.as_str(), step.run_id.as_str()) {
        return Err(
            match step.kind {
                RecoveryKind::Cancelled => owned("cancelled delegation control does not match plan identity"),
                RecoveryKind::AcpDisconnect => owned("orphaned ACP permission does not match plan identity"),
            },
        );
    }
    let ghost iv = plan.items@;
    proof {
        lemma_find_item_char(iv, step.plan_item_id@);
    }
    let mut i: usize = 0;
    while i < plan.items.len()
        invariant
            iv == plan.items@,
            plan.case_id@ == step.case_id@,
            plan.run_id@ == step.run_id@,
            i <= iv.len(),
            forall|j: int| 0 <= j < i ==> (#[trigger] iv[j]).plan_item_id@ != step.plan_item_id@,
            forall|k: int| 0 <= k < iv.len() && iv[k].plan_item_id@ == step.plan_item_id@ && (forall|j: int| 0 <= j < k ==> (#[trigger] iv[j]).plan_item_id@ != step.plan_item_id@) ==> find_item(iv, step.plan_item_id@) == Some(k),
            (forall|j: int| 0 <= j < iv.len() ==> (#[trigger] iv[j]).plan_item_id@ != step.plan_item_id@) ==> find_item(iv, step.plan_item_id@) is None,
        decreases iv.len() - i,
    {
        if str_eq(plan.items[i].plan_item_id.as_str(), step.plan_item_id.as_str()) {
            proof {
                assert(find_item(iv, step.plan_item_id@) == Some(i as int));
            }
            return match &plan.items[i].agent_endpoint {
                Some(e) => Ok(e.clone()),
                None => Err(
                    match step.kind {
                        RecoveryKind::Cancelled => owned("cancelled delegation plan missing agent_task"),
                        RecoveryKind::AcpDisconnect => owned("orphaned ACP plan missing agent task"),
                    },
                ),
            };
        }
        i += 1;
    }
    Err(
        match step.kind {
            RecoveryKind::Cancelled => owned("cancelled delegation plan missing agent_task"),
            RecoveryKind::AcpDisconnect => owned("orphaned ACP plan missing agent task"),
        },
    )
}


/// What a recovered delegation records of itself: how it ended, that it
/// records an ACP session first (for an orphaned permission request), and
/// its rejected settlement with the one basis word of its ending; no turn
/// was taken, no tool called, nothing answered.
pub struct RecoveredOutcome {
    pub termination: crate::delegation::DelegationTermination,
    pub records_session: bool,
    pub status: crate::governed_settlement_return::SettlementStatus,
    pub basis: Vec<String>,
    pub turns_used: u32,
    pub tool_calls: u32,
    pub final_excerpt: String,
}

pub open spec fn recovered_termination(kind: RecoveryKind) -> crate::delegation::DelegationTermination {
    match kind {
        RecoveryKind::Cancelled => crate::delegation::DelegationTermination::Cancelled,
        RecoveryKind::AcpDisconnect => crate::delegation::DelegationTermination::AcpDisconnect,
    }
}

pub open spec fn recovered_basis(kind: RecoveryKind) -> Seq<char> {
    match kind {
        RecoveryKind::Cancelled => "cancelled"@,
        RecoveryKind::AcpDisconnect => "acp_disconnect"@,
    }
}

/// The outcome recovery records for a delegation recovered as `kind`.
pub fn recovered_outcome(kind: RecoveryKind) -> (r: RecoveredOutcome)
    ensures
        r.termination == recovered_termination(kind),
        r.records_session == (kind == RecoveryKind::AcpDisconnect),
        r.status == crate::governed_settlement_return::SettlementStatus::Rejected,
        strings_view(r.basis@) == seq![recovered_basis(kind)],
        r.turns_used == 0,
        r.tool_calls == 0,
        r.final_excerpt@.len() == 0,
{
    let (termination, word, records_session) = match kind {
        RecoveryKind::Cancelled => (crate::delegation::DelegationTermination::Cancelled, "cancelled", false),
        RecoveryKind::AcpDisconnect => (crate::delegation::DelegationTermination::AcpDisconnect, "acp_disconnect", true),
    };
    let mut basis: Vec<String> = Vec::new();
    basis.push(owned(word));
    proof {
        assert(strings_view(basis@) =~= seq![recovered_basis(kind)]);
    }
    RecoveredOutcome {
        termination,
        records_session,
        status: crate::governed_settlement_return::SettlementStatus::Rejected,
        basis,
        turns_used: 0,
        tool_calls: 0,
        final_excerpt: String::new(),
    }
}


/// Step `s` was planned from ledger entry `e`: it names the entry as its
/// cause and carries the entry's run, case and plan item; a cancellation
/// comes from a control request, an orphaned permission from a permission
/// request, whose session it records.
pub open spec fn planned_from(s: StepView, e: EntryView) -> bool {
    &&& s.cause_ulid == e.entry_ulid
    &&& field(e, "run_id"@) == Some(s.run_id)
    &&& field(e, "case_id"@) == Some(s.case_id)
    &&& field(e, "plan_item_id"@) == Some(s.plan_item_id)
    &&& s.kind == RecoveryKind::Cancelled ==> e.record_kind == "control_request"@ && s.session_id is None
    &&& s.kind == RecoveryKind::AcpDisconnect ==> e.record_kind == "permission_request"@ && s.session_id == field(
        e,
        "session_id"@,
    )
}

/// Step `s` was planned from one of `entries`.
pub open spec fn planned_from_one_of(s: StepView, entries: Seq<EntryView>) -> bool {
    exists|j: int| 0 <= j < entries.len() && #[trigger] planned_from(s, entries[j])
}

proof fn lemma_planned_from_prefix(s: StepView, entries: Seq<EntryView>)
    requires
        entries.len() > 0,
        planned_from_one_of(s, entries.drop_last()),
    ensures
        planned_from_one_of(s, entries),
{
    let j = choose|j: int| 0 <= j < entries.drop_last().len() && #[trigger] planned_from(s, entries.drop_last()[j]);
    assert(entries.drop_last()[j] == entries[j]);
    assert(planned_from(s, entries[j]));
}

/// Both passes keep the steps they were given and plan each new one from
/// one of the entries they read.
proof fn lemma_passes_plan_from_entries(p: PlanView, entries: Seq<EntryView>)
    ensures
        control_pass(p, entries).steps.len() >= p.steps.len(),
        forall|i: int| 0 <= i < p.steps.len() ==> #[trigger] control_pass(p, entries).steps[i] == p.steps[i],
        forall|i: int|
            p.steps.len() <= i < control_pass(p, entries).steps.len() ==> planned_from_one_of(
                #[trigger] control_pass(p, entries).steps[i],
                entries,
            ),
        permission_pass(p, entries).steps.len() >= p.steps.len(),
        forall|i: int| 0 <= i < p.steps.len() ==> #[trigger] permission_pass(p, entries).steps[i] == p.steps[i],
        forall|i: int|
            p.steps.len() <= i < permission_pass(p, entries).steps.len() ==> planned_from_one_of(
                #[trigger] permission_pass(p, entries).steps[i],
                entries,
            ),
    decreases entries.len(),
{
    if entries.len() > 0 {
        let pre = entries.drop_last();
        let e = entries.last();
        lemma_passes_plan_from_entries(p, pre);
        let c0 = control_pass(p, pre);
        let c1 = control_step(c0, e);
        assert forall|i: int| p.steps.len() <= i < c1.steps.len() implies planned_from_one_of(#[trigger] c1.steps[i], entries) by {
            if i < c0.steps.len() {
                assert(c1.steps[i] == c0.steps[i]);
                lemma_planned_from_prefix(c0.steps[i], entries);
            } else {
                assert(planned_from(c1.steps[i], entries[entries.len() - 1]));
            }
        }
        let q0 = permission_pass(p, pre);
        let q1 = permission_step(q0, e);
        assert forall|i: int| p.steps.len() <= i < q1.steps.len() implies planned_from_one_of(#[trigger] q1.steps[i], entries) by {
            if i < q0.steps.len() {
                assert(q1.steps[i] == q0.steps[i]);
                lemma_planned_from_prefix(q0.steps[i], entries);
            } else {
                assert(planned_from(q1.steps[i], entries[entries.len() - 1]));
            }
        }
    }
}

/// Every recovery step descends from a ledger entry of the case: it names
/// that entry as its cause and settles the run, case and plan item the entry
/// names (a cancellation from a control request; an orphaned permission from
/// a permission request, with its session).
pub proof fn law_recovery_steps_descend_from_their_entries(entries: Seq<EntryView>)
    ensures
        forall|i: int|
            0 <= i < recovery_of(entries).steps.len() ==> planned_from_one_of(
                #[trigger] recovery_of(entries).steps[i],
                entries,
            ),
{
    let start = PlanView { steps: Seq::empty(), error: None, terminal: settled_runs(entries) };
    let c = control_pass(start, entries);
    lemma_passes_plan_from_entries(start, entries);
    lemma_passes_plan_from_entries(c, entries);
    assert forall|i: int| 0 <= i < recovery_of(entries).steps.len() implies planned_from_one_of(
        #[trigger] recovery_of(entries).steps[i],
        entries,
    ) by {
        if i < c.steps.len() {
            assert(recovery_of(entries).steps[i] == c.steps[i]);
        }
    }
}

} // verus!
