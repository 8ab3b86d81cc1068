//! The approval inbox: approvals still awaiting a decision, oldest request
//! first. Expiry is reported, never enforced here: an expired approval stays
//! listed, flagged, so an operator can see why it is stuck.
use vstd::prelude::*;
use crate::envelope::{strings_view, opt_string_view};
use crate::text::{owned, str_eq, seq_lt, seq_le, str_lt};

verus! {

/// A pending approval request, as the journal's fold leaves it.
pub struct ApprovalRequest {
    pub approval_id: String,
    pub case_id: String,
    pub run_id: String,
    pub plan_item_id: String,
    pub decision_id: String,
    pub requested_at: String,
    pub expires_at: String,
    pub criteria_ref: Option<String>,
    pub criteria_sha256: Option<String>,
}

/// One pending approval, shaped for the inbox.
pub struct PendingApproval {
    pub approval_id: String,
    pub case_id: String,
    pub run_id: String,
    pub plan_item_id: String,
    pub decision_id: String,
    pub requested_at: String,
    pub expires_at: String,
    /// The request's window has closed.
    pub expired: bool,
    pub criteria_ref: Option<String>,
    pub criteria_sha256: Option<String>,
}

/// `approval.list` result body.
pub struct ApprovalListResult {
    /// Oldest request first.
    pub approvals: Vec<PendingApproval>,
    /// Why the journal could not be read; the list is then empty because
    /// nothing could be determined, not because the queue is.
    pub unreadable: Option<String>,
}

pub struct PendingView {
    pub approval_id: Seq<char>,
    pub case_id: Seq<char>,
    pub run_id: Seq<char>,
    pub plan_item_id: Seq<char>,
    pub decision_id: Seq<char>,
    pub requested_at: Seq<char>,
    pub expires_at: Seq<char>,
    pub expired: bool,
    pub criteria_ref: Option<Seq<char>>,
    pub criteria_sha256: Option<Seq<char>>,
}

pub open spec fn pending_view(p: PendingApproval) -> PendingView {
    PendingView {
        approval_id: p.approval_id@,
        case_id: p.case_id@,
        run_id: p.run_id@,
        plan_item_id: p.plan_item_id@,
        decision_id: p.decision_id@,
        requested_at: p.requested_at@,
        expires_at: p.expires_at@,
        expired: p.expired,
        criteria_ref: opt_string_view(p.criteria_ref),
        criteria_sha256: opt_string_view(p.criteria_sha256),
    }
}

/// A request shaped for the inbox at time `now`: expired when its expiry
/// does not come after `now` (both RFC 3339 UTC stamps, compared as text).
pub open spec fn shaped(r: ApprovalRequest, now: Seq<char>) -> PendingView {
    PendingView {
        approval_id: r.approval_id@,
        case_id: r.case_id@,
        run_id: r.run_id@,
        plan_item_id: r.plan_item_id@,
        decision_id: r.decision_id@,
        requested_at: r.requested_at@,
        expires_at: r.expires_at@,
        expired: seq_le(r.expires_at@, now),
        criteria_ref: opt_string_view(r.criteria_ref),
        criteria_sha256: opt_string_view(r.criteria_sha256),
    }
}

/// The pending requests in scope (all, or one case's), in journal order.
pub open spec fn in_scope(pending: Seq<ApprovalRequest>, case_id: Option<Seq<char>>, now: Seq<char>) -> Seq<PendingView>
    decreases pending.len(),
{
    if pending.len() == 0 {
        Seq::empty()
    } else {
        let rest = in_scope(pending.drop_last(), case_id, now);
        let r = pending.last();
        if case_id is None || case_id == Some(r.case_id@) {
            rest.push(shaped(r, now))
        } else {
            rest
        }
    }
}

fn shape(r: &ApprovalRequest, now: &str) -> (p: PendingApproval)
    ensures
        pending_view(p) == shaped(*r, now@),
{
    proof {
        crate::order::lemma_seq_lt_total(now@, r.expires_at@);
        if seq_lt(now@, r.expires_at@) {
            crate::order::lemma_seq_lt_asymmetric(now@, r.expires_at@);
            crate::order::lemma_seq_lt_irreflexive(now@);
        }
    }
    PendingApproval {
        approval_id: r.approval_id.clone(),
        case_id: r.case_id.clone(),
        run_id: r.run_id.clone(),
        plan_item_id: r.plan_item_id.clone(),
        decision_id: r.decision_id.clone(),
        requested_at: r.requested_at.clone(),
        expires_at: r.expires_at.clone(),
        expired: !str_lt(now, r.expires_at.as_str()),
        criteria_ref: r.criteria_ref.clone(),
        criteria_sha256: r.criteria_sha256.clone(),
    }
}

fn clone_pending(p: &PendingApproval) -> (r: PendingApproval)
    ensures
        pending_view(r) == pending_view(*p),
{
    PendingApproval {
        approval_id: p.approval_id.clone(),
        case_id: p.case_id.clone(),
        run_id: p.run_id.clone(),
        plan_item_id: p.plan_item_id.clone(),
        decision_id: p.decision_id.clone(),
        requested_at: p.requested_at.clone(),
        expires_at: p.expires_at.clone(),
        expired: p.expired,
        criteria_ref: p.criteria_ref.clone(),
        criteria_sha256: p.criteria_sha256.clone(),
    }
}

/// The inbox at time `now`, from what reading the journal's pending
/// approvals gave: a read failure is reported with an empty list; otherwise
/// the requests in scope, oldest request first (then by approval id).
pub fn list_at(pending: &Result<Vec<ApprovalRequest>, String>, case_id: Option<&str>, now: &str) -> (r: ApprovalListResult)
    ensures
        match pending {
            Err(e) => r.approvals@.len() == 0 && opt_string_view(r.unreadable) == Some(e@),
            Ok(p) => {
                &&& r.unreadable is None
                &&& exists|order: Seq<usize>| {
                    &&& #[trigger] crate::order::is_index_permutation(order, in_scope(p@, crate::json::opt_str_view(case_id), now@).len())
                    &&& crate::order::ordered_by(
                        in_scope(p@, crate::json::opt_str_view(case_id), now@).map_values(|v: PendingView| (v.requested_at, v.approval_id)),
                        order,
                        false,
                    )
                    &&& r.approvals@.map_values(|a: PendingApproval| pending_view(a)) == order.map_values(
                        |i: usize| in_scope(p@, crate::json::opt_str_view(case_id), now@)[i as int],
                    )
                }
            },
        },
{
    let requests = match pending {
        Err(e) => {
            return ApprovalListResult { approvals: Vec::new(), unreadable: Some(e.clone()) };
        },
        Ok(p) => p,
    };
    let ghost scope = crate::json::opt_str_view(case_id);
    let mut rows: Vec<PendingApproval> = Vec::new();
    let mut i: usize = 0;
    while i < requests.len()
        invariant
            i <= requests@.len(),
            scope == crate::json::opt_str_view(case_id),
            rows@.map_values(|a: PendingApproval| pending_view(a)) == in_scope(requests@.subrange(0, i as int), scope, now@),
        decreases requests@.len() - i,
    {
        proof {
            assert(requests@.subrange(0, i + 1).drop_last() =~= requests@.subrange(0, i as int));
        }
        let ghost r0 = rows@.map_values(|a: PendingApproval| pending_view(a));
        let r = &requests[i];
        let keep = match case_id {
            Some(id) => str_eq(r.case_id.as_str(), id),
            None => true,
        };
        if keep {
            let row = shape(r, now);
            rows.push(row);
            proof {
                assert(rows@.map_values(|a: PendingApproval| pending_view(a)) =~= r0.push(pending_view(row)));
            }
        }
        i += 1;
    }
    proof {
        assert(requests@.subrange(0, requests@.len() as int) =~= requests@);
    }
    let ghost rv = rows@.map_values(|a: PendingApproval| pending_view(a));
    let mut keys: Vec<(String, String)> = Vec::new();
    let mut k: usize = 0;
    while k < rows.len()
        invariant
            k <= rows@.len(),
            keys@.len() == k,
            forall|j: int| 0 <= j < k ==> (#[trigger] keys@[j]).0@ == rows@[j].requested_at@ && keys@[j].1@ == rows@[j].approval_id@,
        decreases rows@.len() - k,
    {
        keys.push((rows[k].requested_at.clone(), rows[k].approval_id.clone()));
        k += 1;
    }
    proof {
        assert(crate::order::pairs_view(keys@) =~= rv.map_values(|v: PendingView| (v.requested_at, v.approval_id)));
    }
    let order = crate::order::order_by_pairs(&keys, false);
    let mut approvals: Vec<PendingApproval> = Vec::new();
    let mut t: usize = 0;
    while t < order.len()
        invariant
            crate::order::is_index_permutation(order@, rows@.len()),
            t <= order@.len(),
            approvals@.len() == t,
            forall|j: int| 0 <= j < t ==> pending_view(#[trigger] approvals@[j]) == rv[order@[j] as int],
            rv == rows@.map_values(|a: PendingApproval| pending_view(a)),
        decreases order@.len() - t,
    {
        approvals.push(clone_pending(&rows[order[t]]));
        t += 1;
    }
    proof {
        assert(approvals@.map_values(|a: PendingApproval| pending_view(a)) =~= order@.map_values(|i: usize| rv[i as int]));
    }
    ApprovalListResult { approvals, unreadable: None }
}

/// The inbox now: [`list_at`] at the current UTC time. When the clock gives
/// no current time, expiry cannot be judged: the list is empty and says so.
pub fn list(pending: &Result<Vec<ApprovalRequest>, String>, case_id: Option<&str>) -> (r: ApprovalListResult)
    ensures
        match pending {
            Err(e) => r.approvals@.len() == 0 && opt_string_view(r.unreadable) == Some(e@),
            Ok(p) => (r.approvals@.len() == 0 && opt_string_view(r.unreadable) == Some(
                crate::governed_execution_boundary::CLOCK_UNAVAILABLE@,
            )) || r.unreadable is None && exists|now: Seq<char>, order: Seq<usize>| {
                &&& crate::governed_execution_boundary::clock_rfc3339(now)
                &&& #[trigger] crate::order::is_index_permutation(order, in_scope(p@, crate::json::opt_str_view(case_id), now).len())
                &&& r.approvals@.map_values(|a: PendingApproval| pending_view(a)) == order.map_values(
                    |i: usize| in_scope(p@, crate::json::opt_str_view(case_id), now)[i as int],
                )
                &&& crate::order::ordered_by(
                    in_scope(p@, crate::json::opt_str_view(case_id), now).map_values(|v: PendingView| (v.requested_at, v.approval_id)),
                    order,
                    false,
                )
            },
        },
{
    match pending {
        Err(_) => list_at(pending, case_id, ""),
        Ok(_) => match crate::governed_execution_boundary::utc_rfc3339() {
            Some(now) => list_at(pending, case_id, now.as_str()),
            None => ApprovalListResult {
                approvals: Vec::new(),
                unreadable: Some(owned(crate::governed_execution_boundary::CLOCK_UNAVAILABLE)),
            },
        },
    }
}

/// Expiry is reported, not enforced: every pending request is listed,
/// expired or not.
pub proof fn law_expired_approvals_stay_listed(pending: Seq<ApprovalRequest>, now: Seq<char>)
    ensures
        in_scope(pending, None, now).len() == pending.len(),
    decreases pending.len(),
{
    if pending.len() > 0 {
        law_expired_approvals_stay_listed(pending.drop_last(), now);
    }
}


/// The approval verbs a decision word names: the CLI verb, the request
/// method and the event kind; none for any word but `approve` and `reject`.
pub open spec fn decision_verbs(decision: Seq<char>) -> Option<(Seq<char>, Seq<char>, Seq<char>)> {
    if decision == "approve"@ {
        Some(("approve"@, "approval.approve"@, "approval.approved"@))
    } else if decision == "reject"@ {
        Some(("reject"@, "approval.reject"@, "approval.rejected"@))
    } else {
        None
    }
}

pub open spec fn unknown_decision_message(decision: Seq<char>) -> Seq<char> {
    "unknown approval decision "@ + crate::text::debug_quoted(decision) + "; expected \"approve\" or \"reject\""@
}

/// The verbs of an `approval.decide` decision word, or the refusal of any
/// other word.
pub fn approval_decision(decision: &str) -> (r: Result<(&'static str, &'static str, &'static str), String>)
    ensures
        match r {
            Ok(t) => decision_verbs(decision@) == Some((t.0@, t.1@, t.2@)),
            Err(m) => decision_verbs(decision@) is None && m@ == unknown_decision_message(decision@),
        },
{
    if str_eq(decision, "approve") {
        Ok(("approve", "approval.approve", "approval.approved"))
    } else if str_eq(decision, "reject") {
        Ok(("reject", "approval.reject", "approval.rejected"))
    } else {
        let quoted = crate::text::debug_str(decision);
        let mut m = crate::text::concat2("unknown approval decision ", quoted.as_str());
        m.append("; expected \"approve\" or \"reject\"");
        Err(m)
    }
}

} // verus!
