//! The gates a request meets before admission: which verbs are governed,
//! which must carry a durable locator, the identity and separation-of-duty
//! checks, and the key a protected request dedupes on.
use vstd::prelude::*;
use crate::json::{Json, JsonView, get, get_str, jget, jstr, opt_str_view};
use crate::identity::{
    ActorClaim, ClaimView, IdentityBindings, IdentityRefusal, PeerIdentity, RefusalKind, ResolvedActor,
    ResolvedView, bindings_view, opt_claim_view, refusal_class, refusal_message, resolution,
};
use crate::text::{owned, str_eq, concat3};
use vstd::string::StrSliceExecFns;

verus! {

/// The verb of a request envelope.
#[derive(Clone, Copy, Debug, PartialEq, Eq, Structural)]
pub enum Verb {
    Submit,
    Status,
    Approve,
    Reject,
    AgentList,
    AgentProbe,
    Delegate,
    CancelDelegation,
    Ask,
    SystemHello,
    SystemDescribe,
    SystemGetSchema,
    RequestGetStatus,
    EventsSubscribe,
    EventsUnsubscribe,
    EventsGetRange,
    ReadinessGet,
    IdentityGet,
    CaseEntryOptions,
    CasePreflight,
    CaseCommit,
    CaseList,
    CaseGetOverview,
    CaseGetHorizon,
    ApprovalList,
    ApprovalDecide,
    RunList,
    RunGet,
    AssetList,
    DelegationPreview,
    DelegationList,
}

/// Verbs that cause a side effect and therefore require a verified actor.
pub open spec fn protected_verb(v: Verb) -> bool {
    match v {
        Verb::Submit | Verb::Approve | Verb::Reject | Verb::Delegate | Verb::CancelDelegation
        | Verb::Ask | Verb::AgentProbe | Verb::CaseCommit | Verb::ApprovalDecide => true,
        _ => false,
    }
}

/// Mutations with a durable governance boundary: they must carry a request id.
pub open spec fn durable_verb(v: Verb) -> bool {
    match v {
        Verb::Submit | Verb::Approve | Verb::Reject | Verb::AgentProbe | Verb::Delegate
        | Verb::CancelDelegation | Verb::CaseCommit | Verb::ApprovalDecide => true,
        _ => false,
    }
}

/// Whether this verb causes a side effect and therefore requires an actor.
pub fn is_protected(verb: Verb) -> (r: bool)
    ensures
        r == protected_verb(verb),
{
    match verb {
        Verb::Submit | Verb::Approve | Verb::Reject | Verb::Delegate | Verb::CancelDelegation
        | Verb::Ask | Verb::AgentProbe | Verb::CaseCommit | Verb::ApprovalDecide => true,
        Verb::Status | Verb::AgentList | Verb::SystemHello | Verb::SystemDescribe
        | Verb::SystemGetSchema | Verb::RequestGetStatus | Verb::EventsSubscribe
        | Verb::EventsUnsubscribe | Verb::EventsGetRange | Verb::ReadinessGet | Verb::IdentityGet
        | Verb::CaseEntryOptions | Verb::CasePreflight | Verb::CaseList | Verb::CaseGetOverview
        | Verb::CaseGetHorizon | Verb::ApprovalList | Verb::RunList | Verb::RunGet | Verb::AssetList
        | Verb::DelegationPreview | Verb::DelegationList => false,
    }
}

/// Whether this verb is a durable mutation that must be caller-correlated.
pub fn requires_durable_locator(verb: Verb) -> (r: bool)
    ensures
        r == durable_verb(verb),
{
    match verb {
        Verb::Submit | Verb::Approve | Verb::Reject | Verb::AgentProbe | Verb::Delegate
        | Verb::CancelDelegation | Verb::CaseCommit | Verb::ApprovalDecide => true,
        _ => false,
    }
}

/// The caller-supplied correlation id of a request, for the verbs that carry
/// one, when it is not empty.
pub fn request_id<'a>(verb: Verb, supplied: Option<&'a str>) -> (r: Option<&'a str>)
    ensures
        opt_str_view(r) == (if durable_verb(verb) {
            match opt_str_view(supplied) {
                Some(s) => if s.len() > 0 {
                    Some(s)
                } else {
                    None
                },
                None => None,
            }
        } else {
            None
        }),
{
    if !requires_durable_locator(verb) {
        return None;
    }
    match supplied {
        Some(s) => if s.unicode_len() > 0 {
            Some(s)
        } else {
            None
        },
        None => None,
    }
}

/// The verbs that resolve an approval.
pub open spec fn approval_verb(v: Verb) -> bool {
    v == Verb::Approve || v == Verb::Reject || v == Verb::ApprovalDecide
}

pub fn resolves_approval(verb: Verb) -> (r: bool)
    ensures
        r == approval_verb(verb),
{
    matches!(verb, Verb::Approve | Verb::Reject | Verb::ApprovalDecide)
}

pub open spec fn refusal_body(error: Seq<char>, class: Seq<char>) -> JsonView {
    JsonView::Object(
        seq![
            ("error"@, JsonView::Str(error)),
            ("error_class"@, JsonView::Str(class)),
            ("no_side_effect"@, JsonView::Bool(true)),
        ],
    )
}

/// The body of a refusal that left nothing behind.
pub fn refusal_response(error: &str, class: &str) -> (r: Json)
    ensures
        r@ == refusal_body(error@, class@),
{
    let mut m: Vec<(String, Json)> = Vec::new();
    proof {
        assert(crate::json::members_view(m@) =~= Seq::<(Seq<char>, JsonView)>::empty());
    }
    crate::json::push_member(&mut m, "error", Json::Str(owned(error)));
    crate::json::push_member(&mut m, "error_class", Json::Str(owned(class)));
    crate::json::push_member(&mut m, "no_side_effect", Json::Bool(true));
    proof {
        assert(crate::json::members_view(m@) =~= refusal_body(error@, class@)->Object_0);
    }
    crate::json::object_of(m)
}

/// The refusal of a durable mutation that carries no request id.
pub fn durable_locator_refusal() -> (r: Json)
    ensures
        r@ == refusal_body(
            "this durable mutation requires a non-empty request_id before admission"@,
            "durable_locator_required"@,
        ),
{
    refusal_response(
        "this durable mutation requires a non-empty request_id before admission",
        "durable_locator_required",
    )
}

/// The `entity` a request attributes its work to.
pub fn request_entity(line: &Json) -> (r: Option<String>)
    ensures
        crate::envelope::opt_string_view(r) == jstr(jget(line@, "entity"@)),
{
    match get_str(line, "entity") {
        Some(e) => Some(owned(e)),
        None => None,
    }
}

/// The identity gate of a protected request: the claim must resolve, and a
/// request naming an `entity` must name the verified actor; the response is
/// the refusal's body when either fails.
pub open spec fn attribution(
    bs: Seq<crate::identity::BindingView>,
    claim: Option<ClaimView>,
    peer: Option<PeerIdentity>,
    entity: Option<Seq<char>>,
) -> Result<ResolvedView, JsonView> {
    match resolution(bs, claim, peer) {
        Err(k) => Err(refusal_body(refusal_message(k), refusal_class(k))),
        Ok(a) => match entity {
            Some(e) => if e != a.actor_id {
                let k = RefusalKind::EntityMismatch { actor_id: a.actor_id, entity: e };
                Err(refusal_body(refusal_message(k), refusal_class(k)))
            } else {
                Ok(a)
            },
            None => Ok(a),
        },
    }
}

pub open spec fn attribution_view(r: Result<ResolvedActor, Json>) -> Result<ResolvedView, JsonView> {
    match r {
        Ok(a) => Ok(a@),
        Err(j) => Err(j@),
    }
}

/// Attribute a protected request to a verified actor, or refuse it.
pub fn attribute(
    bindings: &IdentityBindings,
    claim: Option<&ActorClaim>,
    peer: Option<PeerIdentity>,
    entity: Option<&str>,
) -> (r: Result<ResolvedActor, Json>)
    ensures
        attribution_view(r) == attribution(bindings_view(bindings), opt_claim_view(claim), peer, opt_str_view(entity)),
{
    match bindings.resolve(claim, peer) {
        Err(refusal) => Err(refusal.response()),
        Ok(actor) => match entity {
            Some(e) => if !str_eq(e, actor.actor_id()) {
                let refusal = IdentityRefusal::EntityMismatch { actor_id: owned(actor.actor_id()), entity: owned(e) };
                Err(refusal.response())
            } else {
                Ok(actor)
            },
            None => Ok(actor),
        },
    }
}

/// Separation of duty for an approval: the submitter recorded in the ledger
/// (`Ok(Some(..))`), when it could be read, must not be the approver; when
/// the ledger could not be read (`Err(reason)`) the approval is refused too.
pub open spec fn duty_refusal(actor_id: Seq<char>, approval_id: Seq<char>, submitter: Result<Option<Seq<char>>, Seq<char>>) -> Option<JsonView> {
    match submitter {
        Ok(Some(s)) => if s == actor_id {
            let k = RefusalKind::SelfApproval { actor_id, approval_id };
            Some(refusal_body(refusal_message(k), refusal_class(k)))
        } else {
            None
        },
        Ok(None) => None,
        Err(reason) => Some(
            refusal_body(
                "the submitter behind approval `"@ + approval_id
                    + "` could not be read, so separation of duty cannot be verified: "@ + reason,
                "separation_of_duty_unverifiable"@,
            ),
        ),
    }
}

pub open spec fn submitter_view(s: &Result<Option<String>, String>) -> Result<Option<Seq<char>>, Seq<char>> {
    match s {
        Ok(Some(x)) => Ok(Some(x@)),
        Ok(None) => Ok(None),
        Err(e) => Err(e@),
    }
}

pub open spec fn opt_json_view(o: Option<Json>) -> Option<JsonView> {
    match o {
        Some(j) => Some(j@),
        None => None,
    }
}

pub fn separation_of_duty(actor: &ResolvedActor, approval_id: &str, submitter: &Result<Option<String>, String>) -> (r: Option<Json>)
    ensures
        opt_json_view(r) == duty_refusal(actor@.actor_id, approval_id@, submitter_view(submitter)),
{
    match submitter {
        Ok(Some(s)) => if str_eq(s.as_str(), actor.actor_id()) {
            let refusal = IdentityRefusal::SelfApproval { actor_id: owned(actor.actor_id()), approval_id: owned(approval_id) };
            Some(refusal.response())
        } else {
            None
        },
        Ok(None) => None,
        Err(reason) => {
            let mut m = concat3("the submitter behind approval `", approval_id, "` could not be read, so separation of duty cannot be verified: ");
            m.append(reason.as_str());
            Some(refusal_response(m.as_str(), "separation_of_duty_unverifiable"))
        },
    }
}

/// The key a protected request dedupes on: its non-empty `request_id`, its
/// verb (`unknown` when absent), and the hash of the line without the id.
pub open spec fn dedupe_key_of(protected: bool, line: JsonView) -> Option<(Seq<char>, Seq<char>, Seq<char>)> {
    if !protected {
        None
    } else {
        match line {
            JsonView::Object(m) => match crate::json::entries_get(m, "request_id"@) {
                Some(JsonView::Str(id)) => if id.len() == 0 {
                    None
                } else {
                    let rest = JsonView::Object(without_key(m, "request_id"@));
                    Some((
                        id,
                        match jstr(jget(rest, "verb"@)) {
                            Some(v) => v,
                            None => "unknown"@,
                        },
                        crate::envelope::sha256_hex_of_text(crate::json::render(rest, false)),
                    ))
                },
                _ => None,
            },
            _ => None,
        }
    }
}

/// The members of `m` other than those named `k`.
pub open spec fn without_key(m: Seq<(Seq<char>, JsonView)>, k: Seq<char>) -> Seq<(Seq<char>, JsonView)>
    decreases m.len(),
{
    if m.len() == 0 {
        Seq::empty()
    } else if m.last().0 == k {
        without_key(m.drop_last(), k)
    } else {
        without_key(m.drop_last(), k).push(m.last())
    }
}

fn remove_member(members: &Vec<(String, Json)>, k: &str) -> (r: Vec<(String, Json)>)
    ensures
        crate::json::members_view(r@) == without_key(crate::json::members_view(members@), k@),
{
    let ghost mv = crate::json::members_view(members@);
    proof {
        crate::json::lemma_entries_view(members@, members@.len() as int);
    }
    let mut out: Vec<(String, Json)> = Vec::new();
    proof {
        assert(crate::json::members_view(out@) =~= Seq::<(Seq<char>, JsonView)>::empty());
    }
    let mut i: usize = 0;
    while i < members.len()
        invariant
            mv == crate::json::members_view(members@),
            mv.len() == members@.len(),
            forall|j: int| 0 <= j < mv.len() ==> #[trigger] mv[j] == (members@[j].0@, members@[j].1@),
            i <= members@.len(),
            crate::json::members_view(out@) == without_key(mv.subrange(0, i as int), k@),
        decreases members@.len() - i,
    {
        proof {
            assert(mv.subrange(0, i + 1).drop_last() =~= mv.subrange(0, i as int));
        }
        if !str_eq(members[i].0.as_str(), k) {
            crate::json::push_member(&mut out, members[i].0.as_str(), crate::json::json_clone(&members[i].1));
        }
        i += 1;
    }
    proof {
        assert(mv.subrange(0, members@.len() as int) =~= mv);
    }
    out
}

pub open spec fn key_view(r: Option<(String, String, String)>) -> Option<(Seq<char>, Seq<char>, Seq<char>)> {
    match r {
        Some((a, b, c)) => Some((a@, b@, c@)),
        None => None,
    }
}

/// The dedupe key of a request line.
pub fn dedupe_key(verb: Verb, line: &Json) -> (r: Option<(String, String, String)>)
    ensures
        key_view(r) == dedupe_key_of(protected_verb(verb), line@),
{
    if !is_protected(verb) {
        return None;
    }
    match line {
        Json::Object(members) => {
            proof {
                crate::json::lemma_entries_view(members@, members@.len() as int);
            }
            let id = match get(line, "request_id") {
                Some(Json::Str(id)) => id,
                _ => {
                    return None;
                },
            };
            if id.as_str().unicode_len() == 0 {
                return None;
            }
            let rest_members = remove_member(members, "request_id");
            let rest = crate::json::object_of(rest_members);
            let verb_word = match get_str(&rest, "verb") {
                Some(v) => owned(v),
                None => owned("unknown"),
            };
            let hash = crate::sfwp::correlation::payload_hash(&rest);
            Some((id.clone(), verb_word, hash))
        },
        _ => None,
    }
}

/// The policy file a request names when it names none.
pub fn default_policy() -> (r: String)
    ensures
        r@ == "sea-forge-policy.yaml"@,
{
    owned("sea-forge-policy.yaml")
}

/// The acting entity a request names when it names none.
pub fn default_entity() -> (r: String)
    ensures
        r@ == "operator_local"@,
{
    owned("operator_local")
}

/// The process a request names when it names none.
pub fn default_process() -> (r: String)
    ensures
        r@ == "server"@,
{
    owned("server")
}

/// The execution timeout, in seconds, a submission names when it names none.
pub fn default_timeout() -> (r: u64)
    ensures
        r == 60,
{
    60
}

/// The purpose a question names when it names none.
pub fn default_purpose() -> (r: String)
    ensures
        r@ == "planning"@,
{
    owned("planning")
}

/// What admission does after the correlation check of a request that
/// carries an id.
pub enum AdmissionStep {
    /// Answer with this body and run nothing.
    Answer(Json),
    /// Bind the request as pending, then run it.
    BindPending,
}

pub open spec fn pending_body(request_id: Seq<char>) -> JsonView {
    JsonView::Object(
        seq![
            ("request_id"@, JsonView::Str(request_id)),
            ("status"@, JsonView::Str("pending"@)),
            ("recover_with"@, JsonView::Str("request.get_status"@)),
        ],
    )
}

pub open spec fn reused_message(request_id: Seq<char>) -> Seq<char> {
    "request_id `"@ + request_id
        + "` was already used for a different operation or payload; issue a new id rather than re-using this one"@
}

pub open spec fn unreadable_message(request_id: Seq<char>, error: Seq<char>) -> Seq<char> {
    "the correlation record for `"@ + request_id
        + "` could not be read, so this request cannot be shown to be a first attempt: "@ + error
}

pub open spec fn unwritable_message(request_id: Seq<char>, error: Seq<char>) -> Seq<char> {
    "the correlation record for `"@ + request_id + "` could not be written, so this request cannot be made idempotent: "@
        + error
}

/// Admission after the correlation check: a terminal outcome is replayed, a
/// pending one answered with its locator, a reused id refused, an
/// unreadable record refused as unverifiable; only a first attempt is bound
/// and run. No refusal leaves a side effect.
pub fn admission_step(request_id: &str, check: Result<crate::sfwp::correlation::DedupeVerdict, String>) -> (r: AdmissionStep)
    ensures
        match check {
            Ok(crate::sfwp::correlation::DedupeVerdict::Replay(outcome)) => r matches AdmissionStep::Answer(b) && b == outcome,
            Ok(crate::sfwp::correlation::DedupeVerdict::Pending) => r matches AdmissionStep::Answer(b) && b@ == pending_body(request_id@),
            Ok(crate::sfwp::correlation::DedupeVerdict::Reused) => r matches AdmissionStep::Answer(b) && b@ == refusal_body(
                reused_message(request_id@),
                "request_id_reused"@,
            ),
            Ok(crate::sfwp::correlation::DedupeVerdict::Proceed) => r is BindPending,
            Err(e) => r matches AdmissionStep::Answer(b) && b@ == refusal_body(
                unreadable_message(request_id@, e@),
                "idempotency_unverifiable"@,
            ),
        },
{
    match check {
        Ok(crate::sfwp::correlation::DedupeVerdict::Replay(outcome)) => AdmissionStep::Answer(outcome),
        Ok(crate::sfwp::correlation::DedupeVerdict::Pending) => {
            let mut m: Vec<(String, Json)> = Vec::new();
            crate::json::push_member(&mut m, "request_id", Json::Str(owned(request_id)));
            crate::json::push_member(&mut m, "status", Json::Str(owned("pending")));
            crate::json::push_member(&mut m, "recover_with", Json::Str(owned("request.get_status")));
            proof {
                assert(crate::json::members_view(m@) =~= pending_body(request_id@)->Object_0);
            }
            AdmissionStep::Answer(crate::json::object_of(m))
        },
        Ok(crate::sfwp::correlation::DedupeVerdict::Reused) => {
            let msg = concat3(
                "request_id `",
                request_id,
                "` was already used for a different operation or payload; issue a new id rather than re-using this one",
            );
            AdmissionStep::Answer(refusal_response(msg.as_str(), "request_id_reused"))
        },
        Ok(crate::sfwp::correlation::DedupeVerdict::Proceed) => AdmissionStep::BindPending,
        Err(e) => {
            let mut msg = concat3(
                "the correlation record for `",
                request_id,
                "` could not be read, so this request cannot be shown to be a first attempt: ",
            );
            msg.append(e.as_str());
            AdmissionStep::Answer(refusal_response(msg.as_str(), "idempotency_unverifiable"))
        },
    }
}

/// The refusal of a first attempt whose pending record could not be written.
pub fn unwritable_correlation(request_id: &str, error: &str) -> (r: Json)
    ensures
        r@ == refusal_body(unwritable_message(request_id@, error@), "idempotency_unverifiable"@),
{
    let mut msg = concat3(
        "the correlation record for `",
        request_id,
        "` could not be written, so this request cannot be made idempotent: ",
    );
    msg.append(error);
    refusal_response(msg.as_str(), "idempotency_unverifiable")
}

/// Where a request stood when its deadline passed.
#[derive(Clone, Copy, Debug, PartialEq, Eq, Structural)]
pub enum DeadlinePhase {
    /// Read-only work outside admission: it was not cancelled.
    Unadmitted,
    /// Side-effecting work still waiting for admission: it was cancelled.
    BeforeAdmission,
    /// Side-effecting work already admitted: it continues.
    AfterAdmission,
}

pub open spec fn opt_str_json(v: Option<Seq<char>>) -> JsonView {
    match v {
        Some(s) => JsonView::Str(s),
        None => JsonView::Null,
    }
}

/// The typed answer to a request that outlived its deadline: the timeout
/// and the request's id (null without one), and either the no-side-effect
/// claim (cancelled before admission) or the locator to recover with.
pub open spec fn timeout_body(phase: DeadlinePhase, limit_secs: u64, request_id: Option<Seq<char>>) -> JsonView {
    let secs = crate::text::decimal(limit_secs as nat);
    let error = match phase {
        DeadlinePhase::Unadmitted => "request exceeded the "@ + secs + "s server timeout; the work was not cancelled"@,
        DeadlinePhase::BeforeAdmission => "request exceeded the "@ + secs
            + "s server timeout before admission; the work was cancelled"@,
        DeadlinePhase::AfterAdmission => "request exceeded the "@ + secs + "s server timeout after admission; the work continues"@,
    };
    let last = match phase {
        DeadlinePhase::BeforeAdmission => ("no_side_effect"@, JsonView::Bool(true)),
        _ => ("recover_with"@, JsonView::Str("request.get_status"@)),
    };
    JsonView::Object(
        seq![
            ("error"@, JsonView::Str(error)),
            ("error_class"@, JsonView::Str("request_timeout"@)),
            ("timeout_seconds"@, JsonView::Number(secs)),
            ("request_id"@, opt_str_json(request_id)),
            last,
        ],
    )
}

pub fn timeout_response(phase: DeadlinePhase, limit_secs: u64, request_id: Option<&str>) -> (r: Json)
    ensures
        r@ == timeout_body(phase, limit_secs, opt_str_view(request_id)),
{
    let secs = crate::text::decimal_exec(limit_secs);
    let tail = match phase {
        DeadlinePhase::Unadmitted => "s server timeout; the work was not cancelled",
        DeadlinePhase::BeforeAdmission => "s server timeout before admission; the work was cancelled",
        DeadlinePhase::AfterAdmission => "s server timeout after admission; the work continues",
    };
    let error = concat3("request exceeded the ", secs.as_str(), tail);
    let mut m: Vec<(String, Json)> = Vec::new();
    crate::json::push_member(&mut m, "error", Json::Str(error));
    crate::json::push_member(&mut m, "error_class", Json::Str(owned("request_timeout")));
    crate::json::push_member(&mut m, "timeout_seconds", Json::Number(secs));
    crate::json::push_member(
        &mut m,
        "request_id",
        match request_id {
            Some(id) => Json::Str(owned(id)),
            None => Json::Null,
        },
    );
    match phase {
        DeadlinePhase::BeforeAdmission => crate::json::push_member(&mut m, "no_side_effect", Json::Bool(true)),
        _ => crate::json::push_member(&mut m, "recover_with", Json::Str(owned("request.get_status"))),
    }
    proof {
        assert(crate::json::members_view(m@) =~= timeout_body(phase, limit_secs, opt_str_view(request_id))->Object_0);
    }
    crate::json::object_of(m)
}

/// The typed answer to a request whose handler failed (it panicked).
pub fn handler_failed(detail: &str) -> (r: Json)
    ensures
        r@ == JsonView::Object(
            seq![
                ("error"@, JsonView::Str("request handler failed: "@ + detail@)),
                ("error_class"@, JsonView::Str("internal_error"@)),
            ],
        ),
{
    let mut m: Vec<(String, Json)> = Vec::new();
    crate::json::push_member(&mut m, "error", Json::Str(crate::text::concat2("request handler failed: ", detail)));
    crate::json::push_member(&mut m, "error_class", Json::Str(owned("internal_error")));
    proof {
        assert(crate::json::members_view(m@) =~= seq![
            ("error"@, JsonView::Str("request handler failed: "@ + detail@)),
            ("error_class"@, JsonView::Str("internal_error"@)),
        ]);
    }
    crate::json::object_of(m)
}

/// A request line that filled the read cap without its terminator was
/// oversized: it is refused and the connection closed.
pub fn is_oversized_line(read: u64, cap: u64, terminated: bool) -> (r: bool)
    ensures
        r == (read == cap && !terminated),
{
    read == cap && !terminated
}

} // verus!
