//! The GovernedWorkRequest acceptance gate: exclusive producer, canonical
//! model identity, semantic work intent, distinct obligations, and a context
//! packet bound to the same work request and recorded as causal parent.
use vstd::prelude::*;
use crate::envelope::{
    ProducerFault, ProducerFaultView, producer_fault, check_producer_fault, declared_model_hash,
    get_declared_model_hash, is_pseudo_identity, verify_model_identity, meaningful,
    meaningful_text, opt_string_view, causal_parents, causal_parents_of, strings_view,
    contains_string,
};
use crate::json::{
    Json, JsonView, get, get_str, get_opt, as_str, jget, jget_opt, jstr, is_object, is_object_exec,
    json_clone, opt_str_view,
};
use crate::text::{owned, str_eq, trim, trim_exec, concat3};
use vstd::string::StrSliceExecFns;

verus! {

/// The event type owned exclusively by `swe_seed` at this edge.
pub const EVENT_TYPE: &'static str = "GovernedWorkRequest";

/// Why a submission cannot enter as a governed work request.
#[derive(Debug, Clone, PartialEq, Eq)]
pub enum GovernedIngressError {
    /// Not a decodable canonical v1 envelope object.
    MalformedEnvelope(String),
    /// Right shape, wrong event type.
    WrongEventType { expected: &'static str, got: String },
    /// `source_agent` outside the canonical vocabulary entirely.
    UnknownAgent { got: String },
    /// A known component forging another's authoritative event.
    NotAuthoritative { authoritative: &'static str, got: String },
    /// Declared model hash is malformed or a known pseudo-identity.
    PlaceholderIdentity { got: String },
    /// Declared model hash differs from the locally resolved canonical model.
    DomainDrift { declared: String, local: String },
    /// Required semantic-intent fields absent or empty.
    OpaqueCommand { missing: Vec<&'static str> },
    /// The proof contract collapsed into the operational settlement criteria.
    CollapsedObligations,
    /// The context packet belongs to a different work request.
    CrossWiredContextPacket { expected: String, got: String },
    /// `context_packet_ref` names something other than the supplied packet.
    ContextRefMismatch { declared_ref: String, packet_id: String },
    /// The derivation does not record the packet as its causal parent.
    CausalityMissing { expected_parent: String, recorded: Vec<String> },
}

pub enum IngressErrorView {
    MalformedEnvelope(Seq<char>),
    WrongEventType { expected: Seq<char>, got: Seq<char> },
    UnknownAgent { got: Seq<char> },
    NotAuthoritative { authoritative: Seq<char>, got: Seq<char> },
    PlaceholderIdentity { got: Seq<char> },
    DomainDrift { declared: Seq<char>, local: Seq<char> },
    OpaqueCommand { missing: Seq<Seq<char>> },
    CollapsedObligations,
    CrossWiredContextPacket { expected: Seq<char>, got: Seq<char> },
    ContextRefMismatch { declared_ref: Seq<char>, packet_id: Seq<char> },
    CausalityMissing { expected_parent: Seq<char>, recorded: Seq<Seq<char>> },
}

impl View for GovernedIngressError {
    type V = IngressErrorView;

    open spec fn view(&self) -> IngressErrorView {
        match self {
            GovernedIngressError::MalformedEnvelope(m) => IngressErrorView::MalformedEnvelope(m@),
            GovernedIngressError::WrongEventType { expected, got } =>
                IngressErrorView::WrongEventType { expected: expected@, got: got@ },
            GovernedIngressError::UnknownAgent { got } => IngressErrorView::UnknownAgent { got: got@ },
            GovernedIngressError::NotAuthoritative { authoritative, got } =>
                IngressErrorView::NotAuthoritative { authoritative: authoritative@, got: got@ },
            GovernedIngressError::PlaceholderIdentity { got } =>
                IngressErrorView::PlaceholderIdentity { got: got@ },
            GovernedIngressError::DomainDrift { declared, local } => IngressErrorView::DomainDrift {
                declared: declared@,
                local: local@,
            },
            GovernedIngressError::OpaqueCommand { missing } => IngressErrorView::OpaqueCommand {
                missing: crate::governed_execution_boundary::static_strs_view(missing@),
            },
            GovernedIngressError::CollapsedObligations => IngressErrorView::CollapsedObligations,
            GovernedIngressError::CrossWiredContextPacket { expected, got } =>
                IngressErrorView::CrossWiredContextPacket { expected: expected@, got: got@ },
            GovernedIngressError::ContextRefMismatch { declared_ref, packet_id } =>
                IngressErrorView::ContextRefMismatch {
                    declared_ref: declared_ref@,
                    packet_id: packet_id@,
                },
            GovernedIngressError::CausalityMissing { expected_parent, recorded } =>
                IngressErrorView::CausalityMissing {
                    expected_parent: expected_parent@,
                    recorded: strings_view(recorded@),
                },
        }
    }
}

/// The human-readable text of an ingress refusal.
pub open spec fn ingress_message(e: IngressErrorView) -> Seq<char> {
    match e {
        IngressErrorView::MalformedEnvelope(m) => "malformed canonical envelope: "@ + m,
        IngressErrorView::WrongEventType { expected, got } => "expected "@ + expected + " event, got '"@ + got + "'"@,
        IngressErrorView::UnknownAgent { got } => "source_agent outside the canonical vocabulary: "@ + got,
        IngressErrorView::NotAuthoritative { authoritative, got } => "GovernedWorkRequest may only be produced by '"@
            + authoritative + "', forge attempted by '"@ + got + "'"@,
        IngressErrorView::PlaceholderIdentity { got } => "fallback/placeholder pseudo-hash rejected as domain identity: "@
            + got,
        IngressErrorView::DomainDrift { declared, local } => "domain model drift: request declares "@ + declared
            + ", local canonical model is "@ + local,
        IngressErrorView::OpaqueCommand { missing } => "opaque command rejected — missing semantic intent fields: "@
            + crate::text::joined(missing, ", "@),
        IngressErrorView::CollapsedObligations => "proof_contract and settlement_criteria must remain distinct facts"@,
        IngressErrorView::CrossWiredContextPacket { expected, got } =>
            "cross-wired context packet: work_request_id expected "@ + crate::text::debug_quoted(expected)
                + ", packet carries "@ + crate::text::debug_quoted(got),
        IngressErrorView::ContextRefMismatch { declared_ref, packet_id } => "context_packet_ref "@
            + crate::text::debug_quoted(declared_ref) + " does not name the supplied packet "@
            + crate::text::debug_quoted(packet_id),
        IngressErrorView::CausalityMissing { expected_parent, recorded } =>
            "request does not cite its context packet as causal parent: expected "@ + expected_parent + ", recorded "@
                + crate::text::debug_list(recorded),
    }
}

impl GovernedIngressError {
    /// The refusal as text.
    pub fn message(&self) -> (r: String)
        ensures
            r@ == ingress_message(self@),
    {
        match self {
            GovernedIngressError::MalformedEnvelope(m) => crate::text::concat2("malformed canonical envelope: ", m.as_str()),
            GovernedIngressError::WrongEventType { expected, got } => {
                let mut m = crate::text::concat3("expected ", expected, " event, got '");
                m.append(got.as_str());
                m.append("'");
                m
            },
            GovernedIngressError::UnknownAgent { got } => crate::text::concat2(
                "source_agent outside the canonical vocabulary: ",
                got.as_str(),
            ),
            GovernedIngressError::NotAuthoritative { authoritative, got } => {
                let mut m = crate::text::concat3(
                    "GovernedWorkRequest may only be produced by '",
                    authoritative,
                    "', forge attempted by '",
                );
                m.append(got.as_str());
                m.append("'");
                m
            },
            GovernedIngressError::PlaceholderIdentity { got } => crate::text::concat2(
                "fallback/placeholder pseudo-hash rejected as domain identity: ",
                got.as_str(),
            ),
            GovernedIngressError::DomainDrift { declared, local } => {
                let mut m = crate::text::concat3(
                    "domain model drift: request declares ",
                    declared.as_str(),
                    ", local canonical model is ",
                );
                m.append(local.as_str());
                m
            },
            GovernedIngressError::OpaqueCommand { missing } => {
                let names = crate::governed_execution_boundary::static_strs_owned(missing);
                let joined = crate::text::join_exec(&names, ", ");
                crate::text::concat2("opaque command rejected — missing semantic intent fields: ", joined.as_str())
            },
            GovernedIngressError::CollapsedObligations => crate::text::owned(
                "proof_contract and settlement_criteria must remain distinct facts",
            ),
            GovernedIngressError::CrossWiredContextPacket { expected, got } => {
                let e = crate::text::debug_str(expected.as_str());
                let g = crate::text::debug_str(got.as_str());
                let mut m = crate::text::concat3(
                    "cross-wired context packet: work_request_id expected ",
                    e.as_str(),
                    ", packet carries ",
                );
                m.append(g.as_str());
                m
            },
            GovernedIngressError::ContextRefMismatch { declared_ref, packet_id } => {
                let d = crate::text::debug_str(declared_ref.as_str());
                let p = crate::text::debug_str(packet_id.as_str());
                let mut m = crate::text::concat3("context_packet_ref ", d.as_str(), " does not name the supplied packet ");
                m.append(p.as_str());
                m
            },
            GovernedIngressError::CausalityMissing { expected_parent, recorded } => {
                let mut m = crate::text::concat3(
                    "request does not cite its context packet as causal parent: expected ",
                    expected_parent.as_str(),
                    ", recorded ",
                );
                let l = crate::text::debug_list_exec(recorded);
                m.append(l.as_str());
                m
            },
        }
    }
}

pub open spec fn unit_view(r: Result<(), GovernedIngressError>) -> Option<IngressErrorView> {
    match r {
        Ok(()) => None,
        Err(e) => Some(e@),
    }
}

/// The producer gate, as an ingress refusal.
pub open spec fn producer_refusal(env: JsonView, expected: Seq<char>, authoritative: Seq<char>) -> Option<IngressErrorView> {
    match producer_fault(env, expected, authoritative) {
        Some(ProducerFaultView::Malformed(m)) => Some(IngressErrorView::MalformedEnvelope(m)),
        Some(ProducerFaultView::WrongEventType { expected, got }) => Some(
            IngressErrorView::WrongEventType { expected, got },
        ),
        Some(ProducerFaultView::UnknownAgent { got }) => Some(IngressErrorView::UnknownAgent { got }),
        Some(ProducerFaultView::NotAuthoritative { authoritative, got }) => Some(
            IngressErrorView::NotAuthoritative { authoritative, got },
        ),
        None => None,
    }
}

pub fn check_producer(
    envelope: &Json,
    expected_event: &'static str,
    authoritative: &'static str,
) -> (r: Result<(), GovernedIngressError>)
    ensures
        unit_view(r) == producer_refusal(envelope@, expected_event@, authoritative@),
{
    match check_producer_fault(envelope, expected_event, authoritative) {
        Ok(()) => Ok(()),
        Err(ProducerFault::Malformed(m)) => Err(GovernedIngressError::MalformedEnvelope(m)),
        Err(ProducerFault::WrongEventType { expected, got }) => Err(
            GovernedIngressError::WrongEventType { expected, got },
        ),
        Err(ProducerFault::UnknownAgent { got }) => Err(GovernedIngressError::UnknownAgent { got }),
        Err(ProducerFault::NotAuthoritative { authoritative, got }) => Err(
            GovernedIngressError::NotAuthoritative { authoritative, got },
        ),
    }
}

/// Canonical identity gate for one declared model hash.
pub fn verify_declared_identity(declared: &str) -> (r: Result<(), GovernedIngressError>)
    ensures
        unit_view(r) == (if is_pseudo_identity(declared@) {
            Some(IngressErrorView::PlaceholderIdentity { got: declared@ })
        } else {
            None
        }),
{
    match verify_model_identity(declared) {
        Ok(()) => Ok(()),
        Err(got) => Err(GovernedIngressError::PlaceholderIdentity { got }),
    }
}

/// The model gate of one envelope (`label` names it in the refusal).
pub open spec fn model_refusal(env: JsonView, label: Seq<char>, local: Seq<char>) -> Option<IngressErrorView> {
    match declared_model_hash(env) {
        None => Some(
            IngressErrorView::PlaceholderIdentity {
                got: "<missing "@ + label + " domain_model_hash>"@,
            },
        ),
        Some(declared) => if is_pseudo_identity(declared) {
            Some(IngressErrorView::PlaceholderIdentity { got: declared })
        } else if declared != local {
            Some(IngressErrorView::DomainDrift { declared, local })
        } else {
            None
        },
    }
}

pub fn check_model_binding(envelope: &Json, label: &str, local_model_sha256: &str) -> (r: Result<
    (),
    GovernedIngressError,
>)
    ensures
        unit_view(r) == model_refusal(envelope@, label@, local_model_sha256@),
{
    let declared = match get_declared_model_hash(envelope) {
        Some(d) => d,
        None => {
            let mut got = concat3("<missing ", label, " domain_model_hash>");
            return Err(GovernedIngressError::PlaceholderIdentity { got });
        },
    };
    match verify_declared_identity(declared) {
        Err(e) => {
            return Err(e);
        },
        Ok(()) => {},
    }
    if !str_eq(declared, local_model_sha256) {
        return Err(
            GovernedIngressError::DomainDrift {
                declared: owned(declared),
                local: owned(local_model_sha256),
            },
        );
    }
    Ok(())
}

/// The settlement criteria of an array: its strings, trimmed, blanks dropped.
pub open spec fn criteria_of(items: Seq<JsonView>) -> Seq<Seq<char>>
    decreases items.len(),
{
    if items.len() == 0 {
        Seq::empty()
    } else {
        let rest = criteria_of(items.drop_last());
        match items.last() {
            JsonView::Str(s) => if trim(s).len() > 0 {
                rest.push(trim(s))
            } else {
                rest
            },
            _ => rest,
        }
    }
}

/// The criteria a payload declares, when it declares any.
pub open spec fn declared_criteria(p: JsonView) -> Option<Seq<Seq<char>>> {
    match jget(p, "settlement_criteria"@) {
        Some(JsonView::Array(items)) => if criteria_of(items).len() > 0 {
            Some(criteria_of(items))
        } else {
            None
        },
        _ => None,
    }
}

pub open spec fn criteria_json(c: Seq<Seq<char>>) -> JsonView {
    JsonView::Array(c.map_values(|s: Seq<char>| JsonView::Str(s)))
}

/// The proof contract carries a proof obligation: an object with a
/// non-blank `criterion`.
pub open spec fn has_criterion(pc: JsonView) -> bool {
    pc is Object && jstr(jget(pc, "criterion"@)) is Some && trim(jstr(jget(pc, "criterion"@))->0).len() > 0
}

/// The required intent fields that are absent, in report order.
pub open spec fn intent_missing(p: JsonView) -> Seq<Seq<char>> {
    let m1 = if meaningful_text(jstr(jget(p, "work_request_id"@))) is None {
        seq!["work_request_id"@]
    } else {
        Seq::empty()
    };
    let m2 = if meaningful_text(jstr(jget(p, "affordance_id"@))) is None {
        m1.push("affordance_id"@)
    } else {
        m1
    };
    let m3 = if meaningful_text(jstr(jget(p, "intent"@))) is None {
        m2.push("intent"@)
    } else {
        m2
    };
    let m4 = if meaningful_text(jstr(jget(p, "context_packet_ref"@))) is None {
        m3.push("context_packet_ref"@)
    } else {
        m3
    };
    let m5 = match jget(p, "actor"@) {
        Some(actor) => if meaningful_text(jstr(jget(actor, "actor_id"@))) is None {
            m4.push("actor.actor_id"@)
        } else {
            m4
        },
        None => m4.push("actor"@),
    };
    let m6 = if declared_criteria(p) is None {
        m5.push("settlement_criteria"@)
    } else {
        m5
    };
    match jget(p, "proof_contract"@) {
        Some(pc) => if has_criterion(pc) {
            m6
        } else {
            m6.push("proof_contract.criterion"@)
        },
        None => m6.push("proof_contract"@),
    }
}

/// The semantically governed work intent of an accepted request.
pub struct GovernedWorkIntent {
    pub work_request_id: String,
    pub affordance_id: String,
    pub actor_id: String,
    pub actor_role: Option<String>,
    pub intent: String,
    pub context_packet_ref: String,
    /// The proof obligation, kept apart from the settlement criteria.
    pub proof_contract: Json,
    pub settlement_criteria: Vec<String>,
}

pub struct IntentView {
    pub work_request_id: Seq<char>,
    pub affordance_id: Seq<char>,
    pub actor_id: Seq<char>,
    pub actor_role: Option<Seq<char>>,
    pub intent: Seq<char>,
    pub context_packet_ref: Seq<char>,
    pub proof_contract: JsonView,
    pub settlement_criteria: Seq<Seq<char>>,
}

impl View for GovernedWorkIntent {
    type V = IntentView;

    open spec fn view(&self) -> IntentView {
        IntentView {
            work_request_id: self.work_request_id@,
            affordance_id: self.affordance_id@,
            actor_id: self.actor_id@,
            actor_role: opt_string_view(self.actor_role),
            intent: self.intent@,
            context_packet_ref: self.context_packet_ref@,
            proof_contract: self.proof_contract@,
            settlement_criteria: strings_view(self.settlement_criteria@),
        }
    }
}

pub open spec fn or_empty(s: Option<Seq<char>>) -> Seq<char> {
    match s {
        Some(x) => x,
        None => Seq::empty(),
    }
}

/// The intent read off a request payload whose gates passed.
pub open spec fn intent_of(p: JsonView) -> IntentView {
    let actor = jget(p, "actor"@)->0;
    IntentView {
        work_request_id: meaningful_text(jstr(jget(p, "work_request_id"@)))->0,
        affordance_id: meaningful_text(jstr(jget(p, "affordance_id"@)))->0,
        actor_id: or_empty(jstr(jget(actor, "actor_id"@))),
        actor_role: match jstr(jget(actor, "role"@)) {
            Some(r) => if r.len() > 0 {
                Some(r)
            } else {
                None
            },
            None => None,
        },
        intent: meaningful_text(jstr(jget(p, "intent"@)))->0,
        context_packet_ref: meaningful_text(jstr(jget(p, "context_packet_ref"@)))->0,
        proof_contract: jget(p, "proof_contract"@)->0,
        settlement_criteria: declared_criteria(p)->0,
    }
}

/// The id a context packet goes by: its payload's non-empty
/// `context_packet_id`, else its event id.
pub open spec fn packet_id_of(packet: JsonView) -> Seq<char> {
    match jstr(jget_opt(jget(packet, "payload"@), "context_packet_id"@)) {
        Some(id) => if id.len() > 0 {
            id
        } else {
            or_empty(jstr(jget(packet, "event_id"@)))
        },
        None => or_empty(jstr(jget(packet, "event_id"@))),
    }
}

/// The context-binding gates, given the accepted intent.
pub open spec fn packet_refusal(request: JsonView, packet: JsonView, local: Seq<char>, it: IntentView) -> Option<IngressErrorView> {
    let packet_wr = or_empty(jstr(jget_opt(jget(packet, "payload"@), "work_request_id"@)));
    let packet_event = or_empty(jstr(jget(packet, "event_id"@)));
    if producer_refusal(packet, "ContextPacketCreated"@, "context_kernel"@) is Some {
        producer_refusal(packet, "ContextPacketCreated"@, "context_kernel"@)
    } else if model_refusal(packet, "packet"@, local) is Some {
        model_refusal(packet, "packet"@, local)
    } else if packet_wr != it.work_request_id {
        Some(IngressErrorView::CrossWiredContextPacket { expected: it.work_request_id, got: packet_wr })
    } else if it.context_packet_ref != packet_id_of(packet) {
        Some(
            IngressErrorView::ContextRefMismatch {
                declared_ref: it.context_packet_ref,
                packet_id: packet_id_of(packet),
            },
        )
    } else if !causal_parents_of(request).contains(packet_event) {
        Some(
            IngressErrorView::CausalityMissing {
                expected_parent: packet_event,
                recorded: causal_parents_of(request),
            },
        )
    } else {
        None
    }
}

/// Every gate of the acceptance, in order, and the intent that passes them.
pub open spec fn acceptance(request: JsonView, packet: JsonView, local: Seq<char>) -> Result<IntentView, IngressErrorView> {
    if !is_object(request) {
        Err(IngressErrorView::MalformedEnvelope("envelope must be an object"@))
    } else if producer_refusal(request, EVENT_TYPE@, "swe_seed"@) is Some {
        Err(producer_refusal(request, EVENT_TYPE@, "swe_seed"@)->0)
    } else if model_refusal(request, "request"@, local) is Some {
        Err(model_refusal(request, "request"@, local)->0)
    } else if !(jget(request, "payload"@) matches Some(JsonView::Object(_))) {
        Err(IngressErrorView::MalformedEnvelope("payload must be an object"@))
    } else {
        let p = jget(request, "payload"@)->0;
        if jget(p, "proof_contract"@) is Some && declared_criteria(p) is Some && jget(
            p,
            "proof_contract"@,
        )->0 == criteria_json(declared_criteria(p)->0) {
            Err(IngressErrorView::CollapsedObligations)
        } else if intent_missing(p).len() > 0 {
            Err(IngressErrorView::OpaqueCommand { missing: intent_missing(p) })
        } else {
            match packet_refusal(request, packet, local, intent_of(p)) {
                Some(e) => Err(e),
                None => Ok(intent_of(p)),
            }
        }
    }
}

pub open spec fn acceptance_view(r: Result<GovernedWorkIntent, GovernedIngressError>) -> Result<IntentView, IngressErrorView> {
    match r {
        Ok(i) => Ok(i@),
        Err(e) => Err(e@),
    }
}

fn criteria_from(items: &Vec<Json>) -> (r: Vec<String>)
    ensures
        strings_view(r@) == criteria_of(items@.map_values(|j: Json| j@)),
{
    let ghost iv = items@.map_values(|j: Json| j@);
    let mut out: Vec<String> = Vec::new();
    let mut i: usize = 0;
    while i < items.len()
        invariant
            iv == items@.map_values(|j: Json| j@),
            i <= items@.len(),
            strings_view(out@) == criteria_of(iv.subrange(0, i as int)),
        decreases items@.len() - i,
    {
        let ghost before = out@;
        proof {
            assert(iv.subrange(0, i + 1).drop_last() =~= iv.subrange(0, i as int));
            assert(iv.subrange(0, i + 1).last() == items@[i as int]@);
        }
        match &items[i] {
            Json::Str(s) => {
                let t = trim_exec(s.as_str());
                if t.as_str().unicode_len() > 0 {
                    out.push(t);
                    proof {
                        assert(strings_view(out@) =~= strings_view(before).push(out@.last()@));
                    }
                }
            },
            _ => {},
        }
        i += 1;
    }
    proof {
        assert(iv.subrange(0, items@.len() as int) =~= iv);
    }
    out
}

/// The declared settlement criteria of a payload.
fn declared_criteria_exec(p: &Json) -> (r: Option<Vec<String>>)
    ensures
        match r {
            Some(c) => declared_criteria(p@) == Some(strings_view(c@)),
            None => declared_criteria(p@) is None,
        },
{
    let g = get(p, "settlement_criteria");
    match g {
        Some(Json::Array(items)) => {
            proof {
                crate::json::lemma_items_view(items@, items@.len() as int);
                assert(crate::json::items_view(items@, items@.len() as int) =~= items@.map_values(
                    |j: Json| j@,
                ));
            }
            let c = criteria_from(items);
            if c.len() > 0 {
                Some(c)
            } else {
                None
            }
        },
        _ => None,
    }
}


/// Whether `pc` is exactly the JSON array of the criteria.
fn equals_criteria_json(pc: &Json, criteria: &Vec<String>) -> (r: bool)
    ensures
        r == (pc@ == criteria_json(strings_view(criteria@))),
{
    match pc {
        Json::Array(items) => {
            proof {
                crate::json::lemma_array_view(*items);
            }
            if items.len() != criteria.len() {
                proof {
                    assert(criteria_json(strings_view(criteria@))->Array_0.len() == criteria@.len());
                }
                return false;
            }
            let mut i: usize = 0;
            while i < items.len()
                invariant
                    *pc == Json::Array(*items),
                    items@.len() == criteria@.len(),
                    i <= items@.len(),
                    pc@ matches JsonView::Array(v) && v.len() == items@.len() && forall|j: int|
                        0 <= j < v.len() ==> #[trigger] v[j] == items@[j]@,
                    forall|j: int| 0 <= j < i ==> items@[j]@ == JsonView::Str(#[trigger] criteria@[j]@),
                decreases items@.len() - i,
            {
                let same = match &items[i] {
                    Json::Str(s) => str_eq(s.as_str(), criteria[i].as_str()),
                    _ => false,
                };
                if !same {
                    proof {
                        let v = pc@->Array_0;
                        assert(criteria_json(strings_view(criteria@))->Array_0[i as int] == JsonView::Str(criteria@[i as int]@));
                        assert(v[i as int] != JsonView::Str(criteria@[i as int]@));
                    }
                    return false;
                }
                i += 1;
            }
            proof {
                assert(pc@->Array_0 =~= criteria_json(strings_view(criteria@))->Array_0);
            }
            true
        },
        _ => false,
    }
}

fn or_empty_str(s: Option<&str>) -> (r: String)
    ensures
        r@ == or_empty(opt_str_view(s)),
{
    match s {
        Some(x) => owned(x),
        None => String::new(),
    }
}

/// Accept one governed work submission: the request envelope and the
/// context packet it references, against the locally resolved model digest.
/// The intent is returned only when every gate of `acceptance` passes.
pub fn accept_governed_work_request(request: &Json, context_packet: &Json, local_model_sha256: &str) -> (r:
    Result<GovernedWorkIntent, GovernedIngressError>)
    ensures
        acceptance_view(r) == acceptance(request@, context_packet@, local_model_sha256@),
{
    if !is_object_exec(request) {
        return Err(GovernedIngressError::MalformedEnvelope(owned("envelope must be an object")));
    }
    match check_producer(request, EVENT_TYPE, "swe_seed") {
        Err(e) => {
            return Err(e);
        },
        Ok(()) => {},
    }
    match check_model_binding(request, "request", local_model_sha256) {
        Err(e) => {
            return Err(e);
        },
        Ok(()) => {},
    }
    let payload = match get(request, "payload") {
        Some(p) => p,
        None => {
            return Err(GovernedIngressError::MalformedEnvelope(owned("payload must be an object")));
        },
    };
    if !is_object_exec(payload) {
        return Err(GovernedIngressError::MalformedEnvelope(owned("payload must be an object")));
    }
    let ghost p = payload@;
    let mut missing: Vec<&'static str> = Vec::new();
    let work_request_id = meaningful(get_str(payload, "work_request_id"));
    if work_request_id.is_none() {
        missing.push("work_request_id");
    }
    let affordance_id = meaningful(get_str(payload, "affordance_id"));
    if affordance_id.is_none() {
        missing.push("affordance_id");
    }
    let intent = meaningful(get_str(payload, "intent"));
    if intent.is_none() {
        missing.push("intent");
    }
    let context_packet_ref = meaningful(get_str(payload, "context_packet_ref"));
    if context_packet_ref.is_none() {
        missing.push("context_packet_ref");
    }
    let actor = get(payload, "actor");
    let actor_role: Option<String>;
    match actor {
        Some(a) => {
            match meaningful(get_str(a, "actor_id")) {
                Some(_) => {
                    actor_role = match get_str(a, "role") {
                        Some(r) => if r.unicode_len() > 0 {
                            Some(owned(r))
                        } else {
                            None
                        },
                        None => None,
                    };
                },
                None => {
                    missing.push("actor.actor_id");
                    actor_role = None;
                },
            }
        },
        None => {
            missing.push("actor");
            actor_role = None;
        },
    }
    let criteria = declared_criteria_exec(payload);
    if criteria.is_none() {
        missing.push("settlement_criteria");
    }
    let pc = get(payload, "proof_contract");
    match (pc, &criteria) {
        (Some(pcv), Some(c)) => {
            if equals_criteria_json(pcv, c) {
                return Err(GovernedIngressError::CollapsedObligations);
            }
        },
        _ => {},
    }
    match pc {
        Some(pcv) => {
            let ok = is_object_exec(pcv) && match get_str(pcv, "criterion") {
                Some(c) => trim_exec(c).as_str().unicode_len() > 0,
                None => false,
            };
            if !ok {
                missing.push("proof_contract.criterion");
            }
        },
        None => {
            missing.push("proof_contract");
        },
    }
    proof {
        assert(crate::governed_execution_boundary::static_strs_view(missing@) =~= intent_missing(p));
    }
    if missing.len() > 0 {
        return Err(GovernedIngressError::OpaqueCommand { missing });
    }
    let work_request_id = work_request_id.unwrap();
    let affordance_id = affordance_id.unwrap();
    let intent = intent.unwrap();
    let context_packet_ref = context_packet_ref.unwrap();
    let settlement_criteria = criteria.unwrap();
    let proof_contract = json_clone(pc.unwrap());
    let actor_id = or_empty_str(get_str(actor.unwrap(), "actor_id"));
    let ghost it = intent_of(p);
    // Context binding.
    match check_producer(context_packet, "ContextPacketCreated", "context_kernel") {
        Err(e) => {
            return Err(e);
        },
        Ok(()) => {},
    }
    match check_model_binding(context_packet, "packet", local_model_sha256) {
        Err(e) => {
            return Err(e);
        },
        Ok(()) => {},
    }
    let packet_payload = get(context_packet, "payload");
    let packet_wr = or_empty_str(as_str(get_opt(packet_payload, "work_request_id")));
    if !str_eq(packet_wr.as_str(), work_request_id.as_str()) {
        return Err(
            GovernedIngressError::CrossWiredContextPacket {
                expected: work_request_id,
                got: packet_wr,
            },
        );
    }
    let packet_event = or_empty_str(get_str(context_packet, "event_id"));
    let packet_id = match as_str(get_opt(packet_payload, "context_packet_id")) {
        Some(id) => if id.unicode_len() > 0 {
            owned(id)
        } else {
            packet_event.clone()
        },
        None => packet_event.clone(),
    };
    if !str_eq(context_packet_ref.as_str(), packet_id.as_str()) {
        return Err(
            GovernedIngressError::ContextRefMismatch { declared_ref: context_packet_ref, packet_id },
        );
    }
    let parents = causal_parents(request);
    if !contains_string(&parents, packet_event.as_str()) {
        return Err(
            GovernedIngressError::CausalityMissing { expected_parent: packet_event, recorded: parents },
        );
    }
    Ok(
        GovernedWorkIntent {
            work_request_id,
            affordance_id,
            actor_id,
            actor_role,
            intent,
            context_packet_ref,
            proof_contract,
            settlement_criteria,
        },
    )
}

/// Only a fully governed request enters: whatever is accepted was produced
/// by `swe_seed`, declares a real model equal to the local one, carries
/// non-empty settlement criteria and a proof contract apart from them, and
/// is bound to a `context_kernel` packet of the same work request, which it
/// names and records as its causal parent.
pub proof fn law_accepted_requests_are_fully_governed(request: JsonView, packet: JsonView, local: Seq<char>)
    ensures
        acceptance(request, packet, local) matches Ok(intent) ==> {
            &&& jstr(jget(request, "event_type"@)) == Some(EVENT_TYPE@)
            &&& jstr(jget(request, "source_agent"@)) matches Some(stamp) && crate::envelope::canonical_agent_of(stamp) == Some("swe_seed"@)
            &&& declared_model_hash(request) == Some(local)
            &&& !is_pseudo_identity(local)
            &&& intent.settlement_criteria.len() > 0
            &&& intent.proof_contract != criteria_json(intent.settlement_criteria)
            &&& has_criterion(intent.proof_contract)
            &&& jstr(jget(packet, "source_agent"@)) matches Some(stamp) && crate::envelope::canonical_agent_of(stamp) == Some("context_kernel"@)
            &&& declared_model_hash(packet) == Some(local)
            &&& or_empty(jstr(jget_opt(jget(packet, "payload"@), "work_request_id"@))) == intent.work_request_id
            &&& intent.context_packet_ref == packet_id_of(packet)
            &&& causal_parents_of(request).contains(or_empty(jstr(jget(packet, "event_id"@))))
        },
{
}

} // verus!
