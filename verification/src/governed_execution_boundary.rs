//! The governed execution boundary: an AuthorizedInvocation exists only for an
//! allowed authority decision, and an ExecutionObservation settles only when
//! it binds to the exact, current, authorized invocation it cites.
use vstd::prelude::*;
use crate::envelope::{
    ProducerFault, ProducerFaultView, producer_fault, check_producer_fault, declared_model_hash,
    get_declared_model_hash, is_pseudo_identity, verify_model_identity, meaningful,
    meaningful_text, opt_string_view, identity_check, check_identity_string, causal_parents,
    causal_parents_of, strings_view, contains_string,
};
use crate::json::{
    Json, JsonView, get, get_str, jget, jstr, is_object, is_object_exec, json_clone, opt_view,
};
use crate::text::{owned, str_eq, trim, trim_exec, concat3};
use vstd::string::StrSliceExecFns;
use vstd::string::StringExecFns;

verus! {

/// Event type owned exclusively by `sea_forge` at the authorization edge.
pub const AUTHORIZED_INVOCATION: &'static str = "AuthorizedInvocation";

/// Event type owned exclusively by `execution_environment` at the observation edge.
pub const EXECUTION_OBSERVATION: &'static str = "ExecutionObservation";

// ---------------------------------------------------------------------------
// Refusals
// ---------------------------------------------------------------------------

/// Why the boundary refused an envelope or an emission attempt.
#[derive(Debug, Clone, PartialEq, Eq)]
pub enum BoundaryError {
    /// Authority has not permitted this invocation: no AuthorizedInvocation exists.
    AuthorityNotGranted { disposition: String },
    /// The governed correlation is absent or blank.
    OpaqueWorkRequest,
    /// A required identity/correlation field is missing, blank, or a placeholder.
    PlaceholderField { field: String },
    /// Declared model hash is malformed or a known pseudo-identity.
    PlaceholderIdentity { got: String },
    /// Declared model hash differs from the locally resolved canonical model.
    DomainDrift { declared: String, local: String },
    /// Not a decodable canonical v1 envelope object.
    MalformedEnvelope(String),
    /// Right shape, wrong event type.
    WrongEventType { expected: &'static str, got: String },
    /// `source_agent` outside the canonical vocabulary entirely.
    UnknownAgent { got: String },
    /// A known component forging another's authoritative event.
    NotAuthoritative { authoritative: &'static str, got: String },
    /// Required payload fields absent, empty, or of the wrong shape.
    OpaquePayload { missing: Vec<&'static str> },
    /// `execution_status` outside the governed vocabulary.
    InvalidExecutionStatus { got: String },
    /// An optional-but-typed field arrived with the wrong shape.
    InvalidOptionalField { field: &'static str },
    /// The derivation does not record the required causal parent.
    CausalityMissing { expected_parent: String, recorded: Vec<String> },
    /// No authorized invocation exists under the cited identity.
    UnknownInvocation { invocation_id: String },
    /// The observation belongs to a superseded generation of its slot.
    LateObservation { invocation_id: String, settled_generation: u64, current_generation: u64 },
    /// The observation correlates to a different work request than authorized.
    CrossWiredWorkRequest { expected: String, got: String },
    /// The response self-supplied an authority decision other than the recorded one.
    SelfAssertedAuthority { recorded: String, claimed: String },
    /// A system source an emission draws on failed: the random source or
    /// the clock.
    SystemUnavailable(String),
}

pub enum BoundaryErrorView {
    AuthorityNotGranted { disposition: Seq<char> },
    OpaqueWorkRequest,
    PlaceholderField { field: Seq<char> },
    PlaceholderIdentity { got: Seq<char> },
    DomainDrift { declared: Seq<char>, local: Seq<char> },
    MalformedEnvelope(Seq<char>),
    WrongEventType { expected: Seq<char>, got: Seq<char> },
    UnknownAgent { got: Seq<char> },
    NotAuthoritative { authoritative: Seq<char>, got: Seq<char> },
    OpaquePayload { missing: Seq<Seq<char>> },
    InvalidExecutionStatus { got: Seq<char> },
    InvalidOptionalField { field: Seq<char> },
    CausalityMissing { expected_parent: Seq<char>, recorded: Seq<Seq<char>> },
    UnknownInvocation { invocation_id: Seq<char> },
    LateObservation { invocation_id: Seq<char>, settled_generation: int, current_generation: int },
    CrossWiredWorkRequest { expected: Seq<char>, got: Seq<char> },
    SelfAssertedAuthority { recorded: Seq<char>, claimed: Seq<char> },
    SystemUnavailable(Seq<char>),
}

pub open spec fn static_strs_view(v: Seq<&'static str>) -> Seq<Seq<char>> {
    v.map_values(|s: &'static str| s@)
}

impl View for BoundaryError {
    type V = BoundaryErrorView;

    open spec fn view(&self) -> BoundaryErrorView {
        match self {
            BoundaryError::AuthorityNotGranted { disposition } =>
                BoundaryErrorView::AuthorityNotGranted { disposition: disposition@ },
            BoundaryError::OpaqueWorkRequest => BoundaryErrorView::OpaqueWorkRequest,
            BoundaryError::PlaceholderField { field } => BoundaryErrorView::PlaceholderField {
                field: field@,
            },
            BoundaryError::PlaceholderIdentity { got } => BoundaryErrorView::PlaceholderIdentity {
                got: got@,
            },
            BoundaryError::DomainDrift { declared, local } => BoundaryErrorView::DomainDrift {
                declared: declared@,
                local: local@,
            },
            BoundaryError::MalformedEnvelope(m) => BoundaryErrorView::MalformedEnvelope(m@),
            BoundaryError::WrongEventType { expected, got } => BoundaryErrorView::WrongEventType {
                expected: expected@,
                got: got@,
            },
            BoundaryError::UnknownAgent { got } => BoundaryErrorView::UnknownAgent { got: got@ },
            BoundaryError::NotAuthoritative { authoritative, got } =>
                BoundaryErrorView::NotAuthoritative { authoritative: authoritative@, got: got@ },
            BoundaryError::OpaquePayload { missing } => BoundaryErrorView::OpaquePayload {
                missing: static_strs_view(missing@),
            },
            BoundaryError::InvalidExecutionStatus { got } =>
                BoundaryErrorView::InvalidExecutionStatus { got: got@ },
            BoundaryError::InvalidOptionalField { field } =>
                BoundaryErrorView::InvalidOptionalField { field: field@ },
            BoundaryError::CausalityMissing { expected_parent, recorded } =>
                BoundaryErrorView::CausalityMissing {
                    expected_parent: expected_parent@,
                    recorded: strings_view(recorded@),
                },
            BoundaryError::UnknownInvocation { invocation_id } =>
                BoundaryErrorView::UnknownInvocation { invocation_id: invocation_id@ },
            BoundaryError::LateObservation {
                invocation_id,
                settled_generation,
                current_generation,
            } => BoundaryErrorView::LateObservation {
                invocation_id: invocation_id@,
                settled_generation: *settled_generation as int,
                current_generation: *current_generation as int,
            },
            BoundaryError::CrossWiredWorkRequest { expected, got } =>
                BoundaryErrorView::CrossWiredWorkRequest { expected: expected@, got: got@ },
            BoundaryError::SelfAssertedAuthority { recorded, claimed } =>
                BoundaryErrorView::SelfAssertedAuthority { recorded: recorded@, claimed: claimed@ },
            BoundaryError::SystemUnavailable(m) => BoundaryErrorView::SystemUnavailable(m@),
        }
    }
}

/// The human-readable text of a refusal.
pub open spec fn boundary_message(e: BoundaryErrorView) -> Seq<char> {
    match e {
        BoundaryErrorView::AuthorityNotGranted { disposition } =>
            "authority has not permitted this invocation (disposition: "@ + disposition
                + "); no AuthorizedInvocation may exist"@,
        BoundaryErrorView::OpaqueWorkRequest => "work_request_id is missing or blank"@,
        BoundaryErrorView::PlaceholderField { field } => field + " is a placeholder or blank identity"@,
        BoundaryErrorView::PlaceholderIdentity { got } =>
            "fallback/placeholder pseudo-hash rejected as domain identity: "@ + got,
        BoundaryErrorView::DomainDrift { declared, local } => "domain model drift: envelope declares "@
            + declared + ", local canonical model is "@ + local,
        BoundaryErrorView::MalformedEnvelope(m) => "malformed canonical envelope: "@ + m,
        BoundaryErrorView::WrongEventType { expected, got } => "expected "@ + expected + " event, got '"@
            + got + "'"@,
        BoundaryErrorView::UnknownAgent { got } => "source_agent outside the canonical vocabulary: "@ + got,
        BoundaryErrorView::NotAuthoritative { authoritative, got } => "event may only be produced by '"@
            + authoritative + "', forge attempted by '"@ + got + "'"@,
        BoundaryErrorView::OpaquePayload { missing } =>
            "opaque execution payload rejected — missing/invalid fields: "@ + crate::text::joined(
                missing,
                ", "@,
            ),
        BoundaryErrorView::InvalidExecutionStatus { got } =>
            "execution_status outside the governed vocabulary: "@ + got,
        BoundaryErrorView::InvalidOptionalField { field } => "optional field "@ + field
            + " has the wrong shape"@,
        BoundaryErrorView::CausalityMissing { expected_parent, recorded } =>
            "observation does not cite its authorized invocation as causal parent: expected "@
                + expected_parent + ", recorded "@ + crate::text::debug_list(recorded),
        BoundaryErrorView::UnknownInvocation { invocation_id } =>
            "no authorized invocation exists under invocation_id "@ + crate::text::debug_quoted(
                invocation_id,
            ),
        BoundaryErrorView::LateObservation {
            invocation_id,
            settled_generation,
            current_generation,
        } => "late observation: invocation "@ + invocation_id + " is generation "@
            + crate::text::decimal(settled_generation as nat) + " but slot is at generation "@
            + crate::text::decimal(current_generation as nat),
        BoundaryErrorView::CrossWiredWorkRequest { expected, got } =>
            "cross-wired observation: invocation was authorized for work_request_id "@
                + crate::text::debug_quoted(expected) + ", observation carries "@
                + crate::text::debug_quoted(got),
        BoundaryErrorView::SelfAssertedAuthority { recorded, claimed } =>
            "self-asserted authority rejected: invocation was authorized by decision "@
                + crate::text::debug_quoted(recorded) + ", response claims "@
                + crate::text::debug_quoted(claimed),
        BoundaryErrorView::SystemUnavailable(m) => m,
    }
}

pub(crate) fn static_strs_owned(v: &Vec<&'static str>) -> (r: Vec<String>)
    ensures
        strings_view(r@) == static_strs_view(v@),
{
    let mut out: Vec<String> = Vec::new();
    let mut i: usize = 0;
    while i < v.len()
        invariant
            i <= v@.len(),
            out@.len() == i,
            forall|j: int| 0 <= j < i ==> (#[trigger] out@[j])@ == v@[j]@,
        decreases v@.len() - i,
    {
        out.push(owned(v[i]));
        i += 1;
    }
    proof {
        assert(strings_view(out@) =~= static_strs_view(v@));
    }
    out
}

impl BoundaryError {
    /// The refusal as text.
    pub fn message(&self) -> (r: String)
        ensures
            r@ == boundary_message(self@),
    {
        let r = match self {
            BoundaryError::AuthorityNotGranted { disposition } => concat3(
                "authority has not permitted this invocation (disposition: ",
                disposition.as_str(),
                "); no AuthorizedInvocation may exist",
            ),
            BoundaryError::OpaqueWorkRequest => owned("work_request_id is missing or blank"),
            BoundaryError::PlaceholderField { field } => crate::text::concat2(
                field.as_str(),
                " is a placeholder or blank identity",
            ),
            BoundaryError::PlaceholderIdentity { got } => crate::text::concat2(
                "fallback/placeholder pseudo-hash rejected as domain identity: ",
                got.as_str(),
            ),
            BoundaryError::DomainDrift { declared, local } => {
                let mut m = concat3(
                    "domain model drift: envelope declares ",
                    declared.as_str(),
                    ", local canonical model is ",
                );
                m.append(local.as_str());
                m
            },
            BoundaryError::MalformedEnvelope(m) => crate::text::concat2(
                "malformed canonical envelope: ",
                m.as_str(),
            ),
            BoundaryError::WrongEventType { expected, got } => {
                let mut m = concat3("expected ", expected, " event, got '");
                m.append(got.as_str());
                m.append("'");
                m
            },
            BoundaryError::UnknownAgent { got } => crate::text::concat2(
                "source_agent outside the canonical vocabulary: ",
                got.as_str(),
            ),
            BoundaryError::NotAuthoritative { authoritative, got } => {
                let mut m = concat3(
                    "event may only be produced by '",
                    authoritative,
                    "', forge attempted by '",
                );
                m.append(got.as_str());
                m.append("'");
                m
            },
            BoundaryError::OpaquePayload { missing } => {
                let names = static_strs_owned(missing);
                let joined = crate::text::join_exec(&names, ", ");
                crate::text::concat2(
                    "opaque execution payload rejected — missing/invalid fields: ",
                    joined.as_str(),
                )
            },
            BoundaryError::InvalidExecutionStatus { got } => crate::text::concat2(
                "execution_status outside the governed vocabulary: ",
                got.as_str(),
            ),
            BoundaryError::InvalidOptionalField { field } => concat3(
                "optional field ",
                field,
                " has the wrong shape",
            ),
            BoundaryError::CausalityMissing { expected_parent, recorded } => {
                let mut m = concat3(
                    "observation does not cite its authorized invocation as causal parent: expected ",
                    expected_parent.as_str(),
                    ", recorded ",
                );
                let l = crate::text::debug_list_exec(recorded);
                m.append(l.as_str());
                m
            },
            BoundaryError::UnknownInvocation { invocation_id } => {
                let q = crate::text::debug_str(invocation_id.as_str());
                crate::text::concat2(
                    "no authorized invocation exists under invocation_id ",
                    q.as_str(),
                )
            },
            BoundaryError::LateObservation {
                invocation_id,
                settled_generation,
                current_generation,
            } => {
                let mut m = concat3(
                    "late observation: invocation ",
                    invocation_id.as_str(),
                    " is generation ",
                );
                let a = crate::text::decimal_exec(*settled_generation);
                let b = crate::text::decimal_exec(*current_generation);
                m.append(a.as_str());
                m.append(" but slot is at generation ");
                m.append(b.as_str());
                m
            },
            BoundaryError::CrossWiredWorkRequest { expected, got } => {
                let a = crate::text::debug_str(expected.as_str());
                let b = crate::text::debug_str(got.as_str());
                let mut m = concat3(
                    "cross-wired observation: invocation was authorized for work_request_id ",
                    a.as_str(),
                    ", observation carries ",
                );
                m.append(b.as_str());
                m
            },
            BoundaryError::SelfAssertedAuthority { recorded, claimed } => {
                let a = crate::text::debug_str(recorded.as_str());
                let b = crate::text::debug_str(claimed.as_str());
                let mut m = concat3(
                    "self-asserted authority rejected: invocation was authorized by decision ",
                    a.as_str(),
                    ", response claims ",
                );
                m.append(b.as_str());
                m
            },
            BoundaryError::SystemUnavailable(m) => m.clone(),
        };
        proof {
            assert(r@ =~= boundary_message(self@));
        }
        r
    }
}

pub open spec fn producer_error(f: ProducerFaultView) -> BoundaryErrorView {
    match f {
        ProducerFaultView::Malformed(m) => BoundaryErrorView::MalformedEnvelope(m),
        ProducerFaultView::WrongEventType { expected, got } => BoundaryErrorView::WrongEventType {
            expected,
            got,
        },
        ProducerFaultView::UnknownAgent { got } => BoundaryErrorView::UnknownAgent { got },
        ProducerFaultView::NotAuthoritative { authoritative, got } =>
            BoundaryErrorView::NotAuthoritative { authoritative, got },
    }
}

pub open spec fn unit_result_view(r: Result<(), BoundaryError>) -> Option<BoundaryErrorView> {
    match r {
        Ok(()) => None,
        Err(e) => Some(e@),
    }
}

/// The producer gate of the envelope family, as a boundary refusal.
pub open spec fn envelope_producer_fault(env: JsonView, expected: Seq<char>, authoritative: Seq<char>) -> Option<BoundaryErrorView> {
    match producer_fault(env, expected, authoritative) {
        Some(f) => Some(producer_error(f)),
        None => None,
    }
}

pub fn check_envelope_producer(
    envelope: &Json,
    expected_event: &'static str,
    authoritative: &'static str,
) -> (r: Result<(), BoundaryError>)
    ensures
        unit_result_view(r) == envelope_producer_fault(envelope@, expected_event@, authoritative@),
{
    match check_producer_fault(envelope, expected_event, authoritative) {
        Ok(()) => Ok(()),
        Err(ProducerFault::Malformed(m)) => Err(BoundaryError::MalformedEnvelope(m)),
        Err(ProducerFault::WrongEventType { expected, got }) => Err(
            BoundaryError::WrongEventType { expected, got },
        ),
        Err(ProducerFault::UnknownAgent { got }) => Err(BoundaryError::UnknownAgent { got }),
        Err(ProducerFault::NotAuthoritative { authoritative, got }) => Err(
            BoundaryError::NotAuthoritative { authoritative, got },
        ),
    }
}

/// The model-identity gate: the payload declares a real model hash equal to
/// the (trimmed) local resolution.
pub open spec fn model_binding_fault(env: JsonView, local: Seq<char>) -> Option<BoundaryErrorView> {
    match declared_model_hash(env) {
        None => Some(BoundaryErrorView::PlaceholderIdentity { got: "<missing domain_model_hash>"@ }),
        Some(declared) => if is_pseudo_identity(declared) {
            Some(BoundaryErrorView::PlaceholderIdentity { got: declared })
        } else if declared != trim(local) {
            Some(BoundaryErrorView::DomainDrift { declared, local: trim(local) })
        } else {
            None
        },
    }
}

pub fn check_payload_model_binding(envelope: &Json, local_model_sha256: &str) -> (r: Result<
    (),
    BoundaryError,
>)
    ensures
        unit_result_view(r) == model_binding_fault(envelope@, local_model_sha256@),
{
    let declared = match get_declared_model_hash(envelope) {
        Some(d) => d,
        None => {
            return Err(
                BoundaryError::PlaceholderIdentity { got: owned("<missing domain_model_hash>") },
            );
        },
    };
    match verify_model_identity(declared) {
        Err(got) => {
            return Err(BoundaryError::PlaceholderIdentity { got });
        },
        Ok(()) => {},
    }
    let local = trim_exec(local_model_sha256);
    if !str_eq(declared, local.as_str()) {
        return Err(BoundaryError::DomainDrift { declared: owned(declared), local });
    }
    Ok(())
}

// ---------------------------------------------------------------------------
// Emission of AuthorizedInvocation envelopes
// ---------------------------------------------------------------------------

/// The classified action an authority decision was taken on.
pub enum AuthorityAction {
    WriteFile { path: String },
    ExecuteCommand { argv: Vec<String> },
    ExternalApi { host: String },
    AgentProbe { host: String },
    AgentTask { host: String },
    GitCommit,
    GithubPr,
    Reserved { resource_type: String, resource_id: String },
    Unclassified { raw_kind: String },
}

/// A decision of the authority engine, as far as the boundary reads it.
pub struct AuthorityDecision {
    pub decision_id: String,
    /// The verdict is `Allow`.
    pub verdict_allows: bool,
    /// The normalized disposition, by its variant name (`Allow`, `Deny`, ...).
    pub disposition: String,
    pub operation: AuthorityAction,
    pub sandbox_class_granted: Option<String>,
    /// `timeout_secs` of the action request's context, when it is an unsigned integer.
    pub timeout_secs: Option<u64>,
    pub compensating_controls: Vec<String>,
}

/// The frozen `(operation, resource)` projection of an action; total.
pub open spec fn operation_and_resource_of(a: AuthorityAction) -> (Seq<char>, Seq<char>) {
    match a {
        AuthorityAction::WriteFile { path } => ("write_file"@, path@),
        AuthorityAction::ExecuteCommand { argv } => (
            "execute_command"@,
            if argv@.len() > 0 {
                argv@[0]@
            } else {
                Seq::empty()
            },
        ),
        AuthorityAction::ExternalApi { host } => ("external_api"@, host@),
        AuthorityAction::AgentProbe { host } => ("external_api"@, host@),
        AuthorityAction::AgentTask { host } => ("external_api"@, host@),
        AuthorityAction::GitCommit => ("git_commit"@, "repository"@),
        AuthorityAction::GithubPr => ("github_pr"@, "pull_request"@),
        AuthorityAction::Reserved { resource_type, resource_id } => (resource_type@, resource_id@),
        AuthorityAction::Unclassified { raw_kind } => ("unclassified"@, raw_kind@),
    }
}

pub fn operation_and_resource(action: &AuthorityAction) -> (r: (String, String))
    ensures
        (r.0@, r.1@) == operation_and_resource_of(*action),
{
    match action {
        AuthorityAction::WriteFile { path } => (owned("write_file"), path.clone()),
        AuthorityAction::ExecuteCommand { argv } => (
            owned("execute_command"),
            if argv.len() > 0 {
                argv[0].clone()
            } else {
                String::new()
            },
        ),
        AuthorityAction::ExternalApi { host } => (owned("external_api"), host.clone()),
        AuthorityAction::AgentProbe { host } => (owned("external_api"), host.clone()),
        AuthorityAction::AgentTask { host } => (owned("external_api"), host.clone()),
        AuthorityAction::GitCommit => (owned("git_commit"), owned("repository")),
        AuthorityAction::GithubPr => (owned("github_pr"), owned("pull_request")),
        AuthorityAction::Reserved { resource_type, resource_id } => (
            resource_type.clone(),
            resource_id.clone(),
        ),
        AuthorityAction::Unclassified { raw_kind } => (owned("unclassified"), raw_kind.clone()),
    }
}

/// A canonical AuthorizedInvocation emitted at the boundary.
pub struct AuthorizedInvocation {
    /// The full canonical v1 envelope: the only thing that crosses over.
    pub envelope: Json,
    pub event_id: String,
    pub invocation_id: String,
    pub work_request_id: String,
    pub authority_decision_id: String,
    pub operation: String,
    pub resource: String,
}

pub struct AuthorizedInvocationView {
    pub envelope: JsonView,
    pub event_id: Seq<char>,
    pub invocation_id: Seq<char>,
    pub work_request_id: Seq<char>,
    pub authority_decision_id: Seq<char>,
    pub operation: Seq<char>,
    pub resource: Seq<char>,
}

impl View for AuthorizedInvocation {
    type V = AuthorizedInvocationView;

    open spec fn view(&self) -> AuthorizedInvocationView {
        AuthorizedInvocationView {
            envelope: self.envelope@,
            event_id: self.event_id@,
            invocation_id: self.invocation_id@,
            work_request_id: self.work_request_id@,
            authority_decision_id: self.authority_decision_id@,
            operation: self.operation@,
            resource: self.resource@,
        }
    }
}

pub open spec fn str_json(s: Seq<char>) -> JsonView {
    JsonView::Str(s)
}

/// The authority-side facts a decision carries, as execution constraints.
pub open spec fn constraints_of(d: AuthorityDecision) -> JsonView {
    let m1: Seq<(Seq<char>, JsonView)> = if d.compensating_controls@.len() > 0 {
        seq![("compensating_controls"@, JsonView::Array(d.compensating_controls@.map_values(|s: String| JsonView::Str(s@))))]
    } else {
        Seq::empty()
    };
    let m2 = match d.sandbox_class_granted {
        Some(c) => m1.push(("sandbox_class"@, JsonView::Str(c@))),
        None => m1,
    };
    let m3 = match d.timeout_secs {
        Some(t) => m2.push(("timeout_secs"@, JsonView::Number(crate::text::decimal(t as nat)))),
        None => m2,
    };
    JsonView::Object(m3)
}

/// The invocation payload (members in key order).
pub open spec fn invocation_payload(
    d: AuthorityDecision,
    work_request_id: Seq<char>,
    declared: Seq<char>,
    grant: Option<Seq<char>>,
    invocation_id: Seq<char>,
) -> JsonView {
    let (op, res) = operation_and_resource_of(d.operation);
    let m1 = seq![
        ("authority_decision_id"@, str_json(d.decision_id@)),
        ("domain_model_hash"@, str_json(declared)),
        ("execution_constraints"@, constraints_of(d)),
    ];
    let m2 = match meaningful_text(grant) {
        Some(g) => m1.push(("grant_id"@, str_json(g))),
        None => m1,
    };
    JsonView::Object(
        m2 + seq![
            ("invocation_id"@, str_json(invocation_id)),
            ("namespace"@, str_json(crate::envelope::NAMESPACE@)),
            ("operation"@, str_json(op)),
            ("resource"@, str_json(res)),
            ("work_request_id"@, str_json(work_request_id)),
        ],
    )
}

/// The content-derived dedup key of an event: the digest of
/// `"|{event_type}|{canonical payload}"`.
pub open spec fn idempotency_key_of(event_type: Seq<char>, payload: JsonView) -> Seq<char> {
    crate::envelope::sha256_hex_of_text("|"@ + event_type + "|"@ + crate::json::render(payload, true))
}

/// The envelope of an authorized invocation (members in key order).
pub open spec fn invocation_envelope(
    payload: JsonView,
    declared: Seq<char>,
    causal_parent: Seq<char>,
    event_id: Seq<char>,
    occurred_at: Seq<char>,
) -> JsonView {
    JsonView::Object(
        seq![
            ("event_id"@, str_json(event_id)),
            ("event_type"@, str_json(AUTHORIZED_INVOCATION@)),
            ("idempotency_key"@, str_json(idempotency_key_of(AUTHORIZED_INVOCATION@, payload))),
            ("occurred_at"@, str_json(occurred_at)),
            ("payload"@, payload),
            ("provenance"@, JsonView::Object(seq![
                ("chain"@, JsonView::Array(seq![
                    str_json("domain_model_hash:"@ + declared),
                    str_json("caused_by:"@ + causal_parent),
                ])),
                ("origin"@, str_json("sea-forge"@)),
            ])),
            ("schema_version"@, str_json(crate::envelope::SCHEMA_VERSION@)),
            ("source_agent"@, str_json("sea-forge"@)),
        ],
    )
}

/// The gates of an emission, in order: authority allows, a meaningful work
/// request, a real declared model equal to the local one, and a governing
/// work-request event to descend from.
pub open spec fn emission_refusal(
    d: AuthorityDecision,
    work_request_id: Seq<char>,
    declared: Seq<char>,
    local: Seq<char>,
    parent_event_id: Seq<char>,
) -> Option<BoundaryErrorView> {
    if !(d.verdict_allows && d.disposition@ == "Allow"@) {
        Some(BoundaryErrorView::AuthorityNotGranted { disposition: d.disposition@ })
    } else if identity_check("work_request_id"@, work_request_id) is Err {
        Some(BoundaryErrorView::OpaqueWorkRequest)
    } else if is_pseudo_identity(declared) {
        Some(BoundaryErrorView::PlaceholderIdentity { got: declared })
    } else if declared != trim(local) {
        Some(BoundaryErrorView::DomainDrift { declared, local: trim(local) })
    } else if identity_check("governed_work_request_event_id"@, parent_event_id) is Err {
        Some(BoundaryErrorView::PlaceholderField { field: "governed_work_request_event_id"@ })
    } else {
        None
    }
}

/// The invocation emitted under the given fresh identifiers and time.
pub open spec fn authorized_invocation_of(
    d: AuthorityDecision,
    work_request_id: Seq<char>,
    declared: Seq<char>,
    parent_event_id: Seq<char>,
    grant: Option<Seq<char>>,
    invocation_id: Seq<char>,
    event_id: Seq<char>,
    occurred_at: Seq<char>,
) -> AuthorizedInvocationView {
    let w = trim(work_request_id);
    let (op, res) = operation_and_resource_of(d.operation);
    let payload = invocation_payload(d, w, declared, grant, invocation_id);
    AuthorizedInvocationView {
        envelope: invocation_envelope(payload, declared, trim(parent_event_id), event_id, occurred_at),
        event_id,
        invocation_id,
        work_request_id: w,
        authority_decision_id: d.decision_id@,
        operation: op,
        resource: res,
    }
}

fn execution_constraints(d: &AuthorityDecision) -> (r: Json)
    ensures
        r@ == constraints_of(*d),
{
    let mut m: Vec<(String, Json)> = Vec::new();
    proof {
        assert(crate::json::members_view(m@) =~= Seq::<(Seq<char>, JsonView)>::empty());
    }
    if d.compensating_controls.len() > 0 {
        crate::json::push_member(&mut m, "compensating_controls", crate::json::string_array(&d.compensating_controls));
    }
    match &d.sandbox_class_granted {
        Some(c) => crate::json::push_member(&mut m, "sandbox_class", Json::Str(c.clone())),
        None => {},
    }
    match d.timeout_secs {
        Some(t) => crate::json::push_member(&mut m, "timeout_secs", Json::Number(crate::text::decimal_exec(t))),
        None => {},
    }
    crate::json::object_of(m)
}

/// Builds the envelope of an authorized invocation from checked inputs and
/// the fresh identifiers and time it is issued under.
fn build_invocation(
    decision: &AuthorityDecision,
    work_request_id: String,
    declared_model_sha256: &str,
    causal_parent: String,
    grant_id: Option<&str>,
    invocation_id: String,
    event_id: String,
    occurred_at: String,
) -> (r: AuthorizedInvocation)
    ensures
        r@ == (AuthorizedInvocationView {
            envelope: invocation_envelope(
                invocation_payload(*decision, work_request_id@, declared_model_sha256@, crate::json::opt_str_view(grant_id), invocation_id@),
                declared_model_sha256@,
                causal_parent@,
                event_id@,
                occurred_at@,
            ),
            event_id: event_id@,
            invocation_id: invocation_id@,
            work_request_id: work_request_id@,
            authority_decision_id: decision.decision_id@,
            operation: operation_and_resource_of(decision.operation).0,
            resource: operation_and_resource_of(decision.operation).1,
        }),
{
    let (operation, resource) = operation_and_resource(&decision.operation);
    let mut p: Vec<(String, Json)> = Vec::new();
    proof {
        assert(crate::json::members_view(p@) =~= Seq::<(Seq<char>, JsonView)>::empty());
    }
    crate::json::push_member(&mut p, "authority_decision_id", Json::Str(decision.decision_id.clone()));
    crate::json::push_member(&mut p, "domain_model_hash", Json::Str(owned(declared_model_sha256)));
    crate::json::push_member(&mut p, "execution_constraints", execution_constraints(decision));
    match meaningful(grant_id) {
        Some(g) => crate::json::push_member(&mut p, "grant_id", Json::Str(g)),
        None => {},
    }
    let ghost m2 = crate::json::members_view(p@);
    proof {
        let m1 = seq![
            ("authority_decision_id"@, str_json(decision.decision_id@)),
            ("domain_model_hash"@, str_json(declared_model_sha256@)),
            ("execution_constraints"@, constraints_of(*decision)),
        ];
        assert(m2 =~= match meaningful_text(crate::json::opt_str_view(grant_id)) {
            Some(g) => m1.push(("grant_id"@, str_json(g))),
            None => m1,
        });
    }
    crate::json::push_member(&mut p, "invocation_id", Json::Str(invocation_id.clone()));
    crate::json::push_member(&mut p, "namespace", Json::Str(owned(crate::envelope::NAMESPACE)));
    crate::json::push_member(&mut p, "operation", Json::Str(operation.clone()));
    crate::json::push_member(&mut p, "resource", Json::Str(resource.clone()));
    crate::json::push_member(&mut p, "work_request_id", Json::Str(work_request_id.clone()));
    proof {
        assert(crate::json::members_view(p@) =~= m2 + seq![
            ("invocation_id"@, str_json(invocation_id@)),
            ("namespace"@, str_json(crate::envelope::NAMESPACE@)),
            ("operation"@, str_json(operation@)),
            ("resource"@, str_json(resource@)),
            ("work_request_id"@, str_json(work_request_id@)),
        ]);
    }
    let payload = crate::json::object_of(p);
    proof {
        assert(payload@ =~= invocation_payload(*decision, work_request_id@, declared_model_sha256@, crate::json::opt_str_view(grant_id), invocation_id@));
    }
    let canonical = crate::json::render_exec(&payload, true);
    let mut content = concat3("|", AUTHORIZED_INVOCATION, "|");
    content.append(canonical.as_str());
    let idem = crate::envelope::sha256_hex(content.as_str());
    proof {
        assert(content@ =~= "|"@ + AUTHORIZED_INVOCATION@ + "|"@ + crate::json::render(payload@, true));
    }
    let mut chain: Vec<String> = Vec::new();
    chain.push(crate::text::concat2("domain_model_hash:", declared_model_sha256));
    chain.push(crate::text::concat2("caused_by:", causal_parent.as_str()));
    let mut prov: Vec<(String, Json)> = Vec::new();
    proof {
        assert(crate::json::members_view(prov@) =~= Seq::<(Seq<char>, JsonView)>::empty());
    }
    crate::json::push_member(&mut prov, "chain", crate::json::string_array(&chain));
    crate::json::push_member(&mut prov, "origin", Json::Str(owned("sea-forge")));
    let mut env: Vec<(String, Json)> = Vec::new();
    proof {
        assert(crate::json::members_view(env@) =~= Seq::<(Seq<char>, JsonView)>::empty());
    }
    crate::json::push_member(&mut env, "event_id", Json::Str(event_id.clone()));
    crate::json::push_member(&mut env, "event_type", Json::Str(owned(AUTHORIZED_INVOCATION)));
    crate::json::push_member(&mut env, "idempotency_key", Json::Str(idem));
    crate::json::push_member(&mut env, "occurred_at", Json::Str(occurred_at));
    crate::json::push_member(&mut env, "payload", payload);
    crate::json::push_member(&mut env, "provenance", crate::json::object_of(prov));
    crate::json::push_member(&mut env, "schema_version", Json::Str(owned(crate::envelope::SCHEMA_VERSION)));
    crate::json::push_member(&mut env, "source_agent", Json::Str(owned("sea-forge")));
    proof {
        assert(chain@.map_values(|s: String| JsonView::Str(s@)) =~= seq![
            str_json("domain_model_hash:"@ + declared_model_sha256@),
            str_json("caused_by:"@ + causal_parent@),
        ]);
        assert(crate::json::members_view(prov@) =~= seq![
            ("chain"@, JsonView::Array(seq![
                str_json("domain_model_hash:"@ + declared_model_sha256@),
                str_json("caused_by:"@ + causal_parent@),
            ])),
            ("origin"@, str_json("sea-forge"@)),
        ]);
    }
    proof {
        assert(idem@ == idempotency_key_of(AUTHORIZED_INVOCATION@, payload@));
        assert(crate::json::members_view(env@) =~= seq![
            ("event_id"@, str_json(event_id@)),
            ("event_type"@, str_json(AUTHORIZED_INVOCATION@)),
            ("idempotency_key"@, str_json(idempotency_key_of(AUTHORIZED_INVOCATION@, payload@))),
            ("occurred_at"@, str_json(occurred_at@)),
            ("payload"@, payload@),
            ("provenance"@, JsonView::Object(crate::json::members_view(prov@))),
            ("schema_version"@, str_json(crate::envelope::SCHEMA_VERSION@)),
            ("source_agent"@, str_json("sea-forge"@)),
        ]);
    }
    let envelope = crate::json::object_of(env);
    proof {
        assert(envelope@ =~= invocation_envelope(
            invocation_payload(*decision, work_request_id@, declared_model_sha256@, crate::json::opt_str_view(grant_id), invocation_id@),
            declared_model_sha256@,
            causal_parent@,
            event_id@,
            occurred_at@,
        ));
    }
    AuthorizedInvocation {
        envelope,
        event_id,
        invocation_id,
        work_request_id,
        authority_decision_id: decision.decision_id.clone(),
        operation,
        resource,
    }
}

pub open spec fn invocation_result_view(r: Result<AuthorizedInvocation, BoundaryError>) -> Result<AuthorizedInvocationView, BoundaryErrorView> {
    match r {
        Ok(a) => Ok(a@),
        Err(e) => Err(e@),
    }
}

/// The gates of an emission, in `emission_refusal`'s order; when all pass,
/// the trimmed work request id and governing event id.
fn emission_gate(
    decision: &AuthorityDecision,
    work_request_id: &str,
    declared_model_sha256: &str,
    local_model_sha256: &str,
    governed_work_request_event_id: &str,
) -> (r: Result<(String, String), BoundaryError>)
    ensures
        match emission_refusal(*decision, work_request_id@, declared_model_sha256@, local_model_sha256@, governed_work_request_event_id@) {
            Some(e) => r matches Err(x) && x@ == e,
            None => r matches Ok(p) && p.0@ == trim(work_request_id@) && p.1@ == trim(governed_work_request_event_id@),
        },
{
    if !(decision.verdict_allows && str_eq(decision.disposition.as_str(), "Allow")) {
        return Err(BoundaryError::AuthorityNotGranted { disposition: decision.disposition.clone() });
    }
    let w = match check_identity_string("work_request_id", work_request_id) {
        Ok(w) => w,
        Err(_) => {
            return Err(BoundaryError::OpaqueWorkRequest);
        },
    };
    match verify_model_identity(declared_model_sha256) {
        Err(got) => {
            return Err(BoundaryError::PlaceholderIdentity { got });
        },
        Ok(()) => {},
    }
    let local = trim_exec(local_model_sha256);
    if !str_eq(declared_model_sha256, local.as_str()) {
        return Err(BoundaryError::DomainDrift { declared: owned(declared_model_sha256), local });
    }
    let parent = match check_identity_string(
        "governed_work_request_event_id",
        governed_work_request_event_id,
    ) {
        Ok(p) => p,
        Err(field) => {
            return Err(BoundaryError::PlaceholderField { field });
        },
    };
    Ok((w, parent))
}

/// Emits one canonical AuthorizedInvocation from an authority decision,
/// under the given fresh invocation id, event id and issue time. Refused
/// (and nothing emitted) unless every gate of `emission_refusal` passes.
pub fn emit_authorized_invocation_as(
    decision: &AuthorityDecision,
    work_request_id: &str,
    declared_model_sha256: &str,
    local_model_sha256: &str,
    governed_work_request_event_id: &str,
    grant_id: Option<&str>,
    invocation_id: String,
    event_id: String,
    occurred_at: String,
) -> (r: Result<AuthorizedInvocation, BoundaryError>)
    ensures
        match emission_refusal(*decision, work_request_id@, declared_model_sha256@, local_model_sha256@, governed_work_request_event_id@) {
            Some(e) => invocation_result_view(r) == Err::<AuthorizedInvocationView, BoundaryErrorView>(e),
            None => invocation_result_view(r) == Ok::<AuthorizedInvocationView, BoundaryErrorView>(
                authorized_invocation_of(
                    *decision,
                    work_request_id@,
                    declared_model_sha256@,
                    governed_work_request_event_id@,
                    crate::json::opt_str_view(grant_id),
                    invocation_id@,
                    event_id@,
                    occurred_at@,
                ),
            ),
        },
{
    let (w, parent) = match emission_gate(
        decision,
        work_request_id,
        declared_model_sha256,
        local_model_sha256,
        governed_work_request_event_id,
    ) {
        Ok(p) => p,
        Err(e) => {
            return Err(e);
        },
    };
    Ok(build_invocation(decision, w, declared_model_sha256, parent, grant_id, invocation_id, event_id, occurred_at))
}

/// What an emission reports when the operating system's random source fails.
pub const RANDOM_UNAVAILABLE: &'static str = "the operating system's random source is unavailable";

/// What an emission reports when the clock cannot give the current UTC time.
pub const CLOCK_UNAVAILABLE: &'static str = "the system clock does not give a current UTC time";

/// `n` fresh bytes from the operating system's random source
/// (`getrandom::fill`); none when the source reports an error.
#[verifier::external_body]
fn os_random_bytes(n: usize) -> (r: Option<Vec<u8>>)
    ensures
        r matches Some(v) ==> v@.len() == n,
{
    let mut v = vec![0u8; n];
    match getrandom::fill(&mut v) {
        Ok(()) => Some(v),
        Err(_) => None,
    }
}

#[verifier::external_type_specification]
#[verifier::external_body]
pub struct ExSystemTime(std::time::SystemTime);

/// `SystemTime::now()`: the clock's reading; nothing is claimed of it.
#[verifier::external_body]
fn system_now() -> (r: std::time::SystemTime) {
    std::time::SystemTime::now()
}

/// `t.duration_since(UNIX_EPOCH)`: whole seconds and the nanoseconds past
/// them since 1970; none when `t` is earlier.
#[verifier::external_body]
fn since_epoch(t: &std::time::SystemTime) -> (r: Option<(u64, u32)>)
    ensures
        r matches Some(d) ==> d.1 < 1_000_000_000,
{
    match t.duration_since(std::time::UNIX_EPOCH) {
        Ok(d) => Some((d.as_secs(), d.subsec_nanos())),
        Err(_) => None,
    }
}

/// The UTC instant `secs` seconds and `nanos` nanoseconds after 1970, written
/// by chrono as `%Y-%m-%dT%H:%M:%S+00:00`.
pub uninterp spec fn utc_text_of(secs: i64, nanos: u32) -> Seq<char>;

/// The UTC instant `secs` seconds and `nanos` nanoseconds after 1970, written
/// by chrono in RFC 3339 (`to_rfc3339`).
pub uninterp spec fn utc_rfc3339_of(secs: i64, nanos: u32) -> Seq<char>;

/// `chrono::DateTime::from_timestamp(secs, nanos)` written as
/// `%Y-%m-%dT%H:%M:%S+00:00`; chrono gives none only outside its calendar
/// (years beyond ±262142) or for an invalid nanosecond. The text is a
/// function of the instant alone.
#[verifier::external_body]
fn utc_text_at(secs: i64, nanos: u32) -> (r: Option<String>)
    ensures
        0 <= secs <= 8_000_000_000_000 && nanos < 1_000_000_000 ==> r is Some,
        r matches Some(t) ==> t@ == utc_text_of(secs, nanos),
{
    chrono::DateTime::from_timestamp(secs, nanos).map(|t| t.format("%Y-%m-%dT%H:%M:%S+00:00").to_string())
}

/// `chrono::DateTime::from_timestamp(secs, nanos)` in RFC 3339
/// (`to_rfc3339`); chrono gives none only outside its calendar (years beyond
/// ±262142) or for an invalid nanosecond. The text is a function of the
/// instant alone.
#[verifier::external_body]
fn utc_rfc3339_at(secs: i64, nanos: u32) -> (r: Option<String>)
    ensures
        0 <= secs <= 8_000_000_000_000 && nanos < 1_000_000_000 ==> r is Some,
        r matches Some(t) ==> t@ == utc_rfc3339_of(secs, nanos),
{
    chrono::DateTime::from_timestamp(secs, nanos).map(|t| t.to_rfc3339())
}

/// The clock's reading, when it reads after 1970 and before the year 250000.
fn clock_seconds() -> (r: Option<(i64, u32)>)
    ensures
        r matches Some(t) ==> 0 <= t.0 <= 8_000_000_000_000 && t.1 < 1_000_000_000,
{
    let now = system_now();
    match since_epoch(&now) {
        Some((secs, nanos)) => if secs <= 8_000_000_000_000 {
            Some((secs as i64, nanos))
        } else {
            None
        },
        None => None,
    }
}

/// `t` is the text of a UTC instant the clock can read (after 1970, before
/// the year 250000), as `%Y-%m-%dT%H:%M:%S+00:00`.
pub open spec fn clock_text(t: Seq<char>) -> bool {
    exists|secs: i64, nanos: u32| 0 <= secs <= 8_000_000_000_000 && nanos < 1_000_000_000 && t == #[trigger] utc_text_of(secs, nanos)
}

/// `t` is the RFC 3339 text of a UTC instant the clock can read.
pub open spec fn clock_rfc3339(t: Seq<char>) -> bool {
    exists|secs: i64, nanos: u32| 0 <= secs <= 8_000_000_000_000 && nanos < 1_000_000_000 && t == #[trigger] utc_rfc3339_of(secs, nanos)
}

/// The current UTC time as `%Y-%m-%dT%H:%M:%S+00:00`; none when the clock
/// does not give one. Which instant it read is the clock's.
pub(crate) fn utc_now() -> (r: Option<String>)
    ensures
        r matches Some(t) ==> clock_text(t@),
{
    match clock_seconds() {
        Some((secs, nanos)) => utc_text_at(secs, nanos),
        None => None,
    }
}

/// The current UTC time in RFC 3339; none when the clock does not give one.
/// Which instant it read is the clock's.
pub(crate) fn utc_rfc3339() -> (r: Option<String>)
    ensures
        r matches Some(t) ==> clock_rfc3339(t@),
{
    match clock_seconds() {
        Some((secs, nanos)) => utc_rfc3339_at(secs, nanos),
        None => None,
    }
}

pub open spec fn hex_digit(d: int) -> char {
    if d < 10 {
        (48 + d) as char
    } else {
        (87 + d) as char
    }
}

/// `{:02x}` of a byte.
pub open spec fn byte_hex(b: u8) -> Seq<char> {
    seq![hex_digit(b as int / 16), hex_digit(b as int % 16)]
}

pub open spec fn bytes_hex(s: Seq<u8>) -> Seq<char>
    decreases s.len(),
{
    if s.len() == 0 {
        Seq::empty()
    } else {
        bytes_hex(s.drop_last()) + byte_hex(s.last())
    }
}

/// A fresh invocation id: `inv_` and the hex of eight random bytes.
pub open spec fn invocation_id_text(b: Seq<u8>) -> Seq<char> {
    "inv_"@ + bytes_hex(b)
}

/// The bytes of a UUID v4 made of `b`: version and variant bits set.
pub open spec fn uuid_v4_bytes(b: Seq<u8>) -> Seq<u8> {
    b.update(6, ((b[6] as int % 16) + 64) as u8).update(8, ((b[8] as int % 64) + 128) as u8)
}

/// A UUID v4 in its hyphenated lower-case form.
pub open spec fn uuid_v4_text(b: Seq<u8>) -> Seq<char> {
    let h = bytes_hex(uuid_v4_bytes(b));
    h.subrange(0, 8) + seq!['-'] + h.subrange(8, 12) + seq!['-'] + h.subrange(12, 16) + seq!['-']
        + h.subrange(16, 20) + seq!['-'] + h.subrange(20, 32)
}

fn hex_digit_exec(d: u8) -> (c: char)
    requires
        d < 16,
    ensures
        c == hex_digit(d as int),
{
    if d < 10 {
        let b: u8 = 48 + d;
        b as char
    } else {
        let b: u8 = 87 + d;
        b as char
    }
}

proof fn lemma_bytes_hex_len(s: Seq<u8>)
    ensures
        bytes_hex(s).len() == 2 * s.len(),
    decreases s.len(),
{
    if s.len() > 0 {
        lemma_bytes_hex_len(s.drop_last());
    }
}

fn hex_of(bytes: &Vec<u8>) -> (r: String)
    ensures
        r@ == bytes_hex(bytes@),
{
    let mut out = String::new();
    let mut i: usize = 0;
    while i < bytes.len()
        invariant
            i <= bytes@.len(),
            out@ == bytes_hex(bytes@.subrange(0, i as int)),
        decreases bytes@.len() - i,
    {
        let b = bytes[i];
        crate::text::push_char(&mut out, hex_digit_exec(b / 16));
        crate::text::push_char(&mut out, hex_digit_exec(b % 16));
        proof {
            assert(bytes@.subrange(0, i + 1).drop_last() =~= bytes@.subrange(0, i as int));
            assert(out@ =~= bytes_hex(bytes@.subrange(0, i + 1)));
        }
        i += 1;
    }
    proof {
        assert(bytes@.subrange(0, bytes@.len() as int) =~= bytes@);
    }
    out
}

/// The invocation id made of eight bytes.
pub fn invocation_id_from(bytes: &Vec<u8>) -> (r: String)
    ensures
        r@ == invocation_id_text(bytes@),
{
    let h = hex_of(bytes);
    crate::text::concat2("inv_", h.as_str())
}

/// The UUID v4 text made of sixteen bytes.
pub fn uuid_v4_from(bytes: &Vec<u8>) -> (r: String)
    requires
        bytes@.len() == 16,
    ensures
        r@ == uuid_v4_text(bytes@),
{
    let mut b = bytes.clone();
    assert(b@ == bytes@);
    let b6 = b[6];
    let b8 = b[8];
    let v6: u8 = (b6 & 0x0f) | 0x40;
    let v8: u8 = (b8 & 0x3f) | 0x80;
    assert(v6 == ((b6 as int % 16) + 64) as u8) by (bit_vector)
        requires
            v6 == (b6 & 0x0f) | 0x40,
    ;
    assert(v8 == ((b8 as int % 64) + 128) as u8) by (bit_vector)
        requires
            v8 == (b8 & 0x3f) | 0x80,
    ;
    b.set(6, v6);
    b.set(8, v8);
    assert(b@ =~= uuid_v4_bytes(bytes@));
    let h = hex_of(&b);
    proof {
        lemma_bytes_hex_len(b@);
    }
    let hs = h.as_str();
    let mut out = crate::text::owned(hs.substring_char(0, 8));
    crate::text::push_char(&mut out, '-');
    out.append(hs.substring_char(8, 12));
    crate::text::push_char(&mut out, '-');
    out.append(hs.substring_char(12, 16));
    crate::text::push_char(&mut out, '-');
    out.append(hs.substring_char(16, 20));
    crate::text::push_char(&mut out, '-');
    out.append(hs.substring_char(20, 32));
    proof {
        assert(out@ =~= uuid_v4_text(bytes@));
    }
    out
}

/// Fresh invocation id from OS randomness; none when the source fails.
fn fresh_invocation_id() -> (r: Option<String>)
    ensures
        r matches Some(x) ==> exists|b: Seq<u8>| b.len() == 8 && x@ == invocation_id_text(b),
{
    match os_random_bytes(8) {
        Some(bytes) => Some(invocation_id_from(&bytes)),
        None => None,
    }
}

/// Fresh UUID-v4-shaped event id from OS randomness; none when the source
/// fails.
pub fn new_event_id() -> (r: Option<String>)
    ensures
        r matches Some(x) ==> exists|b: Seq<u8>| b.len() == 16 && x@ == uuid_v4_text(b),
{
    match os_random_bytes(16) {
        Some(bytes) => Some(uuid_v4_from(&bytes)),
        None => None,
    }
}

/// Emits one canonical AuthorizedInvocation from an authority decision. It
/// is refused, and nothing exists, unless every gate of `emission_refusal`
/// passes; otherwise it is the invocation of `authorized_invocation_of`
/// under a fresh random invocation id and event id and the current time, or
/// `SystemUnavailable` when the random source or the clock fails.
pub fn emit_authorized_invocation(
    decision: &AuthorityDecision,
    work_request_id: &str,
    declared_model_sha256: &str,
    local_model_sha256: &str,
    governed_work_request_event_id: &str,
    grant_id: Option<&str>,
) -> (r: Result<AuthorizedInvocation, BoundaryError>)
    ensures
        match emission_refusal(*decision, work_request_id@, declared_model_sha256@, local_model_sha256@, governed_work_request_event_id@) {
            Some(e) => invocation_result_view(r) == Err::<AuthorizedInvocationView, BoundaryErrorView>(e),
            None => match r {
                Ok(a) => (exists|t: Seq<char>| clock_text(t) && a@ == authorized_invocation_of(
                    *decision,
                    work_request_id@,
                    declared_model_sha256@,
                    governed_work_request_event_id@,
                    crate::json::opt_str_view(grant_id),
                    a.invocation_id@,
                    a.event_id@,
                    t,
                )) && (exists|b: Seq<u8>| b.len() == 8 && a.invocation_id@ == invocation_id_text(b)) && (exists|b: Seq<u8>| b.len() == 16 && a.event_id@ == uuid_v4_text(b)),
                Err(e) => e@ == BoundaryErrorView::SystemUnavailable(RANDOM_UNAVAILABLE@)
                    || e@ == BoundaryErrorView::SystemUnavailable(CLOCK_UNAVAILABLE@),
            },
        },
{
    let (w, parent) = match emission_gate(
        decision,
        work_request_id,
        declared_model_sha256,
        local_model_sha256,
        governed_work_request_event_id,
    ) {
        Ok(p) => p,
        Err(e) => {
            return Err(e);
        },
    };
    let invocation_id = match fresh_invocation_id() {
        Some(x) => x,
        None => {
            return Err(BoundaryError::SystemUnavailable(owned(RANDOM_UNAVAILABLE)));
        },
    };
    let event_id = match new_event_id() {
        Some(x) => x,
        None => {
            return Err(BoundaryError::SystemUnavailable(owned(RANDOM_UNAVAILABLE)));
        },
    };
    let occurred_at = match utc_now() {
        Some(x) => x,
        None => {
            return Err(BoundaryError::SystemUnavailable(owned(CLOCK_UNAVAILABLE)));
        },
    };
    let ghost t = occurred_at@;
    let a = build_invocation(decision, w, declared_model_sha256, parent, grant_id, invocation_id, event_id, occurred_at);
    proof {
        assert(a@ == authorized_invocation_of(
            *decision,
            work_request_id@,
            declared_model_sha256@,
            governed_work_request_event_id@,
            crate::json::opt_str_view(grant_id),
            a.invocation_id@,
            a.event_id@,
            t,
        ));
    }
    Ok(a)
}

// ---------------------------------------------------------------------------
// The invocation ledger
// ---------------------------------------------------------------------------

/// The slot key of `(work_request_id, operation, resource)`: the three joined
/// by the unit separator.
pub open spec fn slot_key_text(w: Seq<char>, o: Seq<char>, r: Seq<char>) -> Seq<char> {
    w + seq!['\u{1f}'] + o + seq!['\u{1f}'] + r
}

pub fn slot_key(work_request_id: &str, operation: &str, resource: &str) -> (r: String)
    ensures
        r@ == slot_key_text(work_request_id@, operation@, resource@),
{
    let mut s = concat3(work_request_id, "\u{1f}", operation);
    s.append("\u{1f}");
    s.append(resource);
    proof {
        reveal_strlit("\u{1f}");
        assert(s@ =~= slot_key_text(work_request_id@, operation@, resource@));
    }
    s
}

/// One admitted invocation of a slot.
pub struct IssuedView {
    pub event_id: Seq<char>,
    pub invocation_id: Seq<char>,
    pub work_request_id: Seq<char>,
    pub authority_decision_id: Seq<char>,
    pub operation: Seq<char>,
    pub resource: Seq<char>,
}

/// A slot and its admitted invocations, oldest first; the invocation at index
/// `i` is generation `i + 1`, and the slot's current generation is the count.
pub struct SlotView {
    pub key: Seq<char>,
    pub invocations: Seq<IssuedView>,
}

/// The ledger's state: slots in order of first admission, the slot each
/// invocation id was last admitted under, and the settled observation
/// identities.
pub struct LedgerView {
    pub slots: Seq<SlotView>,
    pub bindings: Seq<(Seq<char>, Seq<char>)>,
    pub settled_event_ids: Seq<Seq<char>>,
    pub settled_idempotency_keys: Seq<Seq<char>>,
}

/// Index of the first slot keyed `k`.
pub open spec fn find_slot(s: Seq<SlotView>, k: Seq<char>) -> Option<int>
    decreases s.len(),
{
    if s.len() == 0 {
        None
    } else {
        match find_slot(s.drop_last(), k) {
            Some(i) => Some(i),
            None => if s.last().key == k {
                Some(s.len() - 1)
            } else {
                None
            },
        }
    }
}

/// Index of the first invocation carrying id `id`.
pub open spec fn find_issued(s: Seq<IssuedView>, id: Seq<char>) -> Option<int>
    decreases s.len(),
{
    if s.len() == 0 {
        None
    } else {
        match find_issued(s.drop_last(), id) {
            Some(i) => Some(i),
            None => if s.last().invocation_id == id {
                Some(s.len() - 1)
            } else {
                None
            },
        }
    }
}

/// Index of the binding of invocation id `id`.
pub open spec fn find_binding(s: Seq<(Seq<char>, Seq<char>)>, id: Seq<char>) -> Option<int>
    decreases s.len(),
{
    if s.len() == 0 {
        None
    } else {
        match find_binding(s.drop_last(), id) {
            Some(i) => Some(i),
            None => if s.last().0 == id {
                Some(s.len() - 1)
            } else {
                None
            },
        }
    }
}

pub(crate) proof fn lemma_find_slot(s: Seq<SlotView>, k: Seq<char>)
    ensures
        find_slot(s, k) matches Some(i) ==> 0 <= i < s.len() && s[i].key == k && forall|j: int|
            0 <= j < i ==> (#[trigger] s[j]).key != k,
        find_slot(s, k) is None ==> forall|j: int| 0 <= j < s.len() ==> (#[trigger] s[j]).key != k,
    decreases s.len(),
{
    if s.len() > 0 {
        lemma_find_slot(s.drop_last(), k);
        assert forall|j: int| 0 <= j < s.len() - 1 implies s.drop_last()[j] == #[trigger] s[j] by {}
    }
}

proof fn lemma_find_slot_char(s: Seq<SlotView>, k: Seq<char>, i: int)
    requires
        0 <= i < s.len(),
        s[i].key == k,
        forall|j: int| 0 <= j < i ==> (#[trigger] s[j]).key != k,
    ensures
        find_slot(s, k) == Some(i),
{
    lemma_find_slot(s, k);
}

proof fn lemma_find_slot_none(s: Seq<SlotView>, k: Seq<char>)
    requires
        forall|j: int| 0 <= j < s.len() ==> (#[trigger] s[j]).key != k,
    ensures
        find_slot(s, k) is None,
{
    lemma_find_slot(s, k);
}

pub(crate) proof fn lemma_find_issued(s: Seq<IssuedView>, id: Seq<char>)
    ensures
        find_issued(s, id) matches Some(i) ==> 0 <= i < s.len() && s[i].invocation_id == id
            && forall|j: int| 0 <= j < i ==> (#[trigger] s[j]).invocation_id != id,
        find_issued(s, id) is None ==> forall|j: int|
            0 <= j < s.len() ==> (#[trigger] s[j]).invocation_id != id,
    decreases s.len(),
{
    if s.len() > 0 {
        lemma_find_issued(s.drop_last(), id);
        assert forall|j: int| 0 <= j < s.len() - 1 implies s.drop_last()[j] == #[trigger] s[j] by {}
    }
}

proof fn lemma_find_issued_char(s: Seq<IssuedView>, id: Seq<char>)
    ensures
        forall|i: int|
            0 <= i < s.len() && s[i].invocation_id == id && (forall|j: int|
                0 <= j < i ==> (#[trigger] s[j]).invocation_id != id) ==> find_issued(s, id) == Some(i),
        (forall|j: int| 0 <= j < s.len() ==> (#[trigger] s[j]).invocation_id != id) ==> find_issued(s, id) is None,
{
    lemma_find_issued(s, id);
}

proof fn lemma_find_binding(s: Seq<(Seq<char>, Seq<char>)>, id: Seq<char>)
    ensures
        find_binding(s, id) matches Some(i) ==> 0 <= i < s.len() && s[i].0 == id && forall|j: int|
            0 <= j < i ==> (#[trigger] s[j]).0 != id,
        find_binding(s, id) is None ==> forall|j: int| 0 <= j < s.len() ==> (#[trigger] s[j]).0 != id,
    decreases s.len(),
{
    if s.len() > 0 {
        lemma_find_binding(s.drop_last(), id);
        assert forall|j: int| 0 <= j < s.len() - 1 implies s.drop_last()[j] == #[trigger] s[j] by {}
    }
}

proof fn lemma_find_binding_char(s: Seq<(Seq<char>, Seq<char>)>, id: Seq<char>)
    ensures
        forall|i: int|
            0 <= i < s.len() && s[i].0 == id && (forall|j: int| 0 <= j < i ==> (#[trigger] s[j]).0 != id)
                ==> find_binding(s, id) == Some(i),
        (forall|j: int| 0 <= j < s.len() ==> (#[trigger] s[j]).0 != id) ==> find_binding(s, id) is None,
{
    lemma_find_binding(s, id);
}

/// Binding `b` names a slot that holds an invocation with the bound id.
pub open spec fn binding_resolves(l: LedgerView, b: int) -> bool {
    match find_slot(l.slots, l.bindings[b].1) {
        Some(si) => find_issued(l.slots[si].invocations, l.bindings[b].0) is Some,
        None => false,
    }
}

/// The ledger's invariant: every binding resolves.
pub open spec fn ledger_wf(l: LedgerView) -> bool {
    forall|b: int| 0 <= b < l.bindings.len() ==> #[trigger] binding_resolves(l, b)
}

/// The current generation of the slot of `(w, o, r)`, when it has one.
pub open spec fn current_generation_of(l: LedgerView, w: Seq<char>, o: Seq<char>, r: Seq<char>) -> Option<nat> {
    match find_slot(l.slots, slot_key_text(w, o, r)) {
        Some(si) => Some(l.slots[si].invocations.len()),
        None => None,
    }
}

struct IssuedInvocation {
    event_id: String,
    invocation_id: String,
    work_request_id: String,
    authority_decision_id: String,
    operation: String,
    resource: String,
}

impl View for IssuedInvocation {
    type V = IssuedView;

    closed spec fn view(&self) -> IssuedView {
        IssuedView {
            event_id: self.event_id@,
            invocation_id: self.invocation_id@,
            work_request_id: self.work_request_id@,
            authority_decision_id: self.authority_decision_id@,
            operation: self.operation@,
            resource: self.resource@,
        }
    }
}

struct SlotState {
    key: String,
    invocations: Vec<IssuedInvocation>,
}

impl View for SlotState {
    type V = SlotView;

    closed spec fn view(&self) -> SlotView {
        SlotView { key: self.key@, invocations: self.invocations@.map_values(|i: IssuedInvocation| i@) }
    }
}

/// Registry of the AuthorizedInvocations admitted here, keyed by invocation
/// slot `(work_request_id, operation, resource)`. Re-authorizing a slot opens
/// its next generation and supersedes the earlier ones.
pub struct InvocationLedger {
    slots: Vec<SlotState>,
    by_invocation_id: Vec<(String, String)>,
    settled_event_ids: Vec<String>,
    settled_idempotency_keys: Vec<String>,
}

impl View for InvocationLedger {
    type V = LedgerView;

    closed spec fn view(&self) -> LedgerView {
        LedgerView {
            slots: self.slots@.map_values(|s: SlotState| s@),
            bindings: self.by_invocation_id@.map_values(|p: (String, String)| (p.0@, p.1@)),
            settled_event_ids: strings_view(self.settled_event_ids@),
            settled_idempotency_keys: strings_view(self.settled_idempotency_keys@),
        }
    }
}

impl InvocationLedger {
    pub open spec fn wf(&self) -> bool {
        ledger_wf(self@)
    }

    /// An empty ledger.
    pub fn new() -> (r: InvocationLedger)
        ensures
            r.wf(),
            r@.slots.len() == 0,
            r@.bindings.len() == 0,
            r@.settled_event_ids.len() == 0,
            r@.settled_idempotency_keys.len() == 0,
    {
        let r = InvocationLedger {
            slots: Vec::new(),
            by_invocation_id: Vec::new(),
            settled_event_ids: Vec::new(),
            settled_idempotency_keys: Vec::new(),
        };
        proof {
            assert(r@.bindings.len() == 0);
        }
        r
    }

    fn find_slot_exec(&self, key: &str) -> (r: Option<usize>)
        ensures
            r matches Some(i) ==> i < self.slots@.len(),
            match r {
                Some(i) => find_slot(self@.slots, key@) == Some(i as int),
                None => find_slot(self@.slots, key@) is None,
            },
    {
        let ghost sv = self@.slots;
        let mut i: usize = 0;
        while i < self.slots.len()
            invariant
                sv == self@.slots,
                sv.len() == self.slots@.len(),
                forall|j: int| 0 <= j < sv.len() ==> #[trigger] sv[j] == self.slots@[j]@,
                i <= self.slots@.len(),
                forall|j: int| 0 <= j < i ==> (#[trigger] sv[j]).key != key@,
            decreases self.slots@.len() - i,
        {
            if str_eq(self.slots[i].key.as_str(), key) {
                proof {
                    lemma_find_slot_char(sv, key@, i as int);
                }
                return Some(i);
            }
            i += 1;
        }
        proof {
            lemma_find_slot_none(sv, key@);
        }
        None
    }

    fn find_binding_exec(&self, id: &str) -> (r: Option<usize>)
        ensures
            r matches Some(i) ==> i < self.by_invocation_id@.len(),
            match r {
                Some(i) => find_binding(self@.bindings, id@) == Some(i as int),
                None => find_binding(self@.bindings, id@) is None,
            },
    {
        let ghost bv = self@.bindings;
        proof {
            lemma_find_binding_char(bv, id@);
        }
        let mut i: usize = 0;
        while i < self.by_invocation_id.len()
            invariant
                bv == self@.bindings,
                bv.len() == self.by_invocation_id@.len(),
                forall|j: int| 0 <= j < bv.len() ==> #[trigger] bv[j] == (self.by_invocation_id@[j].0@, self.by_invocation_id@[j].1@),
                i <= self.by_invocation_id@.len(),
                forall|j: int| 0 <= j < i ==> (#[trigger] bv[j]).0 != id@,
                forall|k: int|
                    0 <= k < bv.len() && bv[k].0 == id@ && (forall|j: int| 0 <= j < k ==> (#[trigger] bv[j]).0 != id@)
                        ==> find_binding(bv, id@) == Some(k),
                (forall|j: int| 0 <= j < bv.len() ==> (#[trigger] bv[j]).0 != id@) ==> find_binding(bv, id@) is None,
            decreases self.by_invocation_id@.len() - i,
        {
            if str_eq(self.by_invocation_id[i].0.as_str(), id) {
                proof {
                    assert(bv[i as int].0 == id@);
                    lemma_find_binding(bv, id@);
                }
                return Some(i);
            }
            i += 1;
        }
        None
    }
}

fn find_issued_exec(invs: &Vec<IssuedInvocation>, id: &str) -> (r: Option<usize>)
    ensures
        r matches Some(i) ==> i < invs@.len(),
        match r {
            Some(i) => find_issued(invs@.map_values(|x: IssuedInvocation| x@), id@) == Some(i as int),
            None => find_issued(invs@.map_values(|x: IssuedInvocation| x@), id@) is None,
        },
{
    let ghost iv = invs@.map_values(|x: IssuedInvocation| x@);
    proof {
        lemma_find_issued_char(iv, id@);
    }
    let mut i: usize = 0;
    while i < invs.len()
        invariant
            iv == invs@.map_values(|x: IssuedInvocation| x@),
            i <= invs@.len(),
            forall|j: int| 0 <= j < i ==> (#[trigger] iv[j]).invocation_id != id@,
            forall|k: int|
                0 <= k < iv.len() && iv[k].invocation_id == id@ && (forall|j: int|
                    0 <= j < k ==> (#[trigger] iv[j]).invocation_id != id@) ==> find_issued(iv, id@) == Some(k),
            (forall|j: int| 0 <= j < iv.len() ==> (#[trigger] iv[j]).invocation_id != id@) ==> find_issued(iv, id@) is None,
        decreases invs@.len() - i,
    {
        if str_eq(invs[i].invocation_id.as_str(), id) {
            proof {
                assert(iv[i as int].invocation_id == id@);
                lemma_find_issued(iv, id@);
            }
            return Some(i);
        }
        i += 1;
    }
    None
}


// ---------------------------------------------------------------------------
// Admission of AuthorizedInvocation envelopes
// ---------------------------------------------------------------------------

/// A trimmed, non-empty string member of a payload.
pub open spec fn payload_text(p: JsonView, key: Seq<char>) -> Option<Seq<char>> {
    meaningful_text(jstr(jget(p, key)))
}

/// The frozen payload fields an admission requires, in the order they are
/// reported when absent.
pub open spec fn admit_missing(p: JsonView) -> Seq<Seq<char>> {
    let m1 = if payload_text(p, "work_request_id"@) is None {
        seq!["work_request_id"@]
    } else {
        Seq::empty()
    };
    let m2 = if payload_text(p, "invocation_id"@) is None {
        m1.push("invocation_id"@)
    } else {
        m1
    };
    let m3 = if payload_text(p, "authority_decision_id"@) is None {
        m2.push("authority_decision_id"@)
    } else {
        m2
    };
    let m4 = if payload_text(p, "operation"@) is None {
        m3.push("operation"@)
    } else {
        m3
    };
    let m5 = if payload_text(p, "resource"@) is None {
        m4.push("resource"@)
    } else {
        m4
    };
    if jget(p, "execution_constraints"@) matches Some(JsonView::Object(_)) {
        m5
    } else {
        m5.push("execution_constraints"@)
    }
}

/// What an admission records of an envelope.
pub struct AdmissionView {
    pub work_request_id: Seq<char>,
    pub invocation_id: Seq<char>,
    pub authority_decision_id: Seq<char>,
    pub operation: Seq<char>,
    pub resource: Seq<char>,
    pub event_id: Seq<char>,
}

/// The gates an AuthorizedInvocation envelope must pass, in order, and what
/// it records when it passes them.
pub open spec fn admission_of(env: JsonView, local: Seq<char>) -> Result<AdmissionView, BoundaryErrorView> {
    if !is_object(env) {
        Err(BoundaryErrorView::MalformedEnvelope("envelope must be an object"@))
    } else if envelope_producer_fault(env, AUTHORIZED_INVOCATION@, "sea_forge"@) is Some {
        Err(envelope_producer_fault(env, AUTHORIZED_INVOCATION@, "sea_forge"@)->0)
    } else if model_binding_fault(env, local) is Some {
        Err(model_binding_fault(env, local)->0)
    } else if !(jget(env, "payload"@) matches Some(JsonView::Object(_))) {
        Err(BoundaryErrorView::MalformedEnvelope("payload must be an object"@))
    } else {
        let p = jget(env, "payload"@)->0;
        if admit_missing(p).len() > 0 {
            Err(BoundaryErrorView::OpaquePayload { missing: admit_missing(p) })
        } else {
            let w = payload_text(p, "work_request_id"@)->0;
            let inv = payload_text(p, "invocation_id"@)->0;
            let a = payload_text(p, "authority_decision_id"@)->0;
            if identity_check("work_request_id"@, w) is Err {
                Err(BoundaryErrorView::PlaceholderField { field: "work_request_id"@ })
            } else if identity_check("invocation_id"@, inv) is Err {
                Err(BoundaryErrorView::PlaceholderField { field: "invocation_id"@ })
            } else if identity_check("authority_decision_id"@, a) is Err {
                Err(BoundaryErrorView::PlaceholderField { field: "authority_decision_id"@ })
            } else if causal_parents_of(env).len() == 0 {
                Err(
                    BoundaryErrorView::CausalityMissing {
                        expected_parent: "<any causal parent>"@,
                        recorded: Seq::empty(),
                    },
                )
            } else {
                Ok(
                    AdmissionView {
                        work_request_id: w,
                        invocation_id: inv,
                        authority_decision_id: a,
                        operation: payload_text(p, "operation"@)->0,
                        resource: payload_text(p, "resource"@)->0,
                        event_id: match jstr(jget(env, "event_id"@)) {
                            Some(e) => e,
                            None => Seq::empty(),
                        },
                    },
                )
            }
        }
    }
}

/// The invocation bound to `id`: its slot index and its index in the slot.
pub open spec fn bound_invocation(l: LedgerView, id: Seq<char>) -> Option<(int, int)> {
    match find_binding(l.bindings, id) {
        Some(b) => match find_slot(l.slots, l.bindings[b].1) {
            Some(si) => match find_issued(l.slots[si].invocations, id) {
                Some(ii) => Some((si, ii)),
                None => None,
            },
            None => None,
        },
        None => None,
    }
}

/// The generation of an already-admitted envelope with the same invocation id
/// and event id, which re-admission returns unchanged.
pub open spec fn readmitted_generation(l: LedgerView, id: Seq<char>, event_id: Seq<char>) -> Option<nat> {
    match bound_invocation(l, id) {
        Some((si, ii)) => if l.slots[si].invocations[ii].event_id == event_id {
            Some((ii + 1) as nat)
        } else {
            None
        },
        None => None,
    }
}

pub open spec fn issued_of(f: AdmissionView) -> IssuedView {
    IssuedView {
        event_id: f.event_id,
        invocation_id: f.invocation_id,
        work_request_id: f.work_request_id,
        authority_decision_id: f.authority_decision_id,
        operation: f.operation,
        resource: f.resource,
    }
}

/// A new admission: the slot's next generation, and the invocation id bound
/// to that slot.
pub open spec fn admit_new(l: LedgerView, f: AdmissionView) -> (nat, LedgerView) {
    let key = slot_key_text(f.work_request_id, f.operation, f.resource);
    let issued = issued_of(f);
    let bindings = match find_binding(l.bindings, f.invocation_id) {
        Some(b) => l.bindings.update(b, (f.invocation_id, key)),
        None => l.bindings.push((f.invocation_id, key)),
    };
    match find_slot(l.slots, key) {
        Some(si) => (
            (l.slots[si].invocations.len() + 1) as nat,
            LedgerView {
                slots: l.slots.update(
                    si,
                    SlotView { key: l.slots[si].key, invocations: l.slots[si].invocations.push(issued) },
                ),
                bindings,
                ..l
            },
        ),
        None => (
            1,
            LedgerView {
                slots: l.slots.push(SlotView { key, invocations: seq![issued] }),
                bindings,
                ..l
            },
        ),
    }
}

/// What admitting `env` returns, and the ledger it leaves.
pub open spec fn admit_outcome(l: LedgerView, env: JsonView, local: Seq<char>) -> (Result<nat, BoundaryErrorView>, LedgerView) {
    match admission_of(env, local) {
        Err(e) => (Err(e), l),
        Ok(f) => match readmitted_generation(l, f.invocation_id, f.event_id) {
            Some(g) => (Ok(g), l),
            None => {
                let (g, l2) = admit_new(l, f);
                (Ok(g), l2)
            },
        },
    }
}

pub open spec fn generation_result_view(r: Result<u64, BoundaryError>) -> Result<nat, BoundaryErrorView> {
    match r {
        Ok(g) => Ok(g as nat),
        Err(e) => Err(e@),
    }
}

struct Admission {
    work_request_id: String,
    invocation_id: String,
    authority_decision_id: String,
    operation: String,
    resource: String,
    event_id: String,
}

impl View for Admission {
    type V = AdmissionView;

    closed spec fn view(&self) -> AdmissionView {
        AdmissionView {
            work_request_id: self.work_request_id@,
            invocation_id: self.invocation_id@,
            authority_decision_id: self.authority_decision_id@,
            operation: self.operation@,
            resource: self.resource@,
            event_id: self.event_id@,
        }
    }
}

fn parse_admission(envelope: &Json, local_model_sha256: &str) -> (r: Result<Admission, BoundaryError>)
    ensures
        match r {
            Ok(a) => admission_of(envelope@, local_model_sha256@) == Ok::<AdmissionView, BoundaryErrorView>(a@),
            Err(e) => admission_of(envelope@, local_model_sha256@) == Err::<AdmissionView, BoundaryErrorView>(e@),
        },
{
    if !is_object_exec(envelope) {
        return Err(BoundaryError::MalformedEnvelope(owned("envelope must be an object")));
    }
    match check_envelope_producer(envelope, AUTHORIZED_INVOCATION, "sea_forge") {
        Err(e) => {
            return Err(e);
        },
        Ok(()) => {},
    }
    match check_payload_model_binding(envelope, local_model_sha256) {
        Err(e) => {
            return Err(e);
        },
        Ok(()) => {},
    }
    let payload = match get(envelope, "payload") {
        Some(p) => p,
        None => {
            return Err(BoundaryError::MalformedEnvelope(owned("payload must be an object")));
        },
    };
    if !is_object_exec(payload) {
        return Err(BoundaryError::MalformedEnvelope(owned("payload must be an object")));
    }
    let ghost p = payload@;
    let mut missing: Vec<&'static str> = Vec::new();
    let w = meaningful(get_str(payload, "work_request_id"));
    if w.is_none() {
        missing.push("work_request_id");
    }
    let inv = meaningful(get_str(payload, "invocation_id"));
    if inv.is_none() {
        missing.push("invocation_id");
    }
    let a = meaningful(get_str(payload, "authority_decision_id"));
    if a.is_none() {
        missing.push("authority_decision_id");
    }
    let o = meaningful(get_str(payload, "operation"));
    if o.is_none() {
        missing.push("operation");
    }
    let res = meaningful(get_str(payload, "resource"));
    if res.is_none() {
        missing.push("resource");
    }
    let constraints_ok = match get(payload, "execution_constraints") {
        Some(c) => is_object_exec(c),
        None => false,
    };
    if !constraints_ok {
        missing.push("execution_constraints");
    }
    proof {
        assert(static_strs_view(missing@) =~= admit_missing(p));
    }
    if missing.len() > 0 {
        return Err(BoundaryError::OpaquePayload { missing });
    }
    let w = w.unwrap();
    let inv = inv.unwrap();
    let a = a.unwrap();
    let o = o.unwrap();
    let res = res.unwrap();
    if check_identity_string("work_request_id", w.as_str()).is_err() {
        return Err(BoundaryError::PlaceholderField { field: owned("work_request_id") });
    }
    if check_identity_string("invocation_id", inv.as_str()).is_err() {
        return Err(BoundaryError::PlaceholderField { field: owned("invocation_id") });
    }
    if check_identity_string("authority_decision_id", a.as_str()).is_err() {
        return Err(BoundaryError::PlaceholderField { field: owned("authority_decision_id") });
    }
    let parents = causal_parents(envelope);
    if parents.len() == 0 {
        let recorded: Vec<String> = Vec::new();
        proof {
            assert(strings_view(parents@).len() == 0);
            assert(strings_view(recorded@) =~= Seq::<Seq<char>>::empty());
        }
        return Err(
            BoundaryError::CausalityMissing { expected_parent: owned("<any causal parent>"), recorded },
        );
    }
    let event_id = match get_str(envelope, "event_id") {
        Some(e) => owned(e),
        None => String::new(),
    };
    Ok(
        Admission {
            work_request_id: w,
            invocation_id: inv,
            authority_decision_id: a,
            operation: o,
            resource: res,
            event_id,
        },
    )
}


proof fn lemma_find_slot_update(s: Seq<SlotView>, i: int, x: SlotView, k: Seq<char>)
    requires
        0 <= i < s.len(),
        x.key == s[i].key,
    ensures
        find_slot(s.update(i, x), k) == find_slot(s, k),
{
    let t = s.update(i, x);
    lemma_find_slot(s, k);
    lemma_find_slot(t, k);
    match find_slot(s, k) {
        Some(j) => {
            assert(t[j].key == k);
            assert forall|m: int| 0 <= m < j implies (#[trigger] t[m]).key != k by {
                assert(t[m].key == s[m].key);
            }
            lemma_find_slot_char(t, k, j);
        },
        None => {
            assert forall|m: int| 0 <= m < t.len() implies (#[trigger] t[m]).key != k by {
                assert(t[m].key == s[m].key);
            }
            lemma_find_slot_none(t, k);
        },
    }
}

proof fn lemma_find_slot_push(s: Seq<SlotView>, x: SlotView, k: Seq<char>)
    ensures
        find_slot(s.push(x), k) == (match find_slot(s, k) {
            Some(i) => Some(i),
            None => if x.key == k {
                Some(s.len() as int)
            } else {
                None
            },
        }),
{
    assert(s.push(x).drop_last() =~= s);
}

proof fn lemma_find_issued_push(s: Seq<IssuedView>, x: IssuedView, id: Seq<char>)
    ensures
        find_issued(s.push(x), id) == (match find_issued(s, id) {
            Some(i) => Some(i),
            None => if x.invocation_id == id {
                Some(s.len() as int)
            } else {
                None
            },
        }),
{
    assert(s.push(x).drop_last() =~= s);
}

proof fn lemma_find_binding_update(s: Seq<(Seq<char>, Seq<char>)>, i: int, x: (Seq<char>, Seq<char>), id: Seq<char>)
    requires
        0 <= i < s.len(),
        x.0 == s[i].0,
    ensures
        find_binding(s.update(i, x), id) == find_binding(s, id),
{
    let t = s.update(i, x);
    lemma_find_binding(s, id);
    lemma_find_binding(t, id);
    lemma_find_binding_char(t, id);
    match find_binding(s, id) {
        Some(j) => {
            assert(t[j].0 == id);
            assert forall|m: int| 0 <= m < j implies (#[trigger] t[m]).0 != id by {
                assert(t[m].0 == s[m].0);
            }
        },
        None => {
            assert forall|m: int| 0 <= m < t.len() implies (#[trigger] t[m]).0 != id by {
                assert(t[m].0 == s[m].0);
            }
        },
    }
}

proof fn lemma_find_binding_push(s: Seq<(Seq<char>, Seq<char>)>, x: (Seq<char>, Seq<char>), id: Seq<char>)
    ensures
        find_binding(s.push(x), id) == (match find_binding(s, id) {
            Some(i) => Some(i),
            None => if x.0 == id {
                Some(s.len() as int)
            } else {
                None
            },
        }),
{
    assert(s.push(x).drop_last() =~= s);
}

pub(crate) proof fn lemma_admit_new_slots(l: LedgerView, f: AdmissionView, k: Seq<char>)
    ensures
        find_slot(admit_new(l, f).1.slots, k) == (match find_slot(l.slots, k) {
            Some(i) => Some(i),
            None => if k == slot_key_text(f.work_request_id, f.operation, f.resource) {
                Some(l.slots.len() as int)
            } else {
                None
            },
        }),
{
    let key = slot_key_text(f.work_request_id, f.operation, f.resource);
    let issued = issued_of(f);
    lemma_find_slot(l.slots, key);
    match find_slot(l.slots, key) {
        Some(si) => {
            lemma_find_slot_update(
                l.slots,
                si,
                SlotView { key: l.slots[si].key, invocations: l.slots[si].invocations.push(issued) },
                k,
            );
        },
        None => {
            lemma_find_slot_push(l.slots, SlotView { key, invocations: seq![issued] }, k);
        },
    }
}

proof fn lemma_admit_new_binding(l: LedgerView, f: AdmissionView, b: int)
    requires
        ledger_wf(l),
        0 <= b < admit_new(l, f).1.bindings.len(),
    ensures
        binding_resolves(admit_new(l, f).1, b),
{
    let key = slot_key_text(f.work_request_id, f.operation, f.resource);
    let issued = issued_of(f);
    let l2 = admit_new(l, f).1;
    let id = l2.bindings[b].0;
    let k = l2.bindings[b].1;
    lemma_find_binding(l.bindings, f.invocation_id);
    lemma_find_slot(l.slots, key);
    lemma_admit_new_slots(l, f, k);
    let fresh = match find_binding(l.bindings, f.invocation_id) {
        Some(bi) => b == bi,
        None => b == l.bindings.len(),
    };
    if fresh {
        assert(id == f.invocation_id && k == key);
        match find_slot(l.slots, key) {
            Some(si) => {
                assert(l2.slots[si].invocations == l.slots[si].invocations.push(issued));
                lemma_find_issued_push(l.slots[si].invocations, issued, id);
            },
            None => {
                assert(l2.slots[l.slots.len() as int].invocations == seq![issued]);
                assert(seq![issued] =~= Seq::<IssuedView>::empty().push(issued));
                lemma_find_issued_push(Seq::<IssuedView>::empty(), issued, id);
            },
        }
    } else {
        assert(l2.bindings[b] == l.bindings[b]);
        assert(binding_resolves(l, b));
        let sj = find_slot(l.slots, k)->0;
        lemma_find_slot(l.slots, k);
        match find_slot(l.slots, key) {
            Some(si) => {
                if sj == si {
                    lemma_find_issued_push(l.slots[si].invocations, issued, id);
                } else {
                    assert(l2.slots[sj] == l.slots[sj]);
                }
            },
            None => {
                assert(l2.slots[sj] == l.slots[sj]);
            },
        }
    }
}

/// A new admission keeps the ledger's invariant.
proof fn lemma_admit_new_wf(l: LedgerView, f: AdmissionView)
    requires
        ledger_wf(l),
    ensures
        ledger_wf(admit_new(l, f).1),
{
    assert forall|b: int| 0 <= b < admit_new(l, f).1.bindings.len() implies #[trigger] binding_resolves(
        admit_new(l, f).1,
        b,
    ) by {
        lemma_admit_new_binding(l, f, b);
    }
}

impl InvocationLedger {
    /// Admit one canonical AuthorizedInvocation envelope: it must pass the
    /// gates of `admission_of`; re-admitting an envelope already recorded
    /// (same invocation id and event id) returns its generation and changes
    /// nothing; any other envelope opens the next generation of its slot.
    pub fn admit_authorized_invocation(&mut self, envelope: &Json, local_model_sha256: &str) -> (r:
        Result<u64, BoundaryError>)
        requires
            old(self).wf(),
        ensures
            final(self).wf(),
            generation_result_view(r) == admit_outcome(old(self)@, envelope@, local_model_sha256@).0,
            final(self)@ == admit_outcome(old(self)@, envelope@, local_model_sha256@).1,
    {
        let f = match parse_admission(envelope, local_model_sha256) {
            Ok(f) => f,
            Err(e) => {
                return Err(e);
            },
        };
        let ghost l = self@;
        let ghost fv = f@;
        match self.find_binding_exec(f.invocation_id.as_str()) {
            Some(b) => {
                proof {
                    lemma_find_binding(l.bindings, fv.invocation_id);
                    assert(l.bindings[b as int].1 == self.by_invocation_id@[b as int].1@);
                }
                match self.find_slot_exec(self.by_invocation_id[b].1.as_str()) {
                    Some(si) => {
                        proof {
                            lemma_find_slot(l.slots, l.bindings[b as int].1);
                            assert(l.slots[si as int] == self.slots@[si as int]@);
                        }
                        match find_issued_exec(&self.slots[si].invocations, f.invocation_id.as_str()) {
                            Some(ii) => {
                                proof {
                                    lemma_find_issued(l.slots[si as int].invocations, fv.invocation_id);
                                    assert(l.slots[si as int].invocations[ii as int] == self.slots@[si as int].invocations@[ii as int]@);
                                }
                                let n = self.slots[si].invocations.len();
                                if str_eq(
                                    self.slots[si].invocations[ii].event_id.as_str(),
                                    f.event_id.as_str(),
                                ) {
                                    return Ok((ii + 1) as u64);
                                }
                            },
                            None => {},
                        }
                    },
                    None => {},
                }
            },
            None => {},
        }
        assert(readmitted_generation(l, fv.invocation_id, fv.event_id) is None);
        let key = slot_key(f.work_request_id.as_str(), f.operation.as_str(), f.resource.as_str());
        let inv_id = f.invocation_id.clone();
        let key2 = key.clone();
        let issued = IssuedInvocation {
            event_id: f.event_id,
            invocation_id: f.invocation_id,
            work_request_id: f.work_request_id,
            authority_decision_id: f.authority_decision_id,
            operation: f.operation,
            resource: f.resource,
        };
        assert(issued@ == issued_of(fv));
        let generation: u64;
        match self.find_slot_exec(key.as_str()) {
            Some(si) => {
                let ghost old_slots = self.slots@;
                let ghost old_invs = self.slots@[si as int].invocations@;
                self.slots[si].invocations.push(issued);
                generation = self.slots[si].invocations.len() as u64;
                proof {
                    assert(self.slots@[si as int].invocations@ == old_invs.push(issued));
                    assert(self.slots@[si as int].key == old_slots[si as int].key);
                    assert(self.slots@ == old_slots.update(si as int, self.slots@[si as int]));
                    assert(self.slots@[si as int]@.invocations =~= l.slots[si as int].invocations.push(issued@));
                    assert(self.slots@.map_values(|s: SlotState| s@) =~= l.slots.update(
                        si as int,
                        SlotView {
                            key: l.slots[si as int].key,
                            invocations: l.slots[si as int].invocations.push(issued@),
                        },
                    ));
                }
            },
            None => {
                let mut v: Vec<IssuedInvocation> = Vec::new();
                v.push(issued);
                let ghost old_slots = self.slots@;
                self.slots.push(SlotState { key, invocations: v });
                generation = 1;
                proof {
                    assert(self.slots@[old_slots.len() as int]@.invocations =~= seq![issued@]);
                    assert(self.slots@.map_values(|s: SlotState| s@) =~= l.slots.push(
                        SlotView { key: key2@, invocations: seq![issued@] },
                    ));
                }
            },
        }
        let ghost mid_slots = self@.slots;
        match self.find_binding_exec(inv_id.as_str()) {
            Some(b) => {
                let ghost old_b = self.by_invocation_id@;
                self.by_invocation_id.set(b, (inv_id, key2));
                proof {
                    assert(self.by_invocation_id@.map_values(|p: (String, String)| (p.0@, p.1@)) =~= l.bindings.update(
                        b as int,
                        (fv.invocation_id, slot_key_text(fv.work_request_id, fv.operation, fv.resource)),
                    ));
                }
            },
            None => {
                self.by_invocation_id.push((inv_id, key2));
                proof {
                    assert(self.by_invocation_id@.map_values(|p: (String, String)| (p.0@, p.1@)) =~= l.bindings.push(
                        (fv.invocation_id, slot_key_text(fv.work_request_id, fv.operation, fv.resource)),
                    ));
                }
            },
        }
        proof {
            assert(self@.slots == mid_slots);
            assert(self@ == admit_new(l, fv).1);
            lemma_admit_new_wf(l, fv);
        }
        Ok(generation)
    }

    /// Current generation of a slot, when the slot has any admitted invocations.
    pub fn current_generation(&self, work_request_id: &str, operation: &str, resource: &str) -> (r:
        Option<u64>)
        ensures
            match r {
                Some(g) => current_generation_of(self@, work_request_id@, operation@, resource@) == Some(g as nat),
                None => current_generation_of(self@, work_request_id@, operation@, resource@) is None,
            },
    {
        let key = slot_key(work_request_id, operation, resource);
        match self.find_slot_exec(key.as_str()) {
            Some(si) => {
                proof {
                    assert(self@.slots[si as int] == self.slots@[si as int]@);
                }
                Some(self.slots[si].invocations.len() as u64)
            },
            None => None,
        }
    }
}


// ---------------------------------------------------------------------------
// Settlement of ExecutionObservation envelopes
// ---------------------------------------------------------------------------

/// What happened when an execution observation reached the boundary.
pub enum ObservationOutcome {
    /// Bound to the exact authorized invocation and accepted; the authority
    /// identity is the one the ledger recorded.
    Settled {
        invocation_id: String,
        work_request_id: String,
        authority_decision_id: String,
        execution_status: String,
        observed_effects: Json,
    },
    /// A redelivery of an already-settled observation: consequence-free.
    DuplicateDelivery,
}

pub enum OutcomeView {
    Settled {
        invocation_id: Seq<char>,
        work_request_id: Seq<char>,
        authority_decision_id: Seq<char>,
        execution_status: Seq<char>,
        observed_effects: JsonView,
    },
    DuplicateDelivery,
}

impl View for ObservationOutcome {
    type V = OutcomeView;

    open spec fn view(&self) -> OutcomeView {
        match self {
            ObservationOutcome::Settled {
                invocation_id,
                work_request_id,
                authority_decision_id,
                execution_status,
                observed_effects,
            } => OutcomeView::Settled {
                invocation_id: invocation_id@,
                work_request_id: work_request_id@,
                authority_decision_id: authority_decision_id@,
                execution_status: execution_status@,
                observed_effects: observed_effects@,
            },
            ObservationOutcome::DuplicateDelivery => OutcomeView::DuplicateDelivery,
        }
    }
}

impl ObservationOutcome {
    /// True only for a first-time settlement.
    pub fn settled(&self) -> (r: bool)
        ensures
            r == (self is Settled),
    {
        match self {
            ObservationOutcome::Settled { .. } => true,
            ObservationOutcome::DuplicateDelivery => false,
        }
    }
}

/// The identities an observation is deduplicated by: its event id and its
/// idempotency key (each empty when absent).
pub open spec fn observation_event_id(obs: JsonView) -> Seq<char> {
    match jstr(jget(obs, "event_id"@)) {
        Some(e) => e,
        None => Seq::empty(),
    }
}

pub open spec fn observation_idempotency_key(obs: JsonView) -> Seq<char> {
    match jstr(jget(obs, "idempotency_key"@)) {
        Some(e) => e,
        None => Seq::empty(),
    }
}

/// The observation was already settled under its event id or its
/// (non-empty) idempotency key.
pub open spec fn already_settled(l: LedgerView, obs: JsonView) -> bool {
    l.settled_event_ids.contains(observation_event_id(obs)) || (observation_idempotency_key(obs).len()
        > 0 && l.settled_idempotency_keys.contains(observation_idempotency_key(obs)))
}

/// The governed `execution_status` vocabulary.
pub open spec fn is_execution_status(s: Seq<char>) -> bool {
    s == "completed"@ || s == "spawn_failed"@ || s == "timed_out"@ || s == "sandbox_violation"@
        || s == "suspected_sandbox_violation"@
}

/// What the payload of an observation carries, once parsed.
pub struct ObservationFieldsView {
    pub work_request_id: Seq<char>,
    pub invocation_id: Seq<char>,
    pub execution_status: Seq<char>,
    pub observed_effects: JsonView,
    pub claimed_authority: Option<Seq<char>>,
    pub fabricated_authority: Option<Seq<char>>,
}

/// A typed optional member arrived with the wrong shape.
pub open spec fn optional_field_fault(p: JsonView) -> Option<Seq<char>> {
    if jget(p, "stdout_ref"@) is Some && !(jget(p, "stdout_ref"@)->0 is Str) {
        Some("stdout_ref"@)
    } else if jget(p, "stderr_ref"@) is Some && !(jget(p, "stderr_ref"@)->0 is Str) {
        Some("stderr_ref"@)
    } else if jget(p, "artifact_refs"@) is Some && !(jget(p, "artifact_refs"@)->0 is Array) {
        Some("artifact_refs"@)
    } else if jget(p, "side_effect_refs"@) is Some && !(jget(p, "side_effect_refs"@)->0 is Array) {
        Some("side_effect_refs"@)
    } else if jget(p, "failure_details"@) is Some && !(jget(p, "failure_details"@)->0 is Str)
        && !(jget(p, "failure_details"@)->0 is Object) {
        Some("failure_details"@)
    } else {
        None
    }
}

/// The required observation fields that are absent, in report order.
pub open spec fn observation_missing(p: JsonView) -> Seq<Seq<char>> {
    let m1 = if payload_text(p, "work_request_id"@) is None {
        seq!["work_request_id"@]
    } else {
        Seq::empty()
    };
    let m2 = if payload_text(p, "invocation_id"@) is None {
        m1.push("invocation_id"@)
    } else {
        m1
    };
    let m3 = if jstr(jget(p, "execution_status"@)) is None {
        m2.push("execution_status"@)
    } else {
        m2
    };
    if jget(p, "observed_effects"@) is None {
        m3.push("observed_effects"@)
    } else {
        m3
    }
}

/// The payload gates of an observation, in order, and what passes them.
pub open spec fn observation_fields(obs: JsonView, local: Seq<char>) -> Result<ObservationFieldsView, BoundaryErrorView> {
    if model_binding_fault(obs, local) is Some {
        Err(model_binding_fault(obs, local)->0)
    } else if !(jget(obs, "payload"@) matches Some(JsonView::Object(_))) {
        Err(BoundaryErrorView::MalformedEnvelope("payload must be an object"@))
    } else {
        let p = jget(obs, "payload"@)->0;
        let status = jstr(jget(p, "execution_status"@));
        let effects = jget(p, "observed_effects"@);
        if status is Some && !is_execution_status(status->0) {
            Err(BoundaryErrorView::InvalidExecutionStatus { got: status->0 })
        } else if effects is Some && !(effects->0 is Array) && !(effects->0 is Object) {
            Err(BoundaryErrorView::OpaquePayload { missing: seq!["observed_effects"@] })
        } else if optional_field_fault(p) is Some {
            Err(BoundaryErrorView::InvalidOptionalField { field: optional_field_fault(p)->0 })
        } else if observation_missing(p).len() > 0 {
            Err(BoundaryErrorView::OpaquePayload { missing: observation_missing(p) })
        } else if identity_check("work_request_id"@, payload_text(p, "work_request_id"@)->0) is Err {
            Err(BoundaryErrorView::PlaceholderField { field: "work_request_id"@ })
        } else if identity_check("invocation_id"@, payload_text(p, "invocation_id"@)->0) is Err {
            Err(BoundaryErrorView::PlaceholderField { field: "invocation_id"@ })
        } else {
            Ok(
                ObservationFieldsView {
                    work_request_id: payload_text(p, "work_request_id"@)->0,
                    invocation_id: payload_text(p, "invocation_id"@)->0,
                    execution_status: status->0,
                    observed_effects: effects->0,
                    claimed_authority: payload_text(p, "authority_decision_id"@),
                    fabricated_authority: meaningful_text(
                        jstr(crate::json::jget_opt(jget(p, "authority_decision"@), "decision_id"@)),
                    ),
                },
            )
        }
    }
}

/// The ledger after settling `obs`: its identities recorded as settled.
pub open spec fn record_settled(l: LedgerView, obs: JsonView) -> LedgerView {
    LedgerView {
        settled_event_ids: l.settled_event_ids.push(observation_event_id(obs)),
        settled_idempotency_keys: if observation_idempotency_key(obs).len() > 0 {
            l.settled_idempotency_keys.push(observation_idempotency_key(obs))
        } else {
            l.settled_idempotency_keys
        },
        ..l
    }
}

/// The binding chain an observation must satisfy against the invocation it
/// cites: recorded causal parent, current generation, same work request, and
/// no authority claim other than the recorded one.
pub open spec fn binding_outcome(l: LedgerView, obs: JsonView, f: ObservationFieldsView) -> Result<OutcomeView, BoundaryErrorView> {
    match bound_invocation(l, f.invocation_id) {
        None => Err(BoundaryErrorView::UnknownInvocation { invocation_id: f.invocation_id }),
        Some((si, ii)) => {
            let slot = l.slots[si];
            let issued = slot.invocations[ii];
            if !causal_parents_of(obs).contains(issued.event_id) {
                Err(
                    BoundaryErrorView::CausalityMissing {
                        expected_parent: issued.event_id,
                        recorded: causal_parents_of(obs),
                    },
                )
            } else if ii + 1 != slot.invocations.len() {
                Err(
                    BoundaryErrorView::LateObservation {
                        invocation_id: issued.invocation_id,
                        settled_generation: ii + 1,
                        current_generation: slot.invocations.len() as int,
                    },
                )
            } else if issued.work_request_id != f.work_request_id {
                Err(
                    BoundaryErrorView::CrossWiredWorkRequest {
                        expected: issued.work_request_id,
                        got: f.work_request_id,
                    },
                )
            } else if f.claimed_authority is Some && f.claimed_authority->0
                != issued.authority_decision_id {
                Err(
                    BoundaryErrorView::SelfAssertedAuthority {
                        recorded: issued.authority_decision_id,
                        claimed: f.claimed_authority->0,
                    },
                )
            } else if f.fabricated_authority is Some && f.fabricated_authority->0
                != issued.authority_decision_id {
                Err(
                    BoundaryErrorView::SelfAssertedAuthority {
                        recorded: issued.authority_decision_id,
                        claimed: f.fabricated_authority->0,
                    },
                )
            } else {
                Ok(
                    OutcomeView::Settled {
                        invocation_id: issued.invocation_id,
                        work_request_id: issued.work_request_id,
                        authority_decision_id: issued.authority_decision_id,
                        execution_status: f.execution_status,
                        observed_effects: f.observed_effects,
                    },
                )
            }
        },
    }
}

/// What settling `obs` returns, and the ledger it leaves.
pub open spec fn settle_outcome(l: LedgerView, obs: JsonView, local: Seq<char>) -> (Result<OutcomeView, BoundaryErrorView>, LedgerView) {
    if !is_object(obs) {
        (Err(BoundaryErrorView::MalformedEnvelope("envelope must be an object"@)), l)
    } else if envelope_producer_fault(obs, EXECUTION_OBSERVATION@, "execution_environment"@) is Some {
        (Err(envelope_producer_fault(obs, EXECUTION_OBSERVATION@, "execution_environment"@)->0), l)
    } else if already_settled(l, obs) {
        (Ok(OutcomeView::DuplicateDelivery), l)
    } else {
        match observation_fields(obs, local) {
            Err(e) => (Err(e), l),
            Ok(f) => match binding_outcome(l, obs, f) {
                Err(e) => (Err(e), l),
                Ok(o) => (Ok(o), record_settled(l, obs)),
            },
        }
    }
}

pub open spec fn outcome_result_view(r: Result<ObservationOutcome, BoundaryError>) -> Result<OutcomeView, BoundaryErrorView> {
    match r {
        Ok(o) => Ok(o@),
        Err(e) => Err(e@),
    }
}

struct ObservationFields {
    work_request_id: String,
    invocation_id: String,
    execution_status: String,
    observed_effects: Json,
    claimed_authority: Option<String>,
    fabricated_authority: Option<String>,
}

impl View for ObservationFields {
    type V = ObservationFieldsView;

    closed spec fn view(&self) -> ObservationFieldsView {
        ObservationFieldsView {
            work_request_id: self.work_request_id@,
            invocation_id: self.invocation_id@,
            execution_status: self.execution_status@,
            observed_effects: self.observed_effects@,
            claimed_authority: opt_string_view(self.claimed_authority),
            fabricated_authority: opt_string_view(self.fabricated_authority),
        }
    }
}

fn is_execution_status_exec(s: &str) -> (r: bool)
    ensures
        r == is_execution_status(s@),
{
    str_eq(s, "completed") || str_eq(s, "spawn_failed") || str_eq(s, "timed_out") || str_eq(
        s,
        "sandbox_violation",
    ) || str_eq(s, "suspected_sandbox_violation")
}

fn optional_field_check(p: &Json) -> (r: Option<&'static str>)
    ensures
        crate::envelope::opt_static_view(r) == optional_field_fault(p@),
{
    match get(p, "stdout_ref") {
        Some(Json::Str(_)) | None => {},
        Some(_) => {
            return Some("stdout_ref");
        },
    }
    match get(p, "stderr_ref") {
        Some(Json::Str(_)) | None => {},
        Some(_) => {
            return Some("stderr_ref");
        },
    }
    match get(p, "artifact_refs") {
        Some(Json::Array(_)) | None => {},
        Some(_) => {
            return Some("artifact_refs");
        },
    }
    match get(p, "side_effect_refs") {
        Some(Json::Array(_)) | None => {},
        Some(_) => {
            return Some("side_effect_refs");
        },
    }
    match get(p, "failure_details") {
        Some(Json::Str(_)) | Some(Json::Object(_)) | None => {},
        Some(_) => {
            return Some("failure_details");
        },
    }
    None
}

fn parse_observation(obs: &Json, local_model_sha256: &str) -> (r: Result<ObservationFields, BoundaryError>)
    ensures
        match r {
            Ok(f) => observation_fields(obs@, local_model_sha256@) == Ok::<ObservationFieldsView, BoundaryErrorView>(f@),
            Err(e) => observation_fields(obs@, local_model_sha256@) == Err::<ObservationFieldsView, BoundaryErrorView>(e@),
        },
{
    match check_payload_model_binding(obs, local_model_sha256) {
        Err(e) => {
            return Err(e);
        },
        Ok(()) => {},
    }
    let payload = match get(obs, "payload") {
        Some(p) => p,
        None => {
            return Err(BoundaryError::MalformedEnvelope(owned("payload must be an object")));
        },
    };
    if !is_object_exec(payload) {
        return Err(BoundaryError::MalformedEnvelope(owned("payload must be an object")));
    }
    let ghost p = payload@;
    let mut missing: Vec<&'static str> = Vec::new();
    let w = meaningful(get_str(payload, "work_request_id"));
    if w.is_none() {
        missing.push("work_request_id");
    }
    let inv = meaningful(get_str(payload, "invocation_id"));
    if inv.is_none() {
        missing.push("invocation_id");
    }
    let status = get_str(payload, "execution_status");
    match status {
        Some(st) => {
            if !is_execution_status_exec(st) {
                return Err(BoundaryError::InvalidExecutionStatus { got: owned(st) });
            }
        },
        None => {
            missing.push("execution_status");
        },
    }
    let effects = get(payload, "observed_effects");
    match effects {
        Some(Json::Array(_)) | Some(Json::Object(_)) => {},
        Some(_) => {
            let mut m: Vec<&'static str> = Vec::new();
            m.push("observed_effects");
            proof {
                assert(static_strs_view(m@) =~= seq!["observed_effects"@]);
            }
            return Err(BoundaryError::OpaquePayload { missing: m });
        },
        None => {
            missing.push("observed_effects");
        },
    }
    match optional_field_check(payload) {
        Some(field) => {
            return Err(BoundaryError::InvalidOptionalField { field });
        },
        None => {},
    }
    proof {
        assert(static_strs_view(missing@) =~= observation_missing(p));
    }
    if missing.len() > 0 {
        return Err(BoundaryError::OpaquePayload { missing });
    }
    let w = w.unwrap();
    let inv = inv.unwrap();
    if check_identity_string("work_request_id", w.as_str()).is_err() {
        return Err(BoundaryError::PlaceholderField { field: owned("work_request_id") });
    }
    if check_identity_string("invocation_id", inv.as_str()).is_err() {
        return Err(BoundaryError::PlaceholderField { field: owned("invocation_id") });
    }
    let claimed = meaningful(get_str(payload, "authority_decision_id"));
    let fabricated = meaningful(
        crate::json::as_str(crate::json::get_opt(get(payload, "authority_decision"), "decision_id")),
    );
    Ok(
        ObservationFields {
            work_request_id: w,
            invocation_id: inv,
            execution_status: owned(status.unwrap()),
            observed_effects: json_clone(effects.unwrap()),
            claimed_authority: claimed,
            fabricated_authority: fabricated,
        },
    )
}

fn opt_string_matches(a: &Option<String>, b: &String) -> (r: bool)
    ensures
        r == (opt_string_view(*a) is Some && opt_string_view(*a)->0 != b@),
{
    match a {
        Some(x) => !str_eq(x.as_str(), b.as_str()),
        None => false,
    }
}

impl InvocationLedger {
    fn is_settled_exec(&self, event_id: &str, idem: &str) -> (r: bool)
        ensures
            r == (self@.settled_event_ids.contains(event_id@) || (idem@.len() > 0
                && self@.settled_idempotency_keys.contains(idem@))),
    {
        contains_string(&self.settled_event_ids, event_id) || (idem.unicode_len() > 0
            && contains_string(&self.settled_idempotency_keys, idem))
    }

    /// Adjudicate one canonical ExecutionObservation envelope: a redelivery of
    /// a settled observation is consequence-free; otherwise it settles only
    /// when it binds to the exact, current, authorized invocation it cites.
    pub fn settle_execution_observation(&mut self, observation: &Json, local_model_sha256: &str) -> (r:
        Result<ObservationOutcome, BoundaryError>)
        requires
            old(self).wf(),
        ensures
            final(self).wf(),
            outcome_result_view(r) == settle_outcome(old(self)@, observation@, local_model_sha256@).0,
            final(self)@ == settle_outcome(old(self)@, observation@, local_model_sha256@).1,
    {
        let ghost l = self@;
        if !is_object_exec(observation) {
            return Err(BoundaryError::MalformedEnvelope(owned("envelope must be an object")));
        }
        match check_envelope_producer(observation, EXECUTION_OBSERVATION, "execution_environment") {
            Err(e) => {
                return Err(e);
            },
            Ok(()) => {},
        }
        let event_id = match get_str(observation, "event_id") {
            Some(e) => owned(e),
            None => String::new(),
        };
        let idem = match get_str(observation, "idempotency_key") {
            Some(e) => owned(e),
            None => String::new(),
        };
        if self.is_settled_exec(event_id.as_str(), idem.as_str()) {
            return Ok(ObservationOutcome::DuplicateDelivery);
        }
        let f = match parse_observation(observation, local_model_sha256) {
            Ok(f) => f,
            Err(e) => {
                return Err(e);
            },
        };
        let ghost fv = f@;
        let b = match self.find_binding_exec(f.invocation_id.as_str()) {
            Some(b) => b,
            None => {
                return Err(BoundaryError::UnknownInvocation { invocation_id: f.invocation_id });
            },
        };
        proof {
            lemma_find_binding(l.bindings, fv.invocation_id);
            assert(binding_resolves(l, b as int));
            assert(l.bindings[b as int].1 == self.by_invocation_id@[b as int].1@);
        }
        let si = match self.find_slot_exec(self.by_invocation_id[b].1.as_str()) {
            Some(si) => si,
            None => {
                return Err(BoundaryError::UnknownInvocation { invocation_id: f.invocation_id });
            },
        };
        proof {
            lemma_find_slot(l.slots, l.bindings[b as int].1);
            assert(l.slots[si as int] == self.slots@[si as int]@);
        }
        let ii = match find_issued_exec(&self.slots[si].invocations, f.invocation_id.as_str()) {
            Some(ii) => ii,
            None => {
                return Err(BoundaryError::UnknownInvocation { invocation_id: f.invocation_id });
            },
        };
        let n = self.slots[si].invocations.len();
        let ghost issued_v = l.slots[si as int].invocations[ii as int];
        proof {
            assert(bound_invocation(l, fv.invocation_id) == Some((si as int, ii as int)));
            assert(issued_v == self.slots@[si as int].invocations@[ii as int]@);
            assert(l.slots[si as int].invocations.len() == n);
        }
        let parents = causal_parents(observation);
        if !contains_string(&parents, self.slots[si].invocations[ii].event_id.as_str()) {
            return Err(
                BoundaryError::CausalityMissing {
                    expected_parent: self.slots[si].invocations[ii].event_id.clone(),
                    recorded: parents,
                },
            );
        }
        if ii + 1 != n {
            return Err(
                BoundaryError::LateObservation {
                    invocation_id: self.slots[si].invocations[ii].invocation_id.clone(),
                    settled_generation: (ii + 1) as u64,
                    current_generation: n as u64,
                },
            );
        }
        if !str_eq(
            self.slots[si].invocations[ii].work_request_id.as_str(),
            f.work_request_id.as_str(),
        ) {
            return Err(
                BoundaryError::CrossWiredWorkRequest {
                    expected: self.slots[si].invocations[ii].work_request_id.clone(),
                    got: f.work_request_id,
                },
            );
        }
        if opt_string_matches(&f.claimed_authority, &self.slots[si].invocations[ii].authority_decision_id) {
            return Err(
                BoundaryError::SelfAssertedAuthority {
                    recorded: self.slots[si].invocations[ii].authority_decision_id.clone(),
                    claimed: f.claimed_authority.unwrap(),
                },
            );
        }
        if opt_string_matches(
            &f.fabricated_authority,
            &self.slots[si].invocations[ii].authority_decision_id,
        ) {
            return Err(
                BoundaryError::SelfAssertedAuthority {
                    recorded: self.slots[si].invocations[ii].authority_decision_id.clone(),
                    claimed: f.fabricated_authority.unwrap(),
                },
            );
        }
        let outcome = ObservationOutcome::Settled {
            invocation_id: self.slots[si].invocations[ii].invocation_id.clone(),
            work_request_id: self.slots[si].invocations[ii].work_request_id.clone(),
            authority_decision_id: self.slots[si].invocations[ii].authority_decision_id.clone(),
            execution_status: f.execution_status,
            observed_effects: f.observed_effects,
        };
        let has_idem = idem.as_str().unicode_len() > 0;
        self.settled_event_ids.push(event_id);
        if has_idem {
            self.settled_idempotency_keys.push(idem);
        }
        proof {
            assert(self@.settled_event_ids =~= l.settled_event_ids.push(observation_event_id(observation@)));
            if has_idem {
                assert(self@.settled_idempotency_keys =~= l.settled_idempotency_keys.push(
                    observation_idempotency_key(observation@),
                ));
            }
            assert(self@ == record_settled(l, observation@));
            assert forall|bi: int| 0 <= bi < self@.bindings.len() implies #[trigger] binding_resolves(
                self@,
                bi,
            ) by {
                assert(binding_resolves(l, bi));
            }
        }
        Ok(outcome)
    }
}


// ---------------------------------------------------------------------------
// Laws of the ledger
// ---------------------------------------------------------------------------

/// No invocation with the admission's id was admitted into its slot before.
pub open spec fn invocation_new_to_slot(l: LedgerView, f: AdmissionView) -> bool {
    match find_slot(l.slots, slot_key_text(f.work_request_id, f.operation, f.resource)) {
        Some(si) => find_issued(l.slots[si].invocations, f.invocation_id) is None,
        None => true,
    }
}

/// Re-admitting the same envelope is idempotent: the second admission
/// returns the first one's generation and changes nothing. (Left out: an
/// envelope whose invocation id was already admitted into the same slot
/// under another event id, where the earlier admission is the one found.)
pub proof fn law_readmission_is_idempotent(l: LedgerView, env: JsonView, local: Seq<char>)
    requires
        ledger_wf(l),
        admission_of(env, local) matches Ok(f) ==> (readmitted_generation(
            l,
            f.invocation_id,
            f.event_id,
        ) is Some || invocation_new_to_slot(l, f)),
    ensures
        admit_outcome(l, env, local).0 is Ok ==> admit_outcome(admit_outcome(l, env, local).1, env, local)
            == admit_outcome(l, env, local),
        admit_outcome(l, env, local).0 is Ok ==> readmitted_generation(
            admit_outcome(l, env, local).1,
            admission_of(env, local)->Ok_0.invocation_id,
            admission_of(env, local)->Ok_0.event_id,
        ) == Some(admit_outcome(l, env, local).0->Ok_0),
{
    if let Ok(f) = admission_of(env, local) {
        if readmitted_generation(l, f.invocation_id, f.event_id) is None {
            let key = slot_key_text(f.work_request_id, f.operation, f.resource);
            let (g, l2) = admit_new(l, f);
            lemma_find_binding(l.bindings, f.invocation_id);
            let bi = match find_binding(l.bindings, f.invocation_id) {
                Some(b) => b,
                None => l.bindings.len() as int,
            };
            match find_binding(l.bindings, f.invocation_id) {
                Some(b) => {
                    lemma_find_binding_update(l.bindings, b, (f.invocation_id, key), f.invocation_id);
                },
                None => {
                    lemma_find_binding_push(l.bindings, (f.invocation_id, key), f.invocation_id);
                },
            }
            assert(find_binding(l2.bindings, f.invocation_id) == Some(bi));
            lemma_admit_new_slots(l, f, key);
            lemma_find_slot(l.slots, key);
            match find_slot(l.slots, key) {
                Some(si) => {
                    lemma_find_issued_push(l.slots[si].invocations, issued_of(f), f.invocation_id);
                    assert(readmitted_generation(l2, f.invocation_id, f.event_id) == Some(g));
                },
                None => {
                    assert(seq![issued_of(f)] =~= Seq::<IssuedView>::empty().push(issued_of(f)));
                    lemma_find_issued_push(Seq::<IssuedView>::empty(), issued_of(f), f.invocation_id);
                    assert(readmitted_generation(l2, f.invocation_id, f.event_id) == Some(g));
                },
            }
        }
    }
}

/// The generation a new admission of `f` opens.
pub open spec fn next_generation(l: LedgerView, f: AdmissionView) -> nat {
    match current_generation_of(l, f.work_request_id, f.operation, f.resource) {
        Some(c) => c + 1,
        None => 1,
    }
}

/// An envelope that is not a re-admission opens the next generation of its
/// slot (the first one for a new slot), which becomes the slot's current
/// generation.
pub proof fn law_admission_opens_next_generation(l: LedgerView, env: JsonView, local: Seq<char>)
    requires
        ledger_wf(l),
    ensures
        match admission_of(env, local) {
            Ok(f) => readmitted_generation(l, f.invocation_id, f.event_id) is None ==> {
                &&& admit_outcome(l, env, local).0 == Ok::<nat, BoundaryErrorView>(
                    next_generation(l, f),
                )
                &&& current_generation_of(
                    admit_outcome(l, env, local).1,
                    f.work_request_id,
                    f.operation,
                    f.resource,
                ) == Some(next_generation(l, f))
            },
            Err(_) => true,
        },
{
    if let Ok(f) = admission_of(env, local) {
        let key = slot_key_text(f.work_request_id, f.operation, f.resource);
        lemma_admit_new_slots(l, f, key);
        lemma_find_slot(l.slots, key);
    }
}

/// A generation never goes back: admissions and settlements only keep or
/// advance every slot's current generation.
pub proof fn law_generations_never_decrease(
    l: LedgerView,
    env: JsonView,
    obs: JsonView,
    local: Seq<char>,
    w: Seq<char>,
    o: Seq<char>,
    r: Seq<char>,
)
    requires
        ledger_wf(l),
    ensures
        current_generation_of(l, w, o, r) matches Some(c) ==> {
            &&& current_generation_of(admit_outcome(l, env, local).1, w, o, r) matches Some(c2) && c2 >= c
            &&& current_generation_of(settle_outcome(l, obs, local).1, w, o, r) == Some(c)
        },
{
    let k = slot_key_text(w, o, r);
    if let Ok(f) = admission_of(env, local) {
        lemma_admit_new_slots(l, f, k);
        let key = slot_key_text(f.work_request_id, f.operation, f.resource);
        lemma_find_slot(l.slots, key);
        lemma_find_slot(l.slots, k);
    }
}

/// A redelivery of an already-settled observation is consequence-free: it
/// is reported as a duplicate and the ledger is left as it was.
pub proof fn law_duplicate_delivery_is_consequence_free(l: LedgerView, obs: JsonView, local: Seq<char>)
    requires
        ledger_wf(l),
        already_settled(l, obs),
    ensures
        settle_outcome(l, obs, local).1 == l,
        settle_outcome(l, obs, local).0 is Ok ==> settle_outcome(l, obs, local).0 == Ok::<
            OutcomeView,
            BoundaryErrorView,
        >(OutcomeView::DuplicateDelivery),
{
}

/// An observation settles at most once: delivered again after it settled, it
/// is a duplicate and changes nothing.
pub proof fn law_observation_settles_once(l: LedgerView, obs: JsonView, local: Seq<char>)
    requires
        ledger_wf(l),
        settle_outcome(l, obs, local).0 matches Ok(OutcomeView::Settled { .. }),
    ensures
        settle_outcome(settle_outcome(l, obs, local).1, obs, local) == (
            Ok::<OutcomeView, BoundaryErrorView>(OutcomeView::DuplicateDelivery),
            settle_outcome(l, obs, local).1,
        ),
{
    let l2 = settle_outcome(l, obs, local).1;
    assert(l2.settled_event_ids[l.settled_event_ids.len() as int] == observation_event_id(obs));
}

/// A settlement reports the authority decision the ledger recorded for the
/// invocation, never one the observation supplies, only for the current
/// generation of the invocation's slot, and only for an observation that
/// cites that invocation's admitted event as its cause.
pub proof fn law_settlement_binds_current_recorded_invocation(l: LedgerView, obs: JsonView, local: Seq<char>)
    requires
        ledger_wf(l),
    ensures
        settle_outcome(l, obs, local).0 matches Ok(OutcomeView::Settled { invocation_id, authority_decision_id, work_request_id, .. })
            ==> bound_invocation(l, invocation_id) matches Some((si, ii)) && ii + 1 == l.slots[si].invocations.len()
            && l.slots[si].invocations[ii].authority_decision_id == authority_decision_id
            && l.slots[si].invocations[ii].work_request_id == work_request_id
            && causal_parents_of(obs).contains(l.slots[si].invocations[ii].event_id),
{
    if let Ok(f) = observation_fields(obs, local) {
        if let Some((si, ii)) = bound_invocation(l, f.invocation_id) {
            lemma_find_binding(l.bindings, f.invocation_id);
            let b = find_binding(l.bindings, f.invocation_id)->0;
            lemma_find_slot(l.slots, l.bindings[b].1);
            lemma_find_issued(l.slots[si].invocations, f.invocation_id);
        }
    }
}

/// The invocation bound to `id` is no longer its slot's current generation.
pub open spec fn superseded(l: LedgerView, id: Seq<char>) -> bool {
    bound_invocation(l, id) matches Some((si, ii)) && ii + 1 < l.slots[si].invocations.len()
}

/// A new admission of another invocation id leaves the invocation bound to
/// `id` where it was, in a slot that only grew.
pub(crate) proof fn lemma_other_admission_keeps_binding(l: LedgerView, fo: AdmissionView, id: Seq<char>)
    requires
        fo.invocation_id != id,
        bound_invocation(l, id) is Some,
    ensures
        bound_invocation(admit_new(l, fo).1, id) == bound_invocation(l, id),
        bound_invocation(l, id) matches Some((si, ii)) ==> {
            &&& admit_new(l, fo).1.slots[si].invocations.len() >= l.slots[si].invocations.len()
            &&& admit_new(l, fo).1.slots[si].invocations[ii] == l.slots[si].invocations[ii]
        },
{
    let key = slot_key_text(fo.work_request_id, fo.operation, fo.resource);
    let l2 = admit_new(l, fo).1;
    let (si, ii) = bound_invocation(l, id)->0;
    lemma_find_binding(l.bindings, id);
    let b = find_binding(l.bindings, id)->0;
    lemma_find_binding(l.bindings, fo.invocation_id);
    match find_binding(l.bindings, fo.invocation_id) {
        Some(bo) => {
            lemma_find_binding_update(l.bindings, bo, (fo.invocation_id, key), id);
            assert(bo != b);
        },
        None => {
            lemma_find_binding_push(l.bindings, (fo.invocation_id, key), id);
        },
    }
    assert(find_binding(l2.bindings, id) == Some(b));
    assert(l2.bindings[b] == l.bindings[b]);
    let fk = l.bindings[b].1;
    lemma_admit_new_slots(l, fo, fk);
    lemma_find_slot(l.slots, fk);
    assert(find_slot(l2.slots, fk) == Some(si));
    lemma_find_slot(l.slots, key);
    match find_slot(l.slots, key) {
        Some(so) => {
            if so == si {
                lemma_find_issued_push(l.slots[si].invocations, issued_of(fo), id);
                assert(l2.slots[si].invocations == l.slots[si].invocations.push(issued_of(fo)));
            } else {
                assert(l2.slots[si] == l.slots[si]);
            }
        },
        None => {
            assert(l2.slots[si] == l.slots[si]);
        },
    }
    assert(find_issued(l.slots[si].invocations, id) == Some(ii));
    assert(find_issued(l2.slots[si].invocations, id) == Some(ii));
    lemma_find_issued(l.slots[si].invocations, id);
    assert(l2.slots[si].invocations[ii] == l.slots[si].invocations[ii]);
}

/// An observation of an invocation whose slot was re-authorized afterwards
/// never settles: once a newer invocation is admitted for the same slot, the
/// older one's observations are late forever. The newer admission opens the
/// next generation, and a well-formed, unsettled observation citing the older
/// invocation is refused as late, naming the generation it settles and the
/// current one.
pub proof fn law_superseded_invocation_never_settles(
    l: LedgerView,
    older: JsonView,
    newer: JsonView,
    obs: JsonView,
    local: Seq<char>,
)
    requires
        ledger_wf(l),
        admission_of(older, local) matches Ok(fa) && readmitted_generation(l, fa.invocation_id, fa.event_id)
            is None && invocation_new_to_slot(l, fa),
        admission_of(newer, local) matches Ok(fb) && readmitted_generation(
            admit_outcome(l, older, local).1,
            fb.invocation_id,
            fb.event_id,
        ) is None,
        admission_of(older, local)->Ok_0.invocation_id != admission_of(newer, local)->Ok_0.invocation_id,
        slot_key_text(
            admission_of(older, local)->Ok_0.work_request_id,
            admission_of(older, local)->Ok_0.operation,
            admission_of(older, local)->Ok_0.resource,
        ) == slot_key_text(
            admission_of(newer, local)->Ok_0.work_request_id,
            admission_of(newer, local)->Ok_0.operation,
            admission_of(newer, local)->Ok_0.resource,
        ),
        observation_fields(obs, local) matches Ok(fo) && fo.invocation_id == admission_of(
            older,
            local,
        )->Ok_0.invocation_id,
    ensures
        superseded(
            admit_outcome(admit_outcome(l, older, local).1, newer, local).1,
            admission_of(older, local)->Ok_0.invocation_id,
        ),
        !(settle_outcome(admit_outcome(admit_outcome(l, older, local).1, newer, local).1, obs, local).0 matches Ok(
            OutcomeView::Settled { .. },
        )),
        ({
            let fa = admission_of(older, local)->Ok_0;
            let l2 = admit_outcome(admit_outcome(l, older, local).1, newer, local).1;
            let g = admit_outcome(l, older, local).0->Ok_0;
            (is_object(obs) && envelope_producer_fault(obs, EXECUTION_OBSERVATION@, "execution_environment"@) is None
                && !already_settled(l2, obs) && causal_parents_of(obs).contains(fa.event_id)) ==> {
                &&& admit_outcome(admit_outcome(l, older, local).1, newer, local).0 == Ok::<nat, BoundaryErrorView>(g + 1)
                &&& settle_outcome(l2, obs, local).0 == Err::<OutcomeView, BoundaryErrorView>(
                    BoundaryErrorView::LateObservation {
                        invocation_id: fa.invocation_id,
                        settled_generation: g as int,
                        current_generation: (g + 1) as int,
                    },
                )
            }
        }),
{
    let fa = admission_of(older, local)->Ok_0;
    let fb = admission_of(newer, local)->Ok_0;
    let key = slot_key_text(fa.work_request_id, fa.operation, fa.resource);
    let l1 = admit_outcome(l, older, local).1;
    let l2 = admit_outcome(l1, newer, local).1;
    assert(l1 == admit_new(l, fa).1);
    assert(l2 == admit_new(l1, fb).1);
    lemma_admit_new_wf(l, fa);
    // after the older admission
    lemma_find_binding(l.bindings, fa.invocation_id);
    match find_binding(l.bindings, fa.invocation_id) {
        Some(b) => {
            lemma_find_binding_update(l.bindings, b, (fa.invocation_id, key), fa.invocation_id);
        },
        None => {
            lemma_find_binding_push(l.bindings, (fa.invocation_id, key), fa.invocation_id);
        },
    }
    let ba = find_binding(l1.bindings, fa.invocation_id)->0;
    assert(l1.bindings[ba] == (fa.invocation_id, key));
    lemma_admit_new_slots(l, fa, key);
    lemma_find_slot(l.slots, key);
    let si = find_slot(l1.slots, key)->0;
    match find_slot(l.slots, key) {
        Some(s0) => {
            lemma_find_issued_push(l.slots[s0].invocations, issued_of(fa), fa.invocation_id);
        },
        None => {
            assert(seq![issued_of(fa)] =~= Seq::<IssuedView>::empty().push(issued_of(fa)));
            lemma_find_issued_push(Seq::<IssuedView>::empty(), issued_of(fa), fa.invocation_id);
        },
    }
    let ii = find_issued(l1.slots[si].invocations, fa.invocation_id)->0;
    assert(ii + 1 == l1.slots[si].invocations.len());
    // after the newer admission
    lemma_find_binding(l1.bindings, fb.invocation_id);
    match find_binding(l1.bindings, fb.invocation_id) {
        Some(b) => {
            lemma_find_binding_update(l1.bindings, b, (fb.invocation_id, key), fa.invocation_id);
        },
        None => {
            lemma_find_binding_push(l1.bindings, (fb.invocation_id, key), fa.invocation_id);
        },
    }
    assert(find_binding(l2.bindings, fa.invocation_id) == Some(ba));
    assert(l2.bindings[ba] == (fa.invocation_id, key));
    lemma_admit_new_slots(l1, fb, key);
    lemma_find_slot(l1.slots, key);
    assert(find_slot(l2.slots, key) == Some(si));
    lemma_find_issued_push(l1.slots[si].invocations, issued_of(fb), fa.invocation_id);
    assert(l2.slots[si].invocations == l1.slots[si].invocations.push(issued_of(fb)));
    assert(bound_invocation(l2, fa.invocation_id) == Some((si, ii)));
    assert(ii + 1 != l2.slots[si].invocations.len());
    assert(l2.slots[si].invocations.len() == ii + 2);
    assert(l2.slots[si].invocations[ii] == l1.slots[si].invocations[ii]);
}

/// Authority precedes existence: unless the decision's verdict and its
/// normalized disposition both allow, no invocation is emitted, whatever
/// else the request carries; and an emitted invocation cites the governed
/// work request it descends from.
pub proof fn law_no_invocation_without_allow(
    d: AuthorityDecision,
    work_request_id: Seq<char>,
    declared: Seq<char>,
    local: Seq<char>,
    parent_event_id: Seq<char>,
    grant: Option<Seq<char>>,
    invocation_id: Seq<char>,
    event_id: Seq<char>,
    occurred_at: Seq<char>,
)
    ensures
        !(d.verdict_allows && d.disposition@ == "Allow"@) ==> emission_refusal(d, work_request_id, declared, local, parent_event_id)
            == Some(BoundaryErrorView::AuthorityNotGranted { disposition: d.disposition@ }),
        emission_refusal(d, work_request_id, declared, local, parent_event_id) is None ==> {
            &&& d.verdict_allows
            &&& d.disposition@ == "Allow"@
            &&& declared == trim(local)
            &&& !is_pseudo_identity(declared)
            &&& causal_parents_of(
                authorized_invocation_of(d, work_request_id, declared, parent_event_id, grant, invocation_id, event_id, occurred_at).envelope,
            ).contains(trim(parent_event_id))
        },
{
    let env = authorized_invocation_of(d, work_request_id, declared, parent_event_id, grant, invocation_id, event_id, occurred_at).envelope;
    let p = trim(parent_event_id);
    let first = "domain_model_hash:"@ + declared;
    let second = "caused_by:"@ + p;
    let chain = seq![JsonView::Str(first), JsonView::Str(second)];
    reveal_strlit("event_id");
    reveal_strlit("event_type");
    reveal_strlit("idempotency_key");
    reveal_strlit("occurred_at");
    reveal_strlit("payload");
    reveal_strlit("provenance");
    reveal_strlit("chain");
    reveal_strlit("caused_by:");
    reveal_strlit("domain_model_hash:");
    let m = match env {
        JsonView::Object(m) => m,
        _ => Seq::empty(),
    };
    let prov = JsonView::Object(seq![("chain"@, JsonView::Array(chain)), ("origin"@, str_json("sea-forge"@))]);
    assert(m[5] == ("provenance"@, prov));
    assert forall|j: int| 0 <= j < 5 implies m[j].0 != "provenance"@ by {
        assert(m[j].0.len() != "provenance"@.len() || m[j].0[0] != 'p' || m[j].0[1] != 'r');
    }
    crate::json::lemma_jget_member(m, "provenance"@, 5);
    crate::json::lemma_jget_member(seq![("chain"@, JsonView::Array(chain)), ("origin"@, str_json("sea-forge"@))], "chain"@, 0);
    assert(crate::json::jget_opt(jget(env, "provenance"@), "chain"@) == Some(JsonView::Array(chain)));
    assert(first.subrange(0, 10)[0] == 'd');
    assert("caused_by:"@[0] == 'c');
    assert(chain.drop_last() =~= seq![JsonView::Str(first)]);
    assert(seq![JsonView::Str(first)].drop_last() =~= Seq::<JsonView>::empty());
    assert(first[0] == 'd');
    assert(!crate::text::starts_with(first, "caused_by:"@));
    assert(second.subrange("caused_by:"@.len() as int, second.len() as int) =~= p);
    assert(second.subrange(0, 10) =~= "caused_by:"@);
    assert(crate::text::starts_with(second, "caused_by:"@));
    assert(crate::envelope::caused_by_entries(seq![JsonView::Str(first)]) =~= Seq::<Seq<char>>::empty()) by {
        let one = seq![JsonView::Str(first)];
        assert(one.last() == JsonView::Str(first));
        assert(one.drop_last() =~= Seq::<JsonView>::empty());
        assert(crate::envelope::caused_by_entries(Seq::<JsonView>::empty()) =~= Seq::<Seq<char>>::empty());
        assert(!crate::text::starts_with(first, "caused_by:"@));
    }
    assert(chain.last() == JsonView::Str(second));
    assert(crate::envelope::caused_by_entries(chain) =~= seq![p]);
    assert(seq![p][0] == p);
}


/// The members an invocation payload carries, each under its own key.
proof fn lemma_invocation_payload_members(
    d: AuthorityDecision,
    w: Seq<char>,
    declared: Seq<char>,
    grant: Option<Seq<char>>,
    inv: Seq<char>,
)
    ensures
        ({
            let p = invocation_payload(d, w, declared, grant, inv);
            let (op, res) = operation_and_resource_of(d.operation);
            &&& p is Object
            &&& jget(p, "authority_decision_id"@) == Some(str_json(d.decision_id@))
            &&& jget(p, "domain_model_hash"@) == Some(str_json(declared))
            &&& jget(p, "execution_constraints"@) == Some(constraints_of(d))
            &&& jget(p, "invocation_id"@) == Some(str_json(inv))
            &&& jget(p, "operation"@) == Some(str_json(op))
            &&& jget(p, "resource"@) == Some(str_json(res))
            &&& jget(p, "work_request_id"@) == Some(str_json(w))
        }),
{
    reveal_strlit("authority_decision_id");
    reveal_strlit("domain_model_hash");
    reveal_strlit("execution_constraints");
    reveal_strlit("grant_id");
    reveal_strlit("invocation_id");
    reveal_strlit("namespace");
    reveal_strlit("operation");
    reveal_strlit("resource");
    reveal_strlit("work_request_id");
    let (op, res) = operation_and_resource_of(d.operation);
    let m1 = seq![
        ("authority_decision_id"@, str_json(d.decision_id@)),
        ("domain_model_hash"@, str_json(declared)),
        ("execution_constraints"@, constraints_of(d)),
    ];
    let tail = seq![
        ("invocation_id"@, str_json(inv)),
        ("namespace"@, str_json(crate::envelope::NAMESPACE@)),
        ("operation"@, str_json(op)),
        ("resource"@, str_json(res)),
        ("work_request_id"@, str_json(w)),
    ];
    let m2 = match meaningful_text(grant) {
        Some(g) => m1.push(("grant_id"@, str_json(g))),
        None => m1,
    };
    let m = m2 + tail;
    let n = m2.len() as int;
    assert(invocation_payload(d, w, declared, grant, inv) == JsonView::Object(m));
    assert(m[0] == ("authority_decision_id"@, str_json(d.decision_id@)));
    assert(m[1] == ("domain_model_hash"@, str_json(declared)));
    assert(m[2] == ("execution_constraints"@, constraints_of(d)));
    assert(m[n] == ("invocation_id"@, str_json(inv)));
    assert(m[n + 1].0 == "namespace"@);
    assert(m[n + 2] == ("operation"@, str_json(op)));
    assert(m[n + 3] == ("resource"@, str_json(res)));
    assert(m[n + 4] == ("work_request_id"@, str_json(w)));
    assert(n == 3 ==> meaningful_text(grant) is None);
    assert(n == 4 ==> m[3].0 == "grant_id"@);
    assert(n == 3 || n == 4);
    crate::json::lemma_jget_member(m, "authority_decision_id"@, 0);
    assert(m[0].0.len() != "domain_model_hash"@.len());
    crate::json::lemma_jget_member(m, "domain_model_hash"@, 1);
    assert(m[0].0[0] != "execution_constraints"@[0]);
    assert(m[1].0.len() != "execution_constraints"@.len());
    crate::json::lemma_jget_member(m, "execution_constraints"@, 2);
    assert forall|j: int| 0 <= j < n implies m[j].0 != "invocation_id"@ by {
        assert(m[j].0.len() != "invocation_id"@.len());
    }
    crate::json::lemma_jget_member(m, "invocation_id"@, n);
    assert forall|j: int| 0 <= j < n + 2 implies m[j].0 != "operation"@ by {
        assert(m[j].0.len() != "operation"@.len() || m[j].0[0] != 'o');
    }
    crate::json::lemma_jget_member(m, "operation"@, n + 2);
    assert forall|j: int| 0 <= j < n + 3 implies m[j].0 != "resource"@ by {
        assert(m[j].0.len() != "resource"@.len() || m[j].0[0] != 'r');
    }
    crate::json::lemma_jget_member(m, "resource"@, n + 3);
    assert forall|j: int| 0 <= j < n + 4 implies m[j].0 != "work_request_id"@ by {
        assert(m[j].0.len() != "work_request_id"@.len() || m[j].0[0] != 'w');
    }
    crate::json::lemma_jget_member(m, "work_request_id"@, n + 4);
}

/// What emission produces, admission accepts: an invocation emitted under
/// an allowing decision passes every gate of the execution side's admission
/// with the same local model, which records the emitted identity triple,
/// operation, resource and event id. (A blank or placeholder decision id or
/// invocation id, or a blank operation or resource, is refused there.)
pub proof fn law_emitted_invocation_is_admitted(
    d: AuthorityDecision,
    work_request_id: Seq<char>,
    declared: Seq<char>,
    local: Seq<char>,
    parent_event_id: Seq<char>,
    grant: Option<Seq<char>>,
    invocation_id: Seq<char>,
    event_id: Seq<char>,
    occurred_at: Seq<char>,
)
    requires
        emission_refusal(d, work_request_id, declared, local, parent_event_id) is None,
        identity_check("invocation_id"@, invocation_id) is Ok,
        identity_check("authority_decision_id"@, d.decision_id@) is Ok,
        trim(operation_and_resource_of(d.operation).0).len() > 0,
        trim(operation_and_resource_of(d.operation).1).len() > 0,
    ensures
        admission_of(
            authorized_invocation_of(d, work_request_id, declared, parent_event_id, grant, invocation_id, event_id, occurred_at).envelope,
            local,
        ) == Ok::<AdmissionView, BoundaryErrorView>(
            AdmissionView {
                work_request_id: trim(work_request_id),
                invocation_id: trim(invocation_id),
                authority_decision_id: trim(d.decision_id@),
                operation: trim(operation_and_resource_of(d.operation).0),
                resource: trim(operation_and_resource_of(d.operation).1),
                event_id,
            },
        ),
{
    let w = trim(work_request_id);
    let (op, res) = operation_and_resource_of(d.operation);
    let p = invocation_payload(d, w, declared, grant, invocation_id);
    let env = authorized_invocation_of(d, work_request_id, declared, parent_event_id, grant, invocation_id, event_id, occurred_at).envelope;
    law_no_invocation_without_allow(d, work_request_id, declared, local, parent_event_id, grant, invocation_id, event_id, occurred_at);
    lemma_invocation_payload_members(d, w, declared, grant, invocation_id);
    reveal_strlit("event_id");
    reveal_strlit("event_type");
    reveal_strlit("idempotency_key");
    reveal_strlit("occurred_at");
    reveal_strlit("payload");
    reveal_strlit("provenance");
    reveal_strlit("schema_version");
    reveal_strlit("source_agent");
    reveal_strlit("sea-forge");
    reveal_strlit("swe-seed");
    reveal_strlit("swe_seed");
    reveal_strlit("context-kernel");
    reveal_strlit("context_kernel");
    let m = match env {
        JsonView::Object(m) => m,
        _ => Seq::empty(),
    };
    assert(m[0] == ("event_id"@, str_json(event_id)));
    assert(m[1] == ("event_type"@, str_json(AUTHORIZED_INVOCATION@)));
    assert(m[4] == ("payload"@, p));
    assert(m[6] == ("schema_version"@, str_json(crate::envelope::SCHEMA_VERSION@)));
    assert(m[7] == ("source_agent"@, str_json("sea-forge"@)));
    crate::json::lemma_jget_member(m, "event_id"@, 0);
    assert(m[0].0.len() != "event_type"@.len());
    crate::json::lemma_jget_member(m, "event_type"@, 1);
    assert forall|j: int| 0 <= j < 4 implies m[j].0 != "payload"@ by {
        assert(m[j].0.len() != "payload"@.len());
    }
    crate::json::lemma_jget_member(m, "payload"@, 4);
    assert forall|j: int| 0 <= j < 6 implies m[j].0 != "schema_version"@ by {
        assert(m[j].0.len() != "schema_version"@.len());
    }
    crate::json::lemma_jget_member(m, "schema_version"@, 6);
    assert forall|j: int| 0 <= j < 7 implies m[j].0 != "source_agent"@ by {
        assert(m[j].0.len() != "source_agent"@.len() || m[j].0[0] != 's');
    }
    crate::json::lemma_jget_member(m, "source_agent"@, 7);
    assert("sea-forge"@.len() != "swe-seed"@.len() && "sea-forge"@.len() != "swe_seed"@.len());
    assert("sea-forge"@.len() != "context-kernel"@.len() && "sea-forge"@.len() != "context_kernel"@.len());
    assert(crate::envelope::canonical_agent_of("sea-forge"@) == Some("sea_forge"@));
    assert(crate::envelope::producer_fault(env, AUTHORIZED_INVOCATION@, "sea_forge"@) is None);
    assert(envelope_producer_fault(env, AUTHORIZED_INVOCATION@, "sea_forge"@) is None);
    assert(crate::envelope::declared_model_hash(env) == Some(declared));
    assert(model_binding_fault(env, local) is None);
    crate::text::lemma_trim_idempotent(work_request_id);
    crate::text::lemma_trim_idempotent(invocation_id);
    crate::text::lemma_trim_idempotent(d.decision_id@);
    crate::text::lemma_trim_idempotent(op);
    crate::text::lemma_trim_idempotent(res);
    assert(payload_text(p, "work_request_id"@) == Some(w));
    assert(payload_text(p, "invocation_id"@) == Some(trim(invocation_id)));
    assert(payload_text(p, "authority_decision_id"@) == Some(trim(d.decision_id@)));
    assert(payload_text(p, "operation"@) == Some(trim(op)));
    assert(payload_text(p, "resource"@) == Some(trim(res)));
    assert(admit_missing(p) =~= Seq::<Seq<char>>::empty());
    assert(identity_check("work_request_id"@, w) is Ok);
    assert(identity_check("invocation_id"@, trim(invocation_id)) is Ok);
    assert(identity_check("authority_decision_id"@, trim(d.decision_id@)) is Ok);
    assert(causal_parents_of(env).len() > 0);
}


/// A refused admission changes nothing, and settling an observation never
/// touches the slots or bindings: no slot's generation moves.
pub proof fn law_refusals_and_settlements_keep_the_slots(l: LedgerView, env: JsonView, obs: JsonView, local: Seq<char>)
    ensures
        admit_outcome(l, env, local).0 is Err ==> admit_outcome(l, env, local).1 == l,
        settle_outcome(l, obs, local).1.slots == l.slots,
        settle_outcome(l, obs, local).1.bindings == l.bindings,
        settle_outcome(l, obs, local).0 is Err ==> settle_outcome(l, obs, local).1 == l,
{
}


/// An emitted invocation admitted by a fresh ledger opens the first
/// generation of its slot (under the conditions of
/// `law_emitted_invocation_is_admitted`).
pub proof fn law_emitted_invocation_opens_the_first_generation(
    d: AuthorityDecision,
    work_request_id: Seq<char>,
    declared: Seq<char>,
    local: Seq<char>,
    parent_event_id: Seq<char>,
    grant: Option<Seq<char>>,
    invocation_id: Seq<char>,
    event_id: Seq<char>,
    occurred_at: Seq<char>,
)
    requires
        emission_refusal(d, work_request_id, declared, local, parent_event_id) is None,
        identity_check("invocation_id"@, invocation_id) is Ok,
        identity_check("authority_decision_id"@, d.decision_id@) is Ok,
        trim(operation_and_resource_of(d.operation).0).len() > 0,
        trim(operation_and_resource_of(d.operation).1).len() > 0,
    ensures
        ({
            let fresh = LedgerView {
                slots: Seq::empty(),
                bindings: Seq::empty(),
                settled_event_ids: Seq::empty(),
                settled_idempotency_keys: Seq::empty(),
            };
            let env = authorized_invocation_of(d, work_request_id, declared, parent_event_id, grant, invocation_id, event_id, occurred_at).envelope;
            &&& admit_outcome(fresh, env, local).0 == Ok::<nat, BoundaryErrorView>(1)
            &&& current_generation_of(
                admit_outcome(fresh, env, local).1,
                trim(work_request_id),
                trim(operation_and_resource_of(d.operation).0),
                trim(operation_and_resource_of(d.operation).1),
            ) == Some(1nat)
        }),
{
    law_emitted_invocation_is_admitted(d, work_request_id, declared, local, parent_event_id, grant, invocation_id, event_id, occurred_at);
    let fresh = LedgerView {
        slots: Seq::empty(),
        bindings: Seq::empty(),
        settled_event_ids: Seq::empty(),
        settled_idempotency_keys: Seq::empty(),
    };
    let env = authorized_invocation_of(d, work_request_id, declared, parent_event_id, grant, invocation_id, event_id, occurred_at).envelope;
    let f = admission_of(env, local)->Ok_0;
    assert(find_binding(fresh.bindings, f.invocation_id) is None);
    assert(find_slot(fresh.slots, slot_key_text(f.work_request_id, f.operation, f.resource)) is None);
    let l2 = admit_outcome(fresh, env, local).1;
    assert(l2.slots.len() == 1);
    assert(l2.slots[0].key == slot_key_text(f.work_request_id, f.operation, f.resource));
    assert(l2.slots[0].invocations.len() == 1);
    assert(l2.slots.drop_last() =~= Seq::<SlotView>::empty());
    assert(find_slot(l2.slots.drop_last(), slot_key_text(f.work_request_id, f.operation, f.resource)) is None);
    assert(find_slot(l2.slots, slot_key_text(f.work_request_id, f.operation, f.resource)) == Some(0int));
}


/// An admission is remembered: an envelope whose invocation the ledger holds
/// at generation `g` is admitted again at `g` with nothing changed; and
/// admitting the envelope of any other invocation, into its slot or another,
/// or settling any observation, keeps it so. (With
/// `law_readmission_is_idempotent`, which gives the first admission's
/// generation, this carries over any sequence of later calls.)
pub proof fn law_admission_is_remembered(
    l: LedgerView,
    env: JsonView,
    other: JsonView,
    obs: JsonView,
    local: Seq<char>,
    g: nat,
)
    requires
        admission_of(env, local) matches Ok(f) && readmitted_generation(l, f.invocation_id, f.event_id) == Some(g),
    ensures
        admit_outcome(l, env, local) == (Ok::<nat, BoundaryErrorView>(g), l),
        (admission_of(other, local) matches Ok(fo) && fo.invocation_id != admission_of(env, local)->Ok_0.invocation_id)
            ==> readmitted_generation(
            admit_outcome(l, other, local).1,
            admission_of(env, local)->Ok_0.invocation_id,
            admission_of(env, local)->Ok_0.event_id,
        ) == Some(g),
        readmitted_generation(
            settle_outcome(l, obs, local).1,
            admission_of(env, local)->Ok_0.invocation_id,
            admission_of(env, local)->Ok_0.event_id,
        ) == Some(g),
{
    let f = admission_of(env, local)->Ok_0;
    if let Ok(fo) = admission_of(other, local) {
        if fo.invocation_id != f.invocation_id && readmitted_generation(l, fo.invocation_id, fo.event_id) is None {
            let l2 = admit_new(l, fo).1;
            assert(admit_outcome(l, other, local).1 == l2);
            lemma_other_admission_keeps_binding(l, fo, f.invocation_id);
            assert(readmitted_generation(l2, f.invocation_id, f.event_id) == Some(g));
        }
    }
}

} // verus!
