//! Operational settlement return: a settled execution observation is judged
//! against the settlement criteria declared on the governed request (never
//! by exit status alone) and projected into one canonical OperationalSettlement
//! envelope, which must pass the full wire battery before it is returned.
use vstd::prelude::*;
use crate::envelope::{
    is_pseudo_identity, verify_model_identity, meaningful_text, opt_string_view, identity_check,
    check_identity_string, causal_parents, causal_parents_of, strings_view, is_sha256_hex,
    is_sha256_hex_text, NAMESPACE, SCHEMA_VERSION,
};
use crate::governed_execution_boundary::{
    BoundaryError, BoundaryErrorView, ObservationOutcome, OutcomeView, static_strs_view,
    boundary_message, check_envelope_producer, check_payload_model_binding, envelope_producer_fault,
    model_binding_fault, is_execution_status,
};
use crate::json::{Json, JsonView, get, get_str, jget, jstr, is_object, is_object_exec, opt_view};
use crate::text::{owned, str_eq, trim, trim_exec, concat2, concat3, contains, is_whitespace};
use vstd::string::StrSliceExecFns;

verus! {

/// Event type owned exclusively by `sea_forge` at the settlement-return edge.
pub const OPERATIONAL_SETTLEMENT: &'static str = "OperationalSettlement";

/// The kernel's settlement vocabulary.
#[derive(Clone, Copy, Debug, PartialEq, Eq, Structural)]
pub enum SettlementStatus {
    Accepted,
    Rejected,
    Escalated,
}

/// Why an operational settlement could not be evaluated, emitted, or
/// accepted back as canonical wire.
#[derive(Debug, Clone, PartialEq, Eq)]
pub enum SettlementReturnError {
    /// A duplicate delivery settles nothing and evaluates nothing.
    NothingSettled,
    /// No declared criteria, or a blank one among them.
    OpaqueCriteria,
    /// A required identity field is missing, blank, or a placeholder.
    PlaceholderField { field: String },
    /// Declared model hash is malformed or a known pseudo-identity.
    PlaceholderIdentity { got: String },
    /// Declared model hash differs from the locally resolved canonical model.
    DomainDrift { declared: String, local: String },
    /// Not a decodable canonical v1 envelope object.
    MalformedEnvelope(String),
    /// Right shape, wrong event type.
    WrongEventType { expected: &'static str, got: String },
    /// `source_agent` outside the canonical vocabulary entirely.
    UnknownAgent { got: String },
    /// A known component forging another's authoritative event.
    NotAuthoritative { authoritative: &'static str, got: String },
    /// Required payload fields absent, empty, or of the wrong shape.
    OpaquePayload { missing: Vec<&'static str> },
    /// `execution_status` outside the governed vocabulary.
    InvalidExecutionStatus { got: String },
    /// `operational_settlement_status` outside the governed wire vocabulary.
    InvalidSettlementStatus { got: String },
    /// An optional-but-typed field arrived with the wrong shape.
    InvalidOptionalField { field: &'static str },
    /// An evidence reference is empty, whitespace-bearing, or not a digest
    /// where it claims to be one.
    InvalidEvidenceRef { got: String },
    /// The payload namespace is missing or not the canonical one.
    NamespaceMismatch { expected: String, got: String },
    /// `domain_model_ref.model_hash` disagrees with the declared identity.
    RefIdentityMismatch { declared: String, ref_hash: String },
    /// The derivation does not record its causal chain.
    CausalityMissing { expected: Vec<String>, recorded: Vec<String> },
    /// A system source an emission draws on failed: the random source or
    /// the clock.
    SystemUnavailable(String),
}

pub enum SettlementErrorView {
    NothingSettled,
    OpaqueCriteria,
    PlaceholderField { field: Seq<char> },
    PlaceholderIdentity { got: Seq<char> },
    DomainDrift { declared: Seq<char>, local: Seq<char> },
    MalformedEnvelope(Seq<char>),
    WrongEventType { expected: Seq<char>, got: Seq<char> },
    UnknownAgent { got: Seq<char> },
    NotAuthoritative { authoritative: Seq<char>, got: Seq<char> },
    OpaquePayload { missing: Seq<Seq<char>> },
    InvalidExecutionStatus { got: Seq<char> },
    InvalidSettlementStatus { got: Seq<char> },
    InvalidOptionalField { field: Seq<char> },
    InvalidEvidenceRef { got: Seq<char> },
    NamespaceMismatch { expected: Seq<char>, got: Seq<char> },
    RefIdentityMismatch { declared: Seq<char>, ref_hash: Seq<char> },
    CausalityMissing { expected: Seq<Seq<char>>, recorded: Seq<Seq<char>> },
    SystemUnavailable(Seq<char>),
}

impl View for SettlementReturnError {
    type V = SettlementErrorView;

    open spec fn view(&self) -> SettlementErrorView {
        match self {
            SettlementReturnError::NothingSettled => SettlementErrorView::NothingSettled,
            SettlementReturnError::OpaqueCriteria => SettlementErrorView::OpaqueCriteria,
            SettlementReturnError::PlaceholderField { field } => SettlementErrorView::PlaceholderField {
                field: field@,
            },
            SettlementReturnError::PlaceholderIdentity { got } =>
                SettlementErrorView::PlaceholderIdentity { got: got@ },
            SettlementReturnError::DomainDrift { declared, local } => SettlementErrorView::DomainDrift {
                declared: declared@,
                local: local@,
            },
            SettlementReturnError::MalformedEnvelope(m) => SettlementErrorView::MalformedEnvelope(m@),
            SettlementReturnError::WrongEventType { expected, got } =>
                SettlementErrorView::WrongEventType { expected: expected@, got: got@ },
            SettlementReturnError::UnknownAgent { got } => SettlementErrorView::UnknownAgent { got: got@ },
            SettlementReturnError::NotAuthoritative { authoritative, got } =>
                SettlementErrorView::NotAuthoritative { authoritative: authoritative@, got: got@ },
            SettlementReturnError::OpaquePayload { missing } => SettlementErrorView::OpaquePayload {
                missing: static_strs_view(missing@),
            },
            SettlementReturnError::InvalidExecutionStatus { got } =>
                SettlementErrorView::InvalidExecutionStatus { got: got@ },
            SettlementReturnError::InvalidSettlementStatus { got } =>
                SettlementErrorView::InvalidSettlementStatus { got: got@ },
            SettlementReturnError::InvalidOptionalField { field } =>
                SettlementErrorView::InvalidOptionalField { field: field@ },
            SettlementReturnError::InvalidEvidenceRef { got } =>
                SettlementErrorView::InvalidEvidenceRef { got: got@ },
            SettlementReturnError::NamespaceMismatch { expected, got } =>
                SettlementErrorView::NamespaceMismatch { expected: expected@, got: got@ },
            SettlementReturnError::RefIdentityMismatch { declared, ref_hash } =>
                SettlementErrorView::RefIdentityMismatch { declared: declared@, ref_hash: ref_hash@ },
            SettlementReturnError::CausalityMissing { expected, recorded } =>
                SettlementErrorView::CausalityMissing {
                    expected: strings_view(expected@),
                    recorded: strings_view(recorded@),
                },
            SettlementReturnError::SystemUnavailable(m) => SettlementErrorView::SystemUnavailable(m@),
        }
    }
}

/// The human-readable text of a settlement-return refusal.
pub open spec fn settlement_message(e: SettlementErrorView) -> Seq<char> {
    match e {
        SettlementErrorView::NothingSettled => "nothing settled: a duplicate delivery evaluates and projects nothing"@,
        SettlementErrorView::OpaqueCriteria => "declared settlement criteria absent or blank"@,
        SettlementErrorView::PlaceholderField { field } => field + " is a placeholder or blank identity"@,
        SettlementErrorView::PlaceholderIdentity { got } => "fallback/placeholder pseudo-hash rejected as domain identity: "@
            + got,
        SettlementErrorView::DomainDrift { declared, local } => "domain model drift: envelope declares "@ + declared
            + ", local canonical model is "@ + local,
        SettlementErrorView::MalformedEnvelope(m) => "malformed canonical envelope: "@ + m,
        SettlementErrorView::WrongEventType { expected, got } => "expected "@ + expected + " event, got '"@ + got + "'"@,
        SettlementErrorView::UnknownAgent { got } => "source_agent outside the canonical vocabulary: "@ + got,
        SettlementErrorView::NotAuthoritative { authoritative, got } => "event may only be produced by '"@ + authoritative
            + "', forge attempted by '"@ + got + "'"@,
        SettlementErrorView::OpaquePayload { missing } =>
            "opaque OperationalSettlement payload rejected — missing/invalid fields: "@ + crate::text::joined(
                missing,
                ", "@,
            ),
        SettlementErrorView::InvalidExecutionStatus { got } => "execution_status outside the governed vocabulary: "@ + got,
        SettlementErrorView::InvalidSettlementStatus { got } =>
            "operational_settlement_status outside the governed vocabulary: "@ + got,
        SettlementErrorView::InvalidOptionalField { field } => "optional field "@ + field + " has the wrong shape"@,
        SettlementErrorView::InvalidEvidenceRef { got } => "malformed evidence reference: "@ + crate::text::debug_quoted(got),
        SettlementErrorView::NamespaceMismatch { expected, got } => "payload namespace must be "@
            + crate::text::debug_quoted(expected) + ", got "@ + crate::text::debug_quoted(got),
        SettlementErrorView::RefIdentityMismatch { declared, ref_hash } => "domain_model_ref names "@ + ref_hash
            + " but the envelope declares "@ + declared,
        SettlementErrorView::CausalityMissing { expected, recorded } =>
            "operational settlement does not cite its actual invocation chain: expected "@ + crate::text::debug_list(
                expected,
            ) + ", recorded "@ + crate::text::debug_list(recorded),
        SettlementErrorView::SystemUnavailable(m) => m,
    }
}

impl SettlementReturnError {
    /// The refusal as text.
    pub fn message(&self) -> (r: String)
        ensures
            r@ == settlement_message(self@),
    {
        match self {
            SettlementReturnError::NothingSettled => crate::text::owned(
                "nothing settled: a duplicate delivery evaluates and projects nothing",
            ),
            SettlementReturnError::OpaqueCriteria => crate::text::owned("declared settlement criteria absent or blank"),
            SettlementReturnError::PlaceholderField { field } => crate::text::concat2(
                field.as_str(),
                " is a placeholder or blank identity",
            ),
            SettlementReturnError::PlaceholderIdentity { got } => crate::text::concat2(
                "fallback/placeholder pseudo-hash rejected as domain identity: ",
                got.as_str(),
            ),
            SettlementReturnError::DomainDrift { declared, local } => {
                let mut m = crate::text::concat3(
                    "domain model drift: envelope declares ",
                    declared.as_str(),
                    ", local canonical model is ",
                );
                m.append(local.as_str());
                m
            },
            SettlementReturnError::MalformedEnvelope(m) => crate::text::concat2("malformed canonical envelope: ", m.as_str()),
            SettlementReturnError::WrongEventType { expected, got } => {
                let mut m = crate::text::concat3("expected ", expected, " event, got '");
                m.append(got.as_str());
                m.append("'");
                m
            },
            SettlementReturnError::UnknownAgent { got } => crate::text::concat2(
                "source_agent outside the canonical vocabulary: ",
                got.as_str(),
            ),
            SettlementReturnError::NotAuthoritative { authoritative, got } => {
                let mut m = crate::text::concat3("event may only be produced by '", authoritative, "', forge attempted by '");
                m.append(got.as_str());
                m.append("'");
                m
            },
            SettlementReturnError::OpaquePayload { missing } => {
                let names = crate::governed_execution_boundary::static_strs_owned(missing);
                let joined = crate::text::join_exec(&names, ", ");
                crate::text::concat2(
                    "opaque OperationalSettlement payload rejected — missing/invalid fields: ",
                    joined.as_str(),
                )
            },
            SettlementReturnError::InvalidExecutionStatus { got } => crate::text::concat2(
                "execution_status outside the governed vocabulary: ",
                got.as_str(),
            ),
            SettlementReturnError::InvalidSettlementStatus { got } => crate::text::concat2(
                "operational_settlement_status outside the governed vocabulary: ",
                got.as_str(),
            ),
            SettlementReturnError::InvalidOptionalField { field } => crate::text::concat3(
                "optional field ",
                field,
                " has the wrong shape",
            ),
            SettlementReturnError::InvalidEvidenceRef { got } => {
                let q = crate::text::debug_str(got.as_str());
                crate::text::concat2("malformed evidence reference: ", q.as_str())
            },
            SettlementReturnError::NamespaceMismatch { expected, got } => {
                let e = crate::text::debug_str(expected.as_str());
                let g = crate::text::debug_str(got.as_str());
                let mut m = crate::text::concat3("payload namespace must be ", e.as_str(), ", got ");
                m.append(g.as_str());
                m
            },
            SettlementReturnError::RefIdentityMismatch { declared, ref_hash } => {
                let mut m = crate::text::concat3("domain_model_ref names ", ref_hash.as_str(), " but the envelope declares ");
                m.append(declared.as_str());
                m
            },
            SettlementReturnError::CausalityMissing { expected, recorded } => {
                let e = crate::text::debug_list_exec(expected);
                let r = crate::text::debug_list_exec(recorded);
                let mut m = crate::text::concat3(
                    "operational settlement does not cite its actual invocation chain: expected ",
                    e.as_str(),
                    ", recorded ",
                );
                m.append(r.as_str());
                m
            },
            SettlementReturnError::SystemUnavailable(m) => m.clone(),
        }
    }
}

/// The boundary's refusals re-expressed at this edge; refusals that arise
/// only inside the invocation ledger fail closed as malformed.
pub open spec fn from_boundary_view(e: BoundaryErrorView) -> SettlementErrorView {
    match e {
        BoundaryErrorView::PlaceholderField { field } => SettlementErrorView::PlaceholderField { field },
        BoundaryErrorView::PlaceholderIdentity { got } => SettlementErrorView::PlaceholderIdentity { got },
        BoundaryErrorView::DomainDrift { declared, local } => SettlementErrorView::DomainDrift {
            declared,
            local,
        },
        BoundaryErrorView::MalformedEnvelope(m) => SettlementErrorView::MalformedEnvelope(m),
        BoundaryErrorView::WrongEventType { expected, got } => SettlementErrorView::WrongEventType {
            expected,
            got,
        },
        BoundaryErrorView::UnknownAgent { got } => SettlementErrorView::UnknownAgent { got },
        BoundaryErrorView::NotAuthoritative { authoritative, got } =>
            SettlementErrorView::NotAuthoritative { authoritative, got },
        BoundaryErrorView::OpaquePayload { missing } => SettlementErrorView::OpaquePayload { missing },
        BoundaryErrorView::InvalidExecutionStatus { got } =>
            SettlementErrorView::InvalidExecutionStatus { got },
        BoundaryErrorView::InvalidOptionalField { field } =>
            SettlementErrorView::InvalidOptionalField { field },
        BoundaryErrorView::CausalityMissing { expected_parent, recorded } =>
            SettlementErrorView::CausalityMissing { expected: seq![expected_parent], recorded },
        other => SettlementErrorView::MalformedEnvelope(
            "unreachable boundary condition: "@ + boundary_message(other),
        ),
    }
}

impl SettlementReturnError {
    /// The boundary refusal `e` as a settlement-return refusal.
    pub fn from_boundary(e: BoundaryError) -> (r: SettlementReturnError)
        ensures
            r@ == from_boundary_view(e@),
    {
        match e {
            BoundaryError::PlaceholderField { field } => SettlementReturnError::PlaceholderField { field },
            BoundaryError::PlaceholderIdentity { got } => SettlementReturnError::PlaceholderIdentity { got },
            BoundaryError::DomainDrift { declared, local } => SettlementReturnError::DomainDrift {
                declared,
                local,
            },
            BoundaryError::MalformedEnvelope(m) => SettlementReturnError::MalformedEnvelope(m),
            BoundaryError::WrongEventType { expected, got } => SettlementReturnError::WrongEventType {
                expected,
                got,
            },
            BoundaryError::UnknownAgent { got } => SettlementReturnError::UnknownAgent { got },
            BoundaryError::NotAuthoritative { authoritative, got } =>
                SettlementReturnError::NotAuthoritative { authoritative, got },
            BoundaryError::OpaquePayload { missing } => SettlementReturnError::OpaquePayload { missing },
            BoundaryError::InvalidExecutionStatus { got } =>
                SettlementReturnError::InvalidExecutionStatus { got },
            BoundaryError::InvalidOptionalField { field } =>
                SettlementReturnError::InvalidOptionalField { field },
            BoundaryError::CausalityMissing { expected_parent, recorded } => {
                let mut expected: Vec<String> = Vec::new();
                expected.push(expected_parent);
                proof {
                    assert(strings_view(expected@) =~= seq![expected@[0]@]);
                }
                SettlementReturnError::CausalityMissing { expected, recorded }
            },
            other => {
                let m = other.message();
                SettlementReturnError::MalformedEnvelope(
                    concat2("unreachable boundary condition: ", m.as_str()),
                )
            },
        }
    }
}


// ---------------------------------------------------------------------------
// Evaluation: observed effects against the declared criteria
// ---------------------------------------------------------------------------

/// The outcome of judging observed effects against the declared criteria.
pub struct SettlementEvaluation {
    pub status: SettlementStatus,
    /// Durable why-strings.
    pub basis: Vec<String>,
    pub satisfied_criteria: Vec<String>,
    pub unsatisfied_criteria: Vec<String>,
}

pub struct EvaluationView {
    pub status: SettlementStatus,
    pub basis: Seq<Seq<char>>,
    pub satisfied_criteria: Seq<Seq<char>>,
    pub unsatisfied_criteria: Seq<Seq<char>>,
}

impl View for SettlementEvaluation {
    type V = EvaluationView;

    open spec fn view(&self) -> EvaluationView {
        EvaluationView {
            status: self.status,
            basis: strings_view(self.basis@),
            satisfied_criteria: strings_view(self.satisfied_criteria@),
            unsatisfied_criteria: strings_view(self.unsatisfied_criteria@),
        }
    }
}

/// The kernel's rejection basis for a non-completed execution status.
pub open spec fn rejection_basis(status: Seq<char>) -> Seq<char> {
    if status == "spawn_failed"@ {
        "spawn_failed"@
    } else if status == "timed_out"@ {
        "timed_out"@
    } else if status == "sandbox_violation"@ {
        "jail_violation"@
    } else {
        "suspected_jail_violation"@
    }
}

/// Each criterion (trimmed) graded by its evaluator verdict, in order: the
/// satisfied ones, the unsatisfied ones, and one basis entry per criterion.
pub open spec fn graded(criteria: Seq<Seq<char>>, verdicts: Seq<Option<bool>>) -> (Seq<Seq<char>>, Seq<Seq<char>>, Seq<Seq<char>>)
    decreases criteria.len(),
{
    if criteria.len() == 0 {
        (Seq::empty(), Seq::empty(), Seq::empty())
    } else {
        let (sat, unsat, basis) = graded(criteria.drop_last(), verdicts.take(criteria.len() - 1));
        let c = trim(criteria.last());
        if verdicts[criteria.len() - 1] == Some(true) {
            (sat.push(c), unsat, basis.push("criterion_satisfied:"@ + c))
        } else {
            (sat, unsat.push(c), basis.push("criterion_unsatisfied:"@ + c))
        }
    }
}

pub open spec fn has_blank(criteria: Seq<Seq<char>>) -> bool {
    exists|i: int| 0 <= i < criteria.len() && trim(#[trigger] criteria[i]).len() == 0
}

/// The judgement of a settled observation against the declared criteria,
/// where `verdicts[i]` is the settlement evaluator's verdict on criterion `i`
/// (trimmed) over the canonical text of the observed effects. A completed
/// execution is accepted only when every criterion is attested.
pub open spec fn evaluation_of(outcome: OutcomeView, criteria: Seq<Seq<char>>, verdicts: Seq<Option<bool>>) -> Result<EvaluationView, SettlementErrorView> {
    match outcome {
        OutcomeView::DuplicateDelivery => Err(SettlementErrorView::NothingSettled),
        OutcomeView::Settled { execution_status, .. } => if criteria.len() == 0 || has_blank(criteria) {
            Err(SettlementErrorView::OpaqueCriteria)
        } else if execution_status != "completed"@ {
            Ok(
                EvaluationView {
                    status: SettlementStatus::Rejected,
                    basis: seq![rejection_basis(execution_status)],
                    satisfied_criteria: Seq::empty(),
                    unsatisfied_criteria: criteria.map_values(|c: Seq<char>| trim(c)),
                },
            )
        } else {
            let (sat, unsat, basis) = graded(criteria, verdicts);
            Ok(
                EvaluationView {
                    status: if unsat.len() == 0 {
                        SettlementStatus::Accepted
                    } else {
                        SettlementStatus::Rejected
                    },
                    basis: basis.push("status_completed"@),
                    satisfied_criteria: sat,
                    unsatisfied_criteria: unsat,
                },
            )
        },
    }
}

pub open spec fn evaluation_result_view(r: Result<SettlementEvaluation, SettlementReturnError>) -> Result<EvaluationView, SettlementErrorView> {
    match r {
        Ok(v) => Ok(v@),
        Err(e) => Err(e@),
    }
}

/// The canonical text digests are taken over: compact, sorted keys, no
/// `signature` members.
pub fn canonical_payload_json(payload: &Json) -> (r: String)
    ensures
        r@ == crate::json::render(payload@, true),
{
    crate::json::render_exec(payload, true)
}

/// Judge one settled observation against the declared criteria; `verdicts`
/// holds the settlement evaluator's verdict on each criterion (trimmed) over
/// the canonical text of the observed effects.
pub fn evaluate_operational_settlement(
    outcome: &ObservationOutcome,
    declared_criteria: &Vec<String>,
    verdicts: &Vec<Option<bool>>,
) -> (r: Result<SettlementEvaluation, SettlementReturnError>)
    requires
        verdicts@.len() == declared_criteria@.len(),
    ensures
        evaluation_result_view(r) == evaluation_of(outcome@, strings_view(declared_criteria@), verdicts@),
{
    let ghost cv = strings_view(declared_criteria@);
    let execution_status = match outcome {
        ObservationOutcome::Settled { execution_status, .. } => execution_status,
        ObservationOutcome::DuplicateDelivery => {
            return Err(SettlementReturnError::NothingSettled);
        },
    };
    if declared_criteria.len() == 0 {
        return Err(SettlementReturnError::OpaqueCriteria);
    }
    let mut k: usize = 0;
    while k < declared_criteria.len()
        invariant
            outcome@ is Settled,
            cv == strings_view(declared_criteria@),
            k <= declared_criteria@.len(),
            forall|j: int| 0 <= j < k ==> trim(#[trigger] cv[j]).len() > 0,
        decreases declared_criteria@.len() - k,
    {
        if trim_exec(declared_criteria[k].as_str()).as_str().unicode_len() == 0 {
            proof {
                assert(cv[k as int] == declared_criteria@[k as int]@);
                assert(trim(cv[k as int]).len() == 0);
                assert(has_blank(cv));
            }
            return Err(SettlementReturnError::OpaqueCriteria);
        }
        k += 1;
    }
    proof {
        assert(!has_blank(cv));
    }
    let mut basis: Vec<String> = Vec::new();
    if !str_eq(execution_status.as_str(), "completed") {
        let b = if str_eq(execution_status.as_str(), "spawn_failed") {
            "spawn_failed"
        } else if str_eq(execution_status.as_str(), "timed_out") {
            "timed_out"
        } else if str_eq(execution_status.as_str(), "sandbox_violation") {
            "jail_violation"
        } else {
            "suspected_jail_violation"
        };
        basis.push(owned(b));
        let mut unsatisfied: Vec<String> = Vec::new();
        let mut i: usize = 0;
        while i < declared_criteria.len()
            invariant
                cv == strings_view(declared_criteria@),
                i <= declared_criteria@.len(),
                unsatisfied@.len() == i,
                forall|j: int| 0 <= j < i ==> (#[trigger] unsatisfied@[j])@ == trim(cv[j]),
            decreases declared_criteria@.len() - i,
        {
            unsatisfied.push(trim_exec(declared_criteria[i].as_str()));
            i += 1;
        }
        proof {
            assert(strings_view(basis@) =~= seq![rejection_basis(execution_status@)]);
            assert(strings_view(unsatisfied@) =~= cv.map_values(|c: Seq<char>| trim(c)));
        }
        let none: Vec<String> = Vec::new();
        proof {
            assert(strings_view(none@) =~= Seq::<Seq<char>>::empty());
        }
        return Ok(
            SettlementEvaluation {
                status: SettlementStatus::Rejected,
                basis,
                satisfied_criteria: none,
                unsatisfied_criteria: unsatisfied,
            },
        );
    }
    let mut satisfied: Vec<String> = Vec::new();
    let mut unsatisfied: Vec<String> = Vec::new();
    proof {
        assert(strings_view(satisfied@) =~= Seq::<Seq<char>>::empty());
        assert(strings_view(basis@) =~= Seq::<Seq<char>>::empty());
    }
    let mut i: usize = 0;
    while i < declared_criteria.len()
        invariant
            cv == strings_view(declared_criteria@),
            verdicts@.len() == declared_criteria@.len(),
            i <= declared_criteria@.len(),
            (strings_view(satisfied@), strings_view(unsatisfied@), strings_view(basis@)) == graded(
                cv.subrange(0, i as int),
                verdicts@.subrange(0, i as int),
            ),
        decreases declared_criteria@.len() - i,
    {
        let c = trim_exec(declared_criteria[i].as_str());
        let ghost s0 = strings_view(satisfied@);
        let ghost u0 = strings_view(unsatisfied@);
        let ghost b0 = strings_view(basis@);
        proof {
            assert(cv.subrange(0, i + 1).drop_last() =~= cv.subrange(0, i as int));
            assert(verdicts@.subrange(0, i + 1).take(i as int) =~= verdicts@.subrange(0, i as int));
        }
        let yes = match verdicts[i] {
            Some(true) => true,
            _ => false,
        };
        if yes {
            basis.push(concat2("criterion_satisfied:", c.as_str()));
            satisfied.push(c);
            proof {
                assert(strings_view(satisfied@) =~= s0.push(trim(cv[i as int])));
                assert(strings_view(unsatisfied@) =~= u0);
                assert(strings_view(basis@) =~= b0.push("criterion_satisfied:"@ + trim(cv[i as int])));
            }
        } else {
            basis.push(concat2("criterion_unsatisfied:", c.as_str()));
            unsatisfied.push(c);
            proof {
                assert(strings_view(satisfied@) =~= s0);
                assert(strings_view(unsatisfied@) =~= u0.push(trim(cv[i as int])));
                assert(strings_view(basis@) =~= b0.push("criterion_unsatisfied:"@ + trim(cv[i as int])));
            }
        }
        i += 1;
    }
    proof {
        assert(cv.subrange(0, declared_criteria@.len() as int) =~= cv);
        assert(verdicts@.subrange(0, declared_criteria@.len() as int) =~= verdicts@);
    }
    let ghost b1 = strings_view(basis@);
    basis.push(owned("status_completed"));
    proof {
        assert(strings_view(basis@) =~= b1.push("status_completed"@));
    }
    let status = if unsatisfied.len() == 0 {
        SettlementStatus::Accepted
    } else {
        SettlementStatus::Rejected
    };
    Ok(
        SettlementEvaluation {
            status,
            basis,
            satisfied_criteria: satisfied,
            unsatisfied_criteria: unsatisfied,
        },
    )
}


// ---------------------------------------------------------------------------
// The canonical wire battery
// ---------------------------------------------------------------------------

/// An evidence reference: `<kind>:<value>` with no whitespace once trimmed;
/// a `sha256:` reference carries a full lower-case digest.
pub open spec fn evidence_ref_ok(r: Seq<char>) -> bool {
    let t = trim(r);
    &&& t.len() > 0
    &&& !(exists|i: int| 0 <= i < t.len() && is_whitespace(#[trigger] t[i]))
    &&& (exists|i: int| 0 <= i < t.len() && #[trigger] t[i] == ':')
    &&& crate::text::starts_with(t, "sha256:"@) ==> is_sha256_hex_text(
        t.subrange("sha256:"@.len() as int, t.len() as int),
    )
}

pub fn validate_evidence_ref(r: &str) -> (res: Result<(), SettlementReturnError>)
    ensures
        res is Ok <==> evidence_ref_ok(r@),
        res matches Err(e) ==> e@ == (SettlementErrorView::InvalidEvidenceRef { got: r@ }),
{
    let t = trim_exec(r);
    let ts = t.as_str();
    let n = ts.unicode_len();
    let mut has_ws = false;
    let mut has_colon = false;
    let mut i: usize = 0;
    while i < n
        invariant
            n == ts@.len(),
            ts@ == trim(r@),
            i <= n,
            has_ws == (exists|j: int| 0 <= j < i && is_whitespace(#[trigger] ts@[j])),
            has_colon == (exists|j: int| 0 <= j < i && #[trigger] ts@[j] == ':'),
        decreases n - i,
    {
        let c = ts.get_char(i);
        if crate::text::is_whitespace_exec(c) {
            has_ws = true;
        }
        if c == ':' {
            has_colon = true;
        }
        i += 1;
    }
    if n == 0 || has_ws || !has_colon {
        return Err(SettlementReturnError::InvalidEvidenceRef { got: owned(r) });
    }
    match crate::text::strip_prefix_exec(ts, "sha256:") {
        Some(digest) => {
            if !is_sha256_hex(digest.as_str()) {
                return Err(SettlementReturnError::InvalidEvidenceRef { got: owned(r) });
            }
        },
        None => {},
    }
    Ok(())
}

/// A required member is present: not absent, not null, not a blank string.
pub open spec fn present(v: Option<JsonView>) -> bool {
    match v {
        None => false,
        Some(JsonView::Null) => false,
        Some(JsonView::Str(s)) => trim(s).len() > 0,
        Some(_) => true,
    }
}

/// The frozen required payload fields that are not present, in order.
pub open spec fn settlement_missing(p: JsonView) -> Seq<Seq<char>> {
    let m1 = if !present(jget(p, "work_request_id"@)) {
        seq!["work_request_id"@]
    } else {
        Seq::empty()
    };
    let m2 = if !present(jget(p, "authority_decision_id"@)) {
        m1.push("authority_decision_id"@)
    } else {
        m1
    };
    let m3 = if !present(jget(p, "execution_status"@)) {
        m2.push("execution_status"@)
    } else {
        m2
    };
    let m4 = if !present(jget(p, "observed_effects"@)) {
        m3.push("observed_effects"@)
    } else {
        m3
    };
    let m5 = if !present(jget(p, "operational_settlement_status"@)) {
        m4.push("operational_settlement_status"@)
    } else {
        m4
    };
    let m6 = if !present(jget(p, "evidence_refs"@)) {
        m5.push("evidence_refs"@)
    } else {
        m5
    };
    if !present(jget(p, "domain_model_ref"@)) {
        m6.push("domain_model_ref"@)
    } else {
        m6
    }
}

pub open spec fn or_empty(s: Option<Seq<char>>) -> Seq<char> {
    match s {
        Some(x) => x,
        None => Seq::empty(),
    }
}

/// The first malformed evidence reference, in order.
pub open spec fn evidence_fault(refs: Seq<JsonView>) -> Option<SettlementErrorView>
    decreases refs.len(),
{
    if refs.len() == 0 {
        None
    } else {
        match evidence_fault(refs.drop_last()) {
            Some(e) => Some(e),
            None => match refs.last() {
                JsonView::Str(s) => if evidence_ref_ok(s) {
                    None
                } else {
                    Some(SettlementErrorView::InvalidEvidenceRef { got: s })
                },
                _ => Some(SettlementErrorView::InvalidEvidenceRef { got: "<non-string ref>"@ }),
            },
        }
    }
}

/// A typed optional member with the wrong shape, in order.
pub open spec fn settlement_optional_fault(p: JsonView) -> Option<Seq<char>> {
    if jget(p, "case_id"@) is Some && !(jget(p, "case_id"@)->0 is Str) {
        Some("case_id"@)
    } else if jget(p, "run_id"@) is Some && !(jget(p, "run_id"@)->0 is Str) {
        Some("run_id"@)
    } else if jget(p, "transcript_ref"@) is Some && !(jget(p, "transcript_ref"@)->0 is Str) {
        Some("transcript_ref"@)
    } else if jget(p, "artifact_refs"@) is Some && !(jget(p, "artifact_refs"@)->0 is Array) {
        Some("artifact_refs"@)
    } else if jget(p, "failure_reason"@) is Some && !(jget(p, "failure_reason"@)->0 is Str) && !(jget(
        p,
        "failure_reason"@,
    )->0 is Object) {
        Some("failure_reason"@)
    } else {
        None
    }
}

/// What the wire battery concludes of an envelope.
pub enum WireVerdict {
    Pass,
    Fault(SettlementErrorView),
    /// A present required member of a type the battery does not read (a
    /// non-string status, a non-array `evidence_refs`): the battery stops.
    Unreadable,
}

pub open spec fn is_settlement_status(s: Seq<char>) -> bool {
    s == "accepted"@ || s == "rejected"@
}

/// The part of the battery after the presence and identity checks.
pub open spec fn wire_typed_checks(env: JsonView, p: JsonView) -> WireVerdict {
    let es = jstr(jget(p, "execution_status"@));
    let os = jstr(jget(p, "operational_settlement_status"@));
    let declared = or_empty(jstr(jget(p, "domain_model_hash"@)));
    if es is None {
        WireVerdict::Unreadable
    } else if !is_execution_status(es->0) {
        WireVerdict::Fault(SettlementErrorView::InvalidExecutionStatus { got: es->0 })
    } else if os is None {
        WireVerdict::Unreadable
    } else if !is_settlement_status(os->0) {
        WireVerdict::Fault(SettlementErrorView::InvalidSettlementStatus { got: os->0 })
    } else if !(jget(p, "observed_effects"@) matches Some(JsonView::Array(_))) && !(jget(
        p,
        "observed_effects"@,
    ) matches Some(JsonView::Object(_))) {
        WireVerdict::Fault(SettlementErrorView::OpaquePayload { missing: seq!["observed_effects"@] })
    } else if !(jget(p, "evidence_refs"@) matches Some(JsonView::Array(_))) {
        WireVerdict::Unreadable
    } else {
        let refs = jget(p, "evidence_refs"@)->0->Array_0;
        let model_ref = jget(p, "domain_model_ref"@);
        if refs.len() == 0 {
            WireVerdict::Fault(SettlementErrorView::OpaquePayload { missing: seq!["evidence_refs"@] })
        } else if evidence_fault(refs) is Some {
            WireVerdict::Fault(evidence_fault(refs)->0)
        } else if !(model_ref matches Some(JsonView::Object(_))) {
            WireVerdict::Fault(SettlementErrorView::OpaquePayload { missing: seq!["domain_model_ref"@] })
        } else if jstr(jget(model_ref->0, "namespace"@)) != Some(NAMESPACE@) {
            WireVerdict::Fault(
                SettlementErrorView::NamespaceMismatch {
                    expected: NAMESPACE@,
                    got: or_empty(jstr(jget(model_ref->0, "namespace"@))),
                },
            )
        } else if or_empty(jstr(jget(model_ref->0, "model_hash"@))) != declared {
            WireVerdict::Fault(
                SettlementErrorView::RefIdentityMismatch {
                    declared,
                    ref_hash: or_empty(jstr(jget(model_ref->0, "model_hash"@))),
                },
            )
        } else if settlement_optional_fault(p) is Some {
            WireVerdict::Fault(
                SettlementErrorView::InvalidOptionalField { field: settlement_optional_fault(p)->0 },
            )
        } else if causal_parents_of(env).len() == 0 {
            WireVerdict::Fault(
                SettlementErrorView::CausalityMissing {
                    expected: seq![
                        "<authorized_invocation event id>"@,
                        "<execution_observation event id>"@,
                    ],
                    recorded: Seq::empty(),
                },
            )
        } else {
            WireVerdict::Pass
        }
    }
}

/// The full canonical wire battery of an OperationalSettlement envelope.
pub open spec fn wire_check(env: JsonView, local: Seq<char>) -> WireVerdict {
    if !is_object(env) {
        WireVerdict::Fault(SettlementErrorView::MalformedEnvelope("envelope must be an object"@))
    } else if jstr(jget(env, "schema_version"@)) != Some(SCHEMA_VERSION@) {
        WireVerdict::Fault(SettlementErrorView::MalformedEnvelope("schema_version must be \"v1\""@))
    } else if envelope_producer_fault(env, OPERATIONAL_SETTLEMENT@, "sea_forge"@) is Some {
        WireVerdict::Fault(
            from_boundary_view(envelope_producer_fault(env, OPERATIONAL_SETTLEMENT@, "sea_forge"@)->0),
        )
    } else if model_binding_fault(env, local) is Some {
        WireVerdict::Fault(from_boundary_view(model_binding_fault(env, local)->0))
    } else if !(jget(env, "payload"@) matches Some(JsonView::Object(_))) {
        WireVerdict::Fault(SettlementErrorView::MalformedEnvelope("payload must be an object"@))
    } else {
        let p = jget(env, "payload"@)->0;
        let ns = or_empty(jstr(jget(p, "namespace"@)));
        if ns != NAMESPACE@ {
            WireVerdict::Fault(SettlementErrorView::NamespaceMismatch { expected: NAMESPACE@, got: ns })
        } else if settlement_missing(p).len() > 0 {
            WireVerdict::Fault(SettlementErrorView::OpaquePayload { missing: settlement_missing(p) })
        } else if identity_check("work_request_id"@, or_empty(jstr(jget(p, "work_request_id"@)))) is Err {
            WireVerdict::Fault(SettlementErrorView::PlaceholderField { field: "work_request_id"@ })
        } else if identity_check(
            "authority_decision_id"@,
            or_empty(jstr(jget(p, "authority_decision_id"@))),
        ) is Err {
            WireVerdict::Fault(SettlementErrorView::PlaceholderField { field: "authority_decision_id"@ })
        } else {
            wire_typed_checks(env, p)
        }
    }
}

fn present_exec(v: Option<&Json>) -> (r: bool)
    ensures
        r == present(opt_view(v)),
{
    match v {
        None => false,
        Some(Json::Null) => false,
        Some(Json::Str(s)) => trim_exec(s.as_str()).as_str().unicode_len() > 0,
        Some(_) => true,
    }
}

fn or_empty_exec(s: Option<&str>) -> (r: String)
    ensures
        r@ == or_empty(crate::json::opt_str_view(s)),
{
    match s {
        Some(x) => owned(x),
        None => String::new(),
    }
}

fn one_missing(field: &'static str) -> (r: SettlementReturnError)
    ensures
        r@ == (SettlementErrorView::OpaquePayload { missing: seq![field@] }),
{
    let mut m: Vec<&'static str> = Vec::new();
    m.push(field);
    proof {
        assert(static_strs_view(m@) =~= seq![field@]);
    }
    SettlementReturnError::OpaquePayload { missing: m }
}

fn settlement_optional_check(p: &Json) -> (r: Option<&'static str>)
    ensures
        crate::envelope::opt_static_view(r) == settlement_optional_fault(p@),
{
    match get(p, "case_id") {
        Some(Json::Str(_)) | None => {},
        Some(_) => {
            return Some("case_id");
        },
    }
    match get(p, "run_id") {
        Some(Json::Str(_)) | None => {},
        Some(_) => {
            return Some("run_id");
        },
    }
    match get(p, "transcript_ref") {
        Some(Json::Str(_)) | None => {},
        Some(_) => {
            return Some("transcript_ref");
        },
    }
    match get(p, "artifact_refs") {
        Some(Json::Array(_)) | None => {},
        Some(_) => {
            return Some("artifact_refs");
        },
    }
    match get(p, "failure_reason") {
        Some(Json::Str(_)) | Some(Json::Object(_)) | None => {},
        Some(_) => {
            return Some("failure_reason");
        },
    }
    None
}

fn check_evidence_refs(refs: &Vec<Json>) -> (r: Result<(), SettlementReturnError>)
    ensures
        match r {
            Ok(()) => evidence_fault(refs@.map_values(|j: Json| j@)) is None,
            Err(e) => evidence_fault(refs@.map_values(|j: Json| j@)) == Some(e@),
        },
{
    let ghost rv = refs@.map_values(|j: Json| j@);
    let mut i: usize = 0;
    while i < refs.len()
        invariant
            rv == refs@.map_values(|j: Json| j@),
            i <= refs@.len(),
            evidence_fault(rv.subrange(0, i as int)) is None,
        decreases refs@.len() - i,
    {
        proof {
            assert(rv.subrange(0, i + 1).drop_last() =~= rv.subrange(0, i as int));
            assert(rv.subrange(0, i + 1).last() == refs@[i as int]@);
        }
        let fault = match &refs[i] {
            Json::Str(s) => match validate_evidence_ref(s.as_str()) {
                Ok(()) => None,
                Err(e) => Some(e),
            },
            _ => Some(SettlementReturnError::InvalidEvidenceRef { got: owned("<non-string ref>") }),
        };
        match fault {
            Some(e) => {
                proof {
                    lemma_evidence_fault_prefix(rv, i as int + 1);
                }
                return Err(e);
            },
            None => {},
        }
        i += 1;
    }
    proof {
        assert(rv.subrange(0, refs@.len() as int) =~= rv);
    }
    Ok(())
}

/// A fault among the first `n` references is the first fault of all of them.
proof fn lemma_evidence_fault_prefix(refs: Seq<JsonView>, n: int)
    requires
        0 <= n <= refs.len(),
        evidence_fault(refs.subrange(0, n)) is Some,
    ensures
        evidence_fault(refs) == evidence_fault(refs.subrange(0, n)),
    decreases refs.len() - n,
{
    if n == refs.len() {
        assert(refs.subrange(0, n) =~= refs);
    } else {
        assert(refs.subrange(0, n + 1).drop_last() =~= refs.subrange(0, n));
        lemma_evidence_fault_prefix(refs, n + 1);
    }
}

/// The battery reads every member it types.
pub open spec fn wire_readable(env: JsonView, local: Seq<char>) -> bool {
    !(wire_check(env, local) is Unreadable)
}

/// The full canonical-wire validation of an OperationalSettlement envelope.
/// The wire battery over any envelope: `Ok` when it passes, the fault it
/// finds, or none when a member it reads has a type it does not read.
fn wire_verdict_exec(envelope: &Json, local_model_sha256: &str) -> (r: Result<(), Option<SettlementReturnError>>)
    ensures
        match r {
            Ok(()) => wire_check(envelope@, local_model_sha256@) is Pass,
            Err(Some(e)) => wire_check(envelope@, local_model_sha256@) == WireVerdict::Fault(e@),
            Err(None) => wire_check(envelope@, local_model_sha256@) is Unreadable,
        },
{
    if !is_object_exec(envelope) {
        return Err(Some(SettlementReturnError::MalformedEnvelope(owned("envelope must be an object"))));
    }
    let schema_ok = match get_str(envelope, "schema_version") {
        Some(v) => str_eq(v, SCHEMA_VERSION),
        None => false,
    };
    if !schema_ok {
        return Err(Some(SettlementReturnError::MalformedEnvelope(owned("schema_version must be \"v1\""))));
    }
    match check_envelope_producer(envelope, OPERATIONAL_SETTLEMENT, "sea_forge") {
        Err(e) => {
            return Err(Some(SettlementReturnError::from_boundary(e)));
        },
        Ok(()) => {},
    }
    match check_payload_model_binding(envelope, local_model_sha256) {
        Err(e) => {
            return Err(Some(SettlementReturnError::from_boundary(e)));
        },
        Ok(()) => {},
    }
    let payload = match get(envelope, "payload") {
        Some(p) => p,
        None => {
            return Err(Some(SettlementReturnError::MalformedEnvelope(owned("payload must be an object"))));
        },
    };
    if !is_object_exec(payload) {
        return Err(Some(SettlementReturnError::MalformedEnvelope(owned("payload must be an object"))));
    }
    let ghost p = payload@;
    let ns = or_empty_exec(get_str(payload, "namespace"));
    if !str_eq(ns.as_str(), NAMESPACE) {
        return Err(Some(SettlementReturnError::NamespaceMismatch { expected: owned(NAMESPACE), got: ns }));
    }
    let mut missing: Vec<&'static str> = Vec::new();
    if !present_exec(get(payload, "work_request_id")) {
        missing.push("work_request_id");
    }
    if !present_exec(get(payload, "authority_decision_id")) {
        missing.push("authority_decision_id");
    }
    if !present_exec(get(payload, "execution_status")) {
        missing.push("execution_status");
    }
    if !present_exec(get(payload, "observed_effects")) {
        missing.push("observed_effects");
    }
    if !present_exec(get(payload, "operational_settlement_status")) {
        missing.push("operational_settlement_status");
    }
    if !present_exec(get(payload, "evidence_refs")) {
        missing.push("evidence_refs");
    }
    if !present_exec(get(payload, "domain_model_ref")) {
        missing.push("domain_model_ref");
    }
    proof {
        assert(static_strs_view(missing@) =~= settlement_missing(p));
    }
    if missing.len() > 0 {
        return Err(Some(SettlementReturnError::OpaquePayload { missing }));
    }
    let w = or_empty_exec(get_str(payload, "work_request_id"));
    if check_identity_string("work_request_id", w.as_str()).is_err() {
        return Err(Some(SettlementReturnError::PlaceholderField { field: owned("work_request_id") }));
    }
    let a = or_empty_exec(get_str(payload, "authority_decision_id"));
    if check_identity_string("authority_decision_id", a.as_str()).is_err() {
        return Err(Some(SettlementReturnError::PlaceholderField { field: owned("authority_decision_id") }));
    }
    let es = match get_str(payload, "execution_status") {
        Some(x) => x,
        None => {
            return Err(None);
        },
    };
    if !(str_eq(es, "completed") || str_eq(es, "spawn_failed") || str_eq(es, "timed_out") || str_eq(
        es,
        "sandbox_violation",
    ) || str_eq(es, "suspected_sandbox_violation")) {
        return Err(Some(SettlementReturnError::InvalidExecutionStatus { got: owned(es) }));
    }
    let os = match get_str(payload, "operational_settlement_status") {
        Some(x) => x,
        None => {
            return Err(None);
        },
    };
    if !(str_eq(os, "accepted") || str_eq(os, "rejected")) {
        return Err(Some(SettlementReturnError::InvalidSettlementStatus { got: owned(os) }));
    }
    match get(payload, "observed_effects") {
        Some(Json::Array(_)) | Some(Json::Object(_)) => {},
        _ => {
            return Err(Some(one_missing("observed_effects")));
        },
    }
    let declared = or_empty_exec(get_str(payload, "domain_model_hash"));
    let refs = match get(payload, "evidence_refs") {
        Some(Json::Array(items)) => items,
        _ => {
            return Err(None);
        },
    };
    proof {
        crate::json::lemma_items_view(refs@, refs@.len() as int);
        assert(crate::json::items_view(refs@, refs@.len() as int) =~= refs@.map_values(|j: Json| j@));
    }
    if refs.len() == 0 {
        return Err(Some(one_missing("evidence_refs")));
    }
    match check_evidence_refs(refs) {
        Err(e) => {
            return Err(Some(e));
        },
        Ok(()) => {},
    }
    let model_ref = match get(payload, "domain_model_ref") {
        Some(m) => m,
        None => {
            return Err(Some(one_missing("domain_model_ref")));
        },
    };
    if !is_object_exec(model_ref) {
        return Err(Some(one_missing("domain_model_ref")));
    }
    let ns_ok = match get_str(model_ref, "namespace") {
        Some(v) => str_eq(v, NAMESPACE),
        None => false,
    };
    if !ns_ok {
        return Err(Some(
            SettlementReturnError::NamespaceMismatch {
                expected: owned(NAMESPACE),
                got: or_empty_exec(get_str(model_ref, "namespace")),
            },
        ));
    }
    let ref_hash = or_empty_exec(get_str(model_ref, "model_hash"));
    if !str_eq(ref_hash.as_str(), declared.as_str()) {
        return Err(Some(SettlementReturnError::RefIdentityMismatch { declared, ref_hash }));
    }
    match settlement_optional_check(payload) {
        Some(field) => {
            return Err(Some(SettlementReturnError::InvalidOptionalField { field }));
        },
        None => {},
    }
    let parents = causal_parents(envelope);
    if parents.len() == 0 {
        let mut expected: Vec<String> = Vec::new();
        expected.push(owned("<authorized_invocation event id>"));
        expected.push(owned("<execution_observation event id>"));
        let recorded: Vec<String> = Vec::new();
        proof {
            assert(strings_view(parents@).len() == 0);
            assert(strings_view(expected@) =~= seq![
                "<authorized_invocation event id>"@,
                "<execution_observation event id>"@,
            ]);
            assert(strings_view(recorded@) =~= Seq::<Seq<char>>::empty());
        }
        return Err(Some(SettlementReturnError::CausalityMissing { expected, recorded }));
    }
    Ok(())
}

/// Whether the wire battery can read `envelope`: every member it reads that
/// is present has a type it reads. The test to make before
/// [`validate_operational_settlement_wire`] on an envelope from elsewhere.
pub fn wire_readable_exec(envelope: &Json, local_model_sha256: &str) -> (r: bool)
    ensures
        r == wire_readable(envelope@, local_model_sha256@),
{
    match wire_verdict_exec(envelope, local_model_sha256) {
        Err(None) => false,
        _ => true,
    }
}

pub fn validate_operational_settlement_wire(envelope: &Json, local_model_sha256: &str) -> (r: Result<
    (),
    SettlementReturnError,
>)
    requires
        wire_readable(envelope@, local_model_sha256@),
    ensures
        match r {
            Ok(()) => wire_check(envelope@, local_model_sha256@) is Pass,
            Err(e) => wire_check(envelope@, local_model_sha256@) == WireVerdict::Fault(e@),
        },
{
    match wire_verdict_exec(envelope, local_model_sha256) {
        Ok(()) => Ok(()),
        Err(Some(e)) => Err(e),
        Err(None) => {
            proof {
                assert(false);
            }
            Err(SettlementReturnError::MalformedEnvelope(owned("unreadable envelope")))
        },
    }
}


// ---------------------------------------------------------------------------
// Projection: the canonical OperationalSettlement envelope
// ---------------------------------------------------------------------------

/// Optional frozen fields passed through when the caller holds them.
pub struct SettlementOptionalFields<'a> {
    pub case_id: Option<&'a str>,
    pub run_id: Option<&'a str>,
    /// Must be a JSON array to pass the wire battery.
    pub artifact_refs: Option<&'a Json>,
    pub transcript_ref: Option<&'a str>,
    /// A string or an object to pass the wire battery.
    pub failure_reason: Option<&'a Json>,
}

pub struct OptionalFieldsView {
    pub case_id: Option<Seq<char>>,
    pub run_id: Option<Seq<char>>,
    pub artifact_refs: Option<JsonView>,
    pub transcript_ref: Option<Seq<char>>,
    pub failure_reason: Option<JsonView>,
}

impl<'a> View for SettlementOptionalFields<'a> {
    type V = OptionalFieldsView;

    open spec fn view(&self) -> OptionalFieldsView {
        OptionalFieldsView {
            case_id: crate::json::opt_str_view(self.case_id),
            run_id: crate::json::opt_str_view(self.run_id),
            artifact_refs: opt_view(self.artifact_refs),
            transcript_ref: crate::json::opt_str_view(self.transcript_ref),
            failure_reason: opt_view(self.failure_reason),
        }
    }
}

/// One canonical OperationalSettlement projected at the boundary.
pub struct OperationalSettlementReturn {
    /// The full canonical v1 envelope.
    pub envelope: Json,
    pub event_id: String,
    pub work_request_id: String,
    /// The ledger-recorded authority decision of the authorized invocation.
    pub authority_decision_id: String,
    pub invocation_id: String,
    pub evaluation: SettlementEvaluation,
}

pub struct SettlementReturnView {
    pub envelope: JsonView,
    pub event_id: Seq<char>,
    pub work_request_id: Seq<char>,
    pub authority_decision_id: Seq<char>,
    pub invocation_id: Seq<char>,
    pub evaluation: EvaluationView,
}

impl View for OperationalSettlementReturn {
    type V = SettlementReturnView;

    open spec fn view(&self) -> SettlementReturnView {
        SettlementReturnView {
            envelope: self.envelope@,
            event_id: self.event_id@,
            work_request_id: self.work_request_id@,
            authority_decision_id: self.authority_decision_id@,
            invocation_id: self.invocation_id@,
            evaluation: self.evaluation@,
        }
    }
}

pub open spec fn sj(s: Seq<char>) -> JsonView {
    JsonView::Str(s)
}

/// The settlement payload (members in key order).
pub open spec fn settlement_payload(
    o: OutcomeView,
    status_word: Seq<char>,
    declared: Seq<char>,
    aie: Seq<char>,
    eoe: Seq<char>,
    opt: OptionalFieldsView,
) -> JsonView {
    let (inv, w, a, es, fx) = match o {
        OutcomeView::Settled {
            invocation_id,
            work_request_id,
            authority_decision_id,
            execution_status,
            observed_effects,
        } => (invocation_id, work_request_id, authority_decision_id, execution_status, observed_effects),
        OutcomeView::DuplicateDelivery => (Seq::empty(), Seq::empty(), Seq::empty(), Seq::empty(), JsonView::Null),
    };
    let evidence = JsonView::Array(seq![
        sj("sha256:"@ + crate::envelope::sha256_hex_of_text(crate::json::render(fx, true))),
        sj("authorized_invocation:"@ + aie),
        sj("execution_observation:"@ + eoe),
    ]);
    let m0: Seq<(Seq<char>, JsonView)> = match opt.artifact_refs {
        Some(x) => seq![("artifact_refs"@, x)],
        None => Seq::empty(),
    };
    let m1 = m0.push(("authority_decision_id"@, sj(a)));
    let m2 = match meaningful_text(opt.case_id) {
        Some(c) => m1.push(("case_id"@, sj(c))),
        None => m1,
    };
    let m3 = m2 + seq![
        ("domain_model_hash"@, sj(declared)),
        ("domain_model_ref"@, JsonView::Object(seq![("model_hash"@, sj(declared)), ("namespace"@, sj(NAMESPACE@))])),
        ("evidence_refs"@, evidence),
        ("execution_status"@, sj(es)),
    ];
    let m4 = match opt.failure_reason {
        Some(x) => m3.push(("failure_reason"@, x)),
        None => m3,
    };
    let m5 = m4 + seq![
        ("invocation_id"@, sj(inv)),
        ("namespace"@, sj(NAMESPACE@)),
        ("observed_effects"@, fx),
        ("operational_settlement_status"@, sj(status_word)),
    ];
    let m6 = match meaningful_text(opt.run_id) {
        Some(r) => m5.push(("run_id"@, sj(r))),
        None => m5,
    };
    let m7 = match meaningful_text(opt.transcript_ref) {
        Some(t) => m6.push(("transcript_ref"@, sj(t))),
        None => m6,
    };
    JsonView::Object(m7.push(("work_request_id"@, sj(w))))
}

/// The settlement envelope (members in key order).
pub open spec fn settlement_envelope(
    payload: JsonView,
    declared: Seq<char>,
    aie: Seq<char>,
    eoe: Seq<char>,
    event_id: Seq<char>,
    occurred_at: Seq<char>,
) -> JsonView {
    JsonView::Object(
        seq![
            ("event_id"@, sj(event_id)),
            ("event_type"@, sj(OPERATIONAL_SETTLEMENT@)),
            ("idempotency_key"@, sj(crate::governed_execution_boundary::idempotency_key_of(OPERATIONAL_SETTLEMENT@, payload))),
            ("occurred_at"@, sj(occurred_at)),
            ("payload"@, payload),
            ("provenance"@, JsonView::Object(seq![
                ("chain"@, JsonView::Array(seq![
                    sj("domain_model_hash:"@ + declared),
                    sj("caused_by:"@ + aie),
                    sj("caused_by:"@ + eoe),
                ])),
                ("origin"@, sj("sea-forge"@)),
            ])),
            ("schema_version"@, sj(SCHEMA_VERSION@)),
            ("source_agent"@, sj("sea-forge"@)),
        ],
    )
}

pub open spec fn status_word(s: SettlementStatus) -> Seq<char> {
    match s {
        SettlementStatus::Accepted => "accepted"@,
        _ => "rejected"@,
    }
}

/// The refusals before the envelope is built, in order.
pub open spec fn emission_gate(
    o: OutcomeView,
    ev: EvaluationView,
    declared: Seq<char>,
    local: Seq<char>,
    aie: Seq<char>,
    eoe: Seq<char>,
) -> Option<SettlementErrorView> {
    let (inv, w, a) = match o {
        OutcomeView::Settled { invocation_id, work_request_id, authority_decision_id, .. } => (
            invocation_id,
            work_request_id,
            authority_decision_id,
        ),
        OutcomeView::DuplicateDelivery => (Seq::empty(), Seq::empty(), Seq::empty()),
    };
    if identity_check("invocation_id"@, inv) is Err {
        Some(SettlementErrorView::PlaceholderField { field: "invocation_id"@ })
    } else if identity_check("work_request_id"@, w) is Err {
        Some(SettlementErrorView::PlaceholderField { field: "work_request_id"@ })
    } else if identity_check("authority_decision_id"@, a) is Err {
        Some(SettlementErrorView::PlaceholderField { field: "authority_decision_id"@ })
    } else if identity_check("authorized_invocation_event_id"@, aie) is Err {
        Some(SettlementErrorView::PlaceholderField { field: "authorized_invocation_event_id"@ })
    } else if identity_check("execution_observation_event_id"@, eoe) is Err {
        Some(SettlementErrorView::PlaceholderField { field: "execution_observation_event_id"@ })
    } else if is_pseudo_identity(declared) {
        Some(SettlementErrorView::PlaceholderIdentity { got: declared })
    } else if declared != trim(local) {
        Some(SettlementErrorView::DomainDrift { declared, local: trim(local) })
    } else if ev.status == SettlementStatus::Escalated {
        Some(SettlementErrorView::InvalidSettlementStatus { got: "escalated"@ })
    } else {
        None
    }
}

/// What projecting a settled observation returns under the given event id
/// and issue time: the evaluation's refusal, a gate's refusal, the built
/// envelope's wire fault, or the settlement return.
pub open spec fn settlement_emission(
    o: OutcomeView,
    criteria: Seq<Seq<char>>,
    verdicts: Seq<Option<bool>>,
    declared: Seq<char>,
    local: Seq<char>,
    aie: Seq<char>,
    eoe: Seq<char>,
    opt: OptionalFieldsView,
    event_id: Seq<char>,
    occurred_at: Seq<char>,
) -> Result<SettlementReturnView, SettlementErrorView> {
    match evaluation_of(o, criteria, verdicts) {
        Err(e) => Err(e),
        Ok(ev) => match emission_gate(o, ev, declared, local, aie, eoe) {
            Some(e) => Err(e),
            None => {
                let payload = settlement_payload(o, status_word(ev.status), declared, aie, eoe, opt);
                let env = settlement_envelope(payload, declared, aie, eoe, event_id, occurred_at);
                match wire_check(env, local) {
                    WireVerdict::Fault(e) => Err(e),
                    _ => Ok(
                        SettlementReturnView {
                            envelope: env,
                            event_id,
                            work_request_id: o->Settled_work_request_id,
                            authority_decision_id: o->Settled_authority_decision_id,
                            invocation_id: o->Settled_invocation_id,
                            evaluation: ev,
                        },
                    ),
                }
            },
        },
    }
}

pub open spec fn emission_result_view(r: Result<OperationalSettlementReturn, SettlementReturnError>) -> Result<SettlementReturnView, SettlementErrorView> {
    match r {
        Ok(v) => Ok(v@),
        Err(e) => Err(e@),
    }
}

proof fn lemma_built_envelope_readable(payload_members: Seq<(Seq<char>, JsonView)>, env: JsonView, local: Seq<char>)
    requires
        env matches JsonView::Object(em) && em.len() == 8 && em[4].0 == "payload"@ && em[4].1 == JsonView::Object(payload_members)
            && em[0].0 == "event_id"@ && em[1].0 == "event_type"@ && em[2].0 == "idempotency_key"@ && em[3].0 == "occurred_at"@,
        exists|i: int| 0 <= i < payload_members.len() && #[trigger] payload_members[i].0 == "execution_status"@
            && payload_members[i].1 is Str && forall|j: int| 0 <= j < i ==> payload_members[j].0 != "execution_status"@,
        exists|i: int| 0 <= i < payload_members.len() && #[trigger] payload_members[i].0 == "operational_settlement_status"@
            && payload_members[i].1 is Str && forall|j: int| 0 <= j < i ==> payload_members[j].0 != "operational_settlement_status"@,
        exists|i: int| 0 <= i < payload_members.len() && #[trigger] payload_members[i].0 == "evidence_refs"@
            && payload_members[i].1 is Array && forall|j: int| 0 <= j < i ==> payload_members[j].0 != "evidence_refs"@,
    ensures
        wire_readable(env, local),
{
    reveal_strlit("payload");
    reveal_strlit("event_id");
    reveal_strlit("event_type");
    reveal_strlit("idempotency_key");
    reveal_strlit("occurred_at");
    assert("payload"@.len() == 7);
    assert("event_id"@.len() == 8);
    assert("event_type"@.len() == 10);
    assert("idempotency_key"@.len() == 15);
    assert("occurred_at"@.len() == 11);
    let em = env->Object_0;
    crate::json::lemma_jget_member(em, "payload"@, 4);
    let p = JsonView::Object(payload_members);
    let i1 = choose|i: int| 0 <= i < payload_members.len() && #[trigger] payload_members[i].0 == "execution_status"@
        && payload_members[i].1 is Str && forall|j: int| 0 <= j < i ==> payload_members[j].0 != "execution_status"@;
    crate::json::lemma_jget_member(payload_members, "execution_status"@, i1);
    let i2 = choose|i: int| 0 <= i < payload_members.len() && #[trigger] payload_members[i].0 == "operational_settlement_status"@
        && payload_members[i].1 is Str && forall|j: int| 0 <= j < i ==> payload_members[j].0 != "operational_settlement_status"@;
    crate::json::lemma_jget_member(payload_members, "operational_settlement_status"@, i2);
    let i3 = choose|i: int| 0 <= i < payload_members.len() && #[trigger] payload_members[i].0 == "evidence_refs"@
        && payload_members[i].1 is Array && forall|j: int| 0 <= j < i ==> payload_members[j].0 != "evidence_refs"@;
    crate::json::lemma_jget_member(payload_members, "evidence_refs"@, i3);
}


/// Where `evidence_refs`, `execution_status` and
/// `operational_settlement_status` stand among a settlement payload's
/// members: after the optional `artifact_refs` and `case_id`, and, for the
/// last, the optional `failure_reason`.
pub open spec fn payload_offsets(opt: OptionalFieldsView) -> (int, int, int) {
    let a = if opt.artifact_refs is Some { 1int } else { 0int };
    let c = if meaningful_text(opt.case_id) is Some { 1int } else { 0int };
    let f = if opt.failure_reason is Some { 1int } else { 0int };
    let ie = a + 1 + c + 2;
    let ix = ie + 1;
    (ie, ix, ix + 1 + f + 3)
}

#[verifier::spinoff_prover]
proof fn lemma_payload_evidence_refs(o: OutcomeView, sw: Seq<char>, declared: Seq<char>, aie: Seq<char>, eoe: Seq<char>, opt: OptionalFieldsView)
    ensures
        ({
            let m = settlement_payload(o, sw, declared, aie, eoe, opt)->Object_0;
            let ie = payload_offsets(opt).0;
            &&& m[ie].0 == "evidence_refs"@
            &&& forall|j: int| 0 <= j < ie ==> m[j].0 != "evidence_refs"@
        }),
{
    reveal_strlit("artifact_refs");
    reveal_strlit("authority_decision_id");
    reveal_strlit("case_id");
    reveal_strlit("domain_model_hash");
    reveal_strlit("domain_model_ref");
    reveal_strlit("evidence_refs");
    assert("artifact_refs"@.len() == 13 && "artifact_refs"@[0] == 'a');
    assert("authority_decision_id"@.len() == 21);
    assert("case_id"@.len() == 7);
    assert("domain_model_hash"@.len() == 17);
    assert("domain_model_ref"@.len() == 16);
    assert("evidence_refs"@.len() == 13 && "evidence_refs"@[0] == 'e');
}

#[verifier::spinoff_prover]
proof fn lemma_payload_execution_status(o: OutcomeView, sw: Seq<char>, declared: Seq<char>, aie: Seq<char>, eoe: Seq<char>, opt: OptionalFieldsView)
    ensures
        ({
            let m = settlement_payload(o, sw, declared, aie, eoe, opt)->Object_0;
            let ix = payload_offsets(opt).1;
            &&& m[ix].0 == "execution_status"@
            &&& forall|j: int| 0 <= j < ix ==> m[j].0 != "execution_status"@
        }),
{
    reveal_strlit("artifact_refs");
    reveal_strlit("authority_decision_id");
    reveal_strlit("case_id");
    reveal_strlit("domain_model_hash");
    reveal_strlit("domain_model_ref");
    reveal_strlit("evidence_refs");
    reveal_strlit("execution_status");
    assert("artifact_refs"@.len() == 13);
    assert("authority_decision_id"@.len() == 21);
    assert("case_id"@.len() == 7);
    assert("domain_model_hash"@.len() == 17);
    assert("domain_model_ref"@.len() == 16 && "domain_model_ref"@[0] == 'd');
    assert("evidence_refs"@.len() == 13);
    assert("execution_status"@.len() == 16 && "execution_status"@[0] == 'e');
}

#[verifier::spinoff_prover]
proof fn lemma_payload_settlement_status(o: OutcomeView, sw: Seq<char>, declared: Seq<char>, aie: Seq<char>, eoe: Seq<char>, opt: OptionalFieldsView)
    ensures
        ({
            let m = settlement_payload(o, sw, declared, aie, eoe, opt)->Object_0;
            let io = payload_offsets(opt).2;
            &&& m[io].0 == "operational_settlement_status"@
            &&& forall|j: int| 0 <= j < io ==> m[j].0 != "operational_settlement_status"@
        }),
{
    reveal_strlit("artifact_refs");
    reveal_strlit("authority_decision_id");
    reveal_strlit("case_id");
    reveal_strlit("domain_model_hash");
    reveal_strlit("domain_model_ref");
    reveal_strlit("evidence_refs");
    reveal_strlit("execution_status");
    reveal_strlit("failure_reason");
    reveal_strlit("invocation_id");
    reveal_strlit("namespace");
    reveal_strlit("observed_effects");
    reveal_strlit("operational_settlement_status");
    assert("artifact_refs"@.len() == 13);
    assert("authority_decision_id"@.len() == 21);
    assert("case_id"@.len() == 7);
    assert("domain_model_hash"@.len() == 17);
    assert("domain_model_ref"@.len() == 16);
    assert("evidence_refs"@.len() == 13);
    assert("execution_status"@.len() == 16);
    assert("failure_reason"@.len() == 14);
    assert("invocation_id"@.len() == 13);
    assert("namespace"@.len() == 9);
    assert("observed_effects"@.len() == 16);
    assert("operational_settlement_status"@.len() == 29);
}

/// The typed members the wire battery reads are where the battery looks for
/// them in every settlement payload.
proof fn lemma_settlement_payload_readable(
    o: OutcomeView,
    sw: Seq<char>,
    declared: Seq<char>,
    aie: Seq<char>,
    eoe: Seq<char>,
    opt: OptionalFieldsView,
    event_id: Seq<char>,
    occurred_at: Seq<char>,
    local: Seq<char>,
)
    ensures
        wire_readable(
            settlement_envelope(settlement_payload(o, sw, declared, aie, eoe, opt), declared, aie, eoe, event_id, occurred_at),
            local,
        ),
{
    lemma_payload_evidence_refs(o, sw, declared, aie, eoe, opt);
    lemma_payload_execution_status(o, sw, declared, aie, eoe, opt);
    lemma_payload_settlement_status(o, sw, declared, aie, eoe, opt);
    let payload = settlement_payload(o, sw, declared, aie, eoe, opt);
    let m = payload->Object_0;
    let env = settlement_envelope(payload, declared, aie, eoe, event_id, occurred_at);
    lemma_built_envelope_readable(m, env, local);
}


fn build_settlement_payload(
    o: &ObservationOutcome,
    sw: &str,
    declared: &str,
    aie: &str,
    eoe: &str,
    opt: &SettlementOptionalFields,
) -> (r: Json)
    requires
        o@ is Settled,
    ensures
        r@ == settlement_payload(o@, sw@, declared@, aie@, eoe@, opt@),
{
    let (inv, w, a, es, fx) = match o {
        ObservationOutcome::Settled {
            invocation_id,
            work_request_id,
            authority_decision_id,
            execution_status,
            observed_effects,
        } => (invocation_id, work_request_id, authority_decision_id, execution_status, observed_effects),
        ObservationOutcome::DuplicateDelivery => {
            proof {
                assert(false);
            }
            return Json::Null;
        },
    };
    let fx_text = canonical_payload_json(fx);
    let digest = crate::envelope::sha256_hex(fx_text.as_str());
    let mut ev: Vec<Json> = Vec::new();
    ev.push(Json::Str(concat2("sha256:", digest.as_str())));
    ev.push(Json::Str(concat2("authorized_invocation:", aie)));
    ev.push(Json::Str(concat2("execution_observation:", eoe)));
    let ghost evv = seq![
        sj("sha256:"@ + crate::envelope::sha256_hex_of_text(crate::json::render(fx@, true))),
        sj("authorized_invocation:"@ + aie@),
        sj("execution_observation:"@ + eoe@),
    ];
    proof {
        crate::json::lemma_items_view(ev@, 3);
        assert(crate::json::items_view(ev@, 3) =~= evv);
    }
    let evidence = Json::Array(ev);
    assert(evidence@ == JsonView::Array(evv));
    let mut m: Vec<(String, Json)> = Vec::new();
    proof {
        assert(crate::json::members_view(m@) =~= Seq::<(Seq<char>, JsonView)>::empty());
    }
    match opt.artifact_refs {
        Some(x) => crate::json::push_member(&mut m, "artifact_refs", crate::json::json_clone(x)),
        None => {},
    }
    crate::json::push_member(&mut m, "authority_decision_id", Json::Str(a.clone()));
    match crate::envelope::meaningful(opt.case_id) {
        Some(c) => crate::json::push_member(&mut m, "case_id", Json::Str(c)),
        None => {},
    }
    let ghost m2 = crate::json::members_view(m@);
    crate::json::push_member(&mut m, "domain_model_hash", Json::Str(owned(declared)));
    let mut mr: Vec<(String, Json)> = Vec::new();
    proof {
        assert(crate::json::members_view(mr@) =~= Seq::<(Seq<char>, JsonView)>::empty());
    }
    crate::json::push_member(&mut mr, "model_hash", Json::Str(owned(declared)));
    crate::json::push_member(&mut mr, "namespace", Json::Str(owned(NAMESPACE)));
    proof {
        assert(crate::json::members_view(mr@) =~= seq![("model_hash"@, sj(declared@)), ("namespace"@, sj(NAMESPACE@))]);
    }
    crate::json::push_member(&mut m, "domain_model_ref", crate::json::object_of(mr));
    crate::json::push_member(&mut m, "evidence_refs", evidence);
    crate::json::push_member(&mut m, "execution_status", Json::Str(es.clone()));
    let ghost m3 = crate::json::members_view(m@);
    match opt.failure_reason {
        Some(x) => crate::json::push_member(&mut m, "failure_reason", crate::json::json_clone(x)),
        None => {},
    }
    let ghost m4 = crate::json::members_view(m@);
    crate::json::push_member(&mut m, "invocation_id", Json::Str(inv.clone()));
    crate::json::push_member(&mut m, "namespace", Json::Str(owned(NAMESPACE)));
    crate::json::push_member(&mut m, "observed_effects", crate::json::json_clone(fx));
    crate::json::push_member(&mut m, "operational_settlement_status", Json::Str(owned(sw)));
    let ghost m5 = crate::json::members_view(m@);
    match crate::envelope::meaningful(opt.run_id) {
        Some(r) => crate::json::push_member(&mut m, "run_id", Json::Str(r)),
        None => {},
    }
    match crate::envelope::meaningful(opt.transcript_ref) {
        Some(t) => crate::json::push_member(&mut m, "transcript_ref", Json::Str(t)),
        None => {},
    }
    crate::json::push_member(&mut m, "work_request_id", Json::Str(w.clone()));
    proof {
        assert(m3 =~= m2 + seq![
            ("domain_model_hash"@, sj(declared@)),
            ("domain_model_ref"@, JsonView::Object(seq![("model_hash"@, sj(declared@)), ("namespace"@, sj(NAMESPACE@))])),
            ("evidence_refs"@, JsonView::Array(seq![
                sj("sha256:"@ + crate::envelope::sha256_hex_of_text(crate::json::render(fx@, true))),
                sj("authorized_invocation:"@ + aie@),
                sj("execution_observation:"@ + eoe@),
            ])),
            ("execution_status"@, sj(es@)),
        ]);
        assert(m5 =~= m4 + seq![
            ("invocation_id"@, sj(inv@)),
            ("namespace"@, sj(NAMESPACE@)),
            ("observed_effects"@, fx@),
            ("operational_settlement_status"@, sj(sw@)),
        ]);
    }
    let r = crate::json::object_of(m);
    proof {
        assert(r@ =~= settlement_payload(o@, sw@, declared@, aie@, eoe@, opt@));
    }
    r
}

fn build_settlement_envelope(
    payload: Json,
    declared: &str,
    aie: &str,
    eoe: &str,
    event_id: String,
    occurred_at: String,
) -> (r: Json)
    ensures
        r@ == settlement_envelope(payload@, declared@, aie@, eoe@, event_id@, occurred_at@),
{
    let canonical = canonical_payload_json(&payload);
    let mut content = concat3("|", OPERATIONAL_SETTLEMENT, "|");
    content.append(canonical.as_str());
    let idem = crate::envelope::sha256_hex(content.as_str());
    proof {
        assert(content@ =~= "|"@ + OPERATIONAL_SETTLEMENT@ + "|"@ + crate::json::render(payload@, true));
    }
    let mut chain: Vec<String> = Vec::new();
    chain.push(concat2("domain_model_hash:", declared));
    chain.push(concat2("caused_by:", aie));
    chain.push(concat2("caused_by:", eoe));
    let mut prov: Vec<(String, Json)> = Vec::new();
    proof {
        assert(crate::json::members_view(prov@) =~= Seq::<(Seq<char>, JsonView)>::empty());
    }
    crate::json::push_member(&mut prov, "chain", crate::json::string_array(&chain));
    crate::json::push_member(&mut prov, "origin", Json::Str(owned("sea-forge")));
    proof {
        assert(chain@.map_values(|s: String| JsonView::Str(s@)) =~= seq![
            sj("domain_model_hash:"@ + declared@),
            sj("caused_by:"@ + aie@),
            sj("caused_by:"@ + eoe@),
        ]);
        assert(crate::json::members_view(prov@) =~= seq![
            ("chain"@, JsonView::Array(seq![
                sj("domain_model_hash:"@ + declared@),
                sj("caused_by:"@ + aie@),
                sj("caused_by:"@ + eoe@),
            ])),
            ("origin"@, sj("sea-forge"@)),
        ]);
    }
    let ghost pv = payload@;
    let mut env: Vec<(String, Json)> = Vec::new();
    proof {
        assert(crate::json::members_view(env@) =~= Seq::<(Seq<char>, JsonView)>::empty());
    }
    crate::json::push_member(&mut env, "event_id", Json::Str(event_id));
    crate::json::push_member(&mut env, "event_type", Json::Str(owned(OPERATIONAL_SETTLEMENT)));
    crate::json::push_member(&mut env, "idempotency_key", Json::Str(idem));
    crate::json::push_member(&mut env, "occurred_at", Json::Str(occurred_at));
    crate::json::push_member(&mut env, "payload", payload);
    crate::json::push_member(&mut env, "provenance", crate::json::object_of(prov));
    crate::json::push_member(&mut env, "schema_version", Json::Str(owned(SCHEMA_VERSION)));
    crate::json::push_member(&mut env, "source_agent", Json::Str(owned("sea-forge")));
    proof {
        assert(chain@.map_values(|s: String| JsonView::Str(s@)) =~= seq![
            sj("domain_model_hash:"@ + declared@),
            sj("caused_by:"@ + aie@),
            sj("caused_by:"@ + eoe@),
        ]);
    }
    proof {
        assert(idem@ == crate::governed_execution_boundary::idempotency_key_of(OPERATIONAL_SETTLEMENT@, pv));
        assert(crate::json::members_view(env@) =~= settlement_envelope(pv, declared@, aie@, eoe@, event_id@, occurred_at@)->Object_0);
    }
    let r = crate::json::object_of(env);
    r
}

/// The refusals of an emission before its envelope is built
/// (`emission_gate`); when none applies, the wire word of the status.
fn settlement_gate(
    settled: &ObservationOutcome,
    evaluation: &SettlementEvaluation,
    declared_model_sha256: &str,
    local_model_sha256: &str,
    authorized_invocation_event_id: &str,
    execution_observation_event_id: &str,
) -> (r: Result<&'static str, SettlementReturnError>)
    ensures
        match emission_gate(
            settled@,
            evaluation@,
            declared_model_sha256@,
            local_model_sha256@,
            authorized_invocation_event_id@,
            execution_observation_event_id@,
        ) {
            Some(e) => r matches Err(x) && x@ == e,
            None => r matches Ok(sw) && sw@ == status_word(evaluation@.status),
        },
{
    let (inv, w, a) = match settled {
        ObservationOutcome::Settled { invocation_id, work_request_id, authority_decision_id, .. } => (
            invocation_id,
            work_request_id,
            authority_decision_id,
        ),
        ObservationOutcome::DuplicateDelivery => {
            return Err(SettlementReturnError::PlaceholderField { field: owned("invocation_id") });
        },
    };
    if check_identity_string("invocation_id", inv.as_str()).is_err() {
        return Err(SettlementReturnError::PlaceholderField { field: owned("invocation_id") });
    }
    if check_identity_string("work_request_id", w.as_str()).is_err() {
        return Err(SettlementReturnError::PlaceholderField { field: owned("work_request_id") });
    }
    if check_identity_string("authority_decision_id", a.as_str()).is_err() {
        return Err(SettlementReturnError::PlaceholderField { field: owned("authority_decision_id") });
    }
    if check_identity_string("authorized_invocation_event_id", authorized_invocation_event_id).is_err() {
        return Err(
            SettlementReturnError::PlaceholderField { field: owned("authorized_invocation_event_id") },
        );
    }
    if check_identity_string("execution_observation_event_id", execution_observation_event_id).is_err() {
        return Err(
            SettlementReturnError::PlaceholderField { field: owned("execution_observation_event_id") },
        );
    }
    match verify_model_identity(declared_model_sha256) {
        Err(got) => {
            return Err(SettlementReturnError::PlaceholderIdentity { got });
        },
        Ok(()) => {},
    }
    let local = trim_exec(local_model_sha256);
    if !str_eq(declared_model_sha256, local.as_str()) {
        return Err(SettlementReturnError::DomainDrift { declared: owned(declared_model_sha256), local });
    }
    let sw = match evaluation.status {
        SettlementStatus::Accepted => "accepted",
        SettlementStatus::Rejected => "rejected",
        SettlementStatus::Escalated => {
            return Err(SettlementReturnError::InvalidSettlementStatus { got: owned("escalated") });
        },
    };
    Ok(sw)
}

/// The envelope of an emission that passed its gates, under `event_id` and
/// `occurred_at`, held to the wire battery.
fn settlement_finish(
    settled: &ObservationOutcome,
    declared_criteria: &Vec<String>,
    verdicts: &Vec<Option<bool>>,
    declared_model_sha256: &str,
    local_model_sha256: &str,
    authorized_invocation_event_id: &str,
    execution_observation_event_id: &str,
    optionals: SettlementOptionalFields,
    evaluation: SettlementEvaluation,
    sw: &'static str,
    event_id: String,
    occurred_at: String,
) -> (r: Result<OperationalSettlementReturn, SettlementReturnError>)
    requires
        verdicts@.len() == declared_criteria@.len(),
        evaluation_of(settled@, strings_view(declared_criteria@), verdicts@) == Ok::<EvaluationView, SettlementErrorView>(evaluation@),
        emission_gate(
            settled@,
            evaluation@,
            declared_model_sha256@,
            local_model_sha256@,
            authorized_invocation_event_id@,
            execution_observation_event_id@,
        ) is None,
        sw@ == status_word(evaluation@.status),
    ensures
        emission_result_view(r) == settlement_emission(
            settled@,
            strings_view(declared_criteria@),
            verdicts@,
            declared_model_sha256@,
            local_model_sha256@,
            authorized_invocation_event_id@,
            execution_observation_event_id@,
            optionals@,
            event_id@,
            occurred_at@,
        ),
{
    let (inv, w, a) = match settled {
        ObservationOutcome::Settled { invocation_id, work_request_id, authority_decision_id, .. } => (
            invocation_id,
            work_request_id,
            authority_decision_id,
        ),
        ObservationOutcome::DuplicateDelivery => {
            return Err(SettlementReturnError::NothingSettled);
        },
    };
    let payload = build_settlement_payload(
        settled,
        sw,
        declared_model_sha256,
        authorized_invocation_event_id,
        execution_observation_event_id,
        &optionals,
    );
    let envelope = build_settlement_envelope(
        payload,
        declared_model_sha256,
        authorized_invocation_event_id,
        execution_observation_event_id,
        event_id.clone(),
        occurred_at,
    );
    proof {
        lemma_settlement_payload_readable(
            settled@,
            sw@,
            declared_model_sha256@,
            authorized_invocation_event_id@,
            execution_observation_event_id@,
            optionals@,
            event_id@,
            occurred_at@,
            local_model_sha256@,
        );
    }
    match validate_operational_settlement_wire(&envelope, local_model_sha256) {
        Err(e) => {
            return Err(e);
        },
        Ok(()) => {},
    }
    Ok(
        OperationalSettlementReturn {
            envelope,
            event_id,
            work_request_id: w.clone(),
            authority_decision_id: a.clone(),
            invocation_id: inv.clone(),
            evaluation,
        },
    )
}

/// Judges a settled observation and projects it into the canonical
/// OperationalSettlement envelope under the given event id and issue time;
/// the projection is returned only when it passes the wire battery.
pub fn emit_operational_settlement_as(
    settled: &ObservationOutcome,
    declared_criteria: &Vec<String>,
    verdicts: &Vec<Option<bool>>,
    declared_model_sha256: &str,
    local_model_sha256: &str,
    authorized_invocation_event_id: &str,
    execution_observation_event_id: &str,
    optionals: SettlementOptionalFields,
    event_id: String,
    occurred_at: String,
) -> (r: Result<OperationalSettlementReturn, SettlementReturnError>)
    requires
        verdicts@.len() == declared_criteria@.len(),
    ensures
        emission_result_view(r) == settlement_emission(
            settled@,
            strings_view(declared_criteria@),
            verdicts@,
            declared_model_sha256@,
            local_model_sha256@,
            authorized_invocation_event_id@,
            execution_observation_event_id@,
            optionals@,
            event_id@,
            occurred_at@,
        ),
{
    let evaluation = match evaluate_operational_settlement(settled, declared_criteria, verdicts) {
        Ok(e) => e,
        Err(e) => {
            return Err(e);
        },
    };
    let sw = match settlement_gate(
        settled,
        &evaluation,
        declared_model_sha256,
        local_model_sha256,
        authorized_invocation_event_id,
        execution_observation_event_id,
    ) {
        Ok(sw) => sw,
        Err(e) => {
            return Err(e);
        },
    };
    settlement_finish(
        settled,
        declared_criteria,
        verdicts,
        declared_model_sha256,
        local_model_sha256,
        authorized_invocation_event_id,
        execution_observation_event_id,
        optionals,
        evaluation,
        sw,
        event_id,
        occurred_at,
    )
}

/// Judges a settled observation and projects it into the canonical
/// OperationalSettlement envelope under a fresh event id and the current
/// time; see `settlement_emission` for what is returned. When every refusal
/// before the envelope passes but the random source or the clock fails, it
/// is `SystemUnavailable`.
pub fn emit_operational_settlement(
    settled: &ObservationOutcome,
    declared_criteria: &Vec<String>,
    verdicts: &Vec<Option<bool>>,
    declared_model_sha256: &str,
    local_model_sha256: &str,
    authorized_invocation_event_id: &str,
    execution_observation_event_id: &str,
    optionals: SettlementOptionalFields,
) -> (r: Result<OperationalSettlementReturn, SettlementReturnError>)
    requires
        verdicts@.len() == declared_criteria@.len(),
    ensures
        (exists|event_id: Seq<char>, occurred_at: Seq<char>| emission_result_view(r) == settlement_emission(
            settled@,
            strings_view(declared_criteria@),
            verdicts@,
            declared_model_sha256@,
            local_model_sha256@,
            authorized_invocation_event_id@,
            execution_observation_event_id@,
            optionals@,
            event_id,
            occurred_at,
        )) || (r matches Err(SettlementReturnError::SystemUnavailable(m)) && {
            &&& (m@ == crate::governed_execution_boundary::RANDOM_UNAVAILABLE@
                || m@ == crate::governed_execution_boundary::CLOCK_UNAVAILABLE@)
            &&& evaluation_of(settled@, strings_view(declared_criteria@), verdicts@) matches Ok(ev)
            &&& emission_gate(
                settled@,
                ev,
                declared_model_sha256@,
                local_model_sha256@,
                authorized_invocation_event_id@,
                execution_observation_event_id@,
            ) is None
        }),
        r matches Ok(v) ==> exists|event_id: Seq<char>, occurred_at: Seq<char>| crate::governed_execution_boundary::clock_text(
            occurred_at,
        ) && emission_result_view(r) == settlement_emission(
            settled@,
            strings_view(declared_criteria@),
            verdicts@,
            declared_model_sha256@,
            local_model_sha256@,
            authorized_invocation_event_id@,
            execution_observation_event_id@,
            optionals@,
            event_id,
            occurred_at,
        ),
{
    let evaluation = match evaluate_operational_settlement(settled, declared_criteria, verdicts) {
        Ok(e) => e,
        Err(e) => {
            proof {
                assert(emission_result_view(Err(e)) == settlement_emission(
            settled@,
            strings_view(declared_criteria@),
            verdicts@,
            declared_model_sha256@,
            local_model_sha256@,
            authorized_invocation_event_id@,
            execution_observation_event_id@,
            optionals@,
            Seq::empty(),
            Seq::empty(),
                ));
            }
            return Err(e);
        },
    };
    let sw = match settlement_gate(
        settled,
        &evaluation,
        declared_model_sha256,
        local_model_sha256,
        authorized_invocation_event_id,
        execution_observation_event_id,
    ) {
        Ok(sw) => sw,
        Err(e) => {
            proof {
                assert(emission_result_view(Err(e)) == settlement_emission(
            settled@,
            strings_view(declared_criteria@),
            verdicts@,
            declared_model_sha256@,
            local_model_sha256@,
            authorized_invocation_event_id@,
            execution_observation_event_id@,
            optionals@,
            Seq::empty(),
            Seq::empty(),
                ));
            }
            return Err(e);
        },
    };
    let event_id = match crate::governed_execution_boundary::new_event_id() {
        Some(x) => x,
        None => {
            return Err(SettlementReturnError::SystemUnavailable(owned(crate::governed_execution_boundary::RANDOM_UNAVAILABLE)));
        },
    };
    let occurred_at = match crate::governed_execution_boundary::utc_now() {
        Some(x) => x,
        None => {
            return Err(SettlementReturnError::SystemUnavailable(owned(crate::governed_execution_boundary::CLOCK_UNAVAILABLE)));
        },
    };
    let ghost e = event_id@;
    let ghost t = occurred_at@;
    settlement_finish(
        settled,
        declared_criteria,
        verdicts,
        declared_model_sha256,
        local_model_sha256,
        authorized_invocation_event_id,
        execution_observation_event_id,
        optionals,
        evaluation,
        sw,
        event_id,
        occurred_at,
    )
}

// ---------------------------------------------------------------------------
// Laws
// ---------------------------------------------------------------------------

proof fn lemma_nothing_unsatisfied(criteria: Seq<Seq<char>>, verdicts: Seq<Option<bool>>)
    requires
        verdicts.len() == criteria.len(),
        graded(criteria, verdicts).1.len() == 0,
    ensures
        forall|i: int| 0 <= i < criteria.len() ==> #[trigger] verdicts[i] == Some(true),
    decreases criteria.len(),
{
    if criteria.len() > 0 {
        let n = criteria.len() - 1;
        let (sat, unsat, basis) = graded(criteria.drop_last(), verdicts.take(n));
        if verdicts[n] != Some(true) {
            assert(graded(criteria, verdicts).1 == unsat.push(trim(criteria.last())));
        } else {
            lemma_nothing_unsatisfied(criteria.drop_last(), verdicts.take(n));
            assert forall|i: int| 0 <= i < criteria.len() implies #[trigger] verdicts[i] == Some(true) by {
                if i < n {
                    assert(verdicts.take(n)[i] == verdicts[i]);
                }
            }
        }
    }
}

/// Exit status alone never settles a governed execution as accepted: an
/// accepted evaluation comes only from a `completed` execution whose every
/// declared criterion the evaluator attested.
pub proof fn law_acceptance_needs_every_criterion_attested(
    outcome: OutcomeView,
    criteria: Seq<Seq<char>>,
    verdicts: Seq<Option<bool>>,
)
    requires
        verdicts.len() == criteria.len(),
    ensures
        evaluation_of(outcome, criteria, verdicts) matches Ok(e) && e.status == SettlementStatus::Accepted ==> {
            &&& outcome matches OutcomeView::Settled { execution_status, .. } && execution_status == "completed"@
            &&& forall|i: int| 0 <= i < criteria.len() ==> #[trigger] verdicts[i] == Some(true)
        },
{
    if let OutcomeView::Settled { execution_status, .. } = outcome {
        if criteria.len() > 0 && !has_blank(criteria) && execution_status == "completed"@ {
            if graded(criteria, verdicts).1.len() == 0 {
                lemma_nothing_unsatisfied(criteria, verdicts);
            }
        }
    }
}


/// What emission returns passes the wire battery: an emitted settlement's
/// envelope is readable by the battery and the battery finds no fault in it.
pub proof fn law_emitted_settlement_passes_the_wire_battery(
    o: OutcomeView,
    criteria: Seq<Seq<char>>,
    verdicts: Seq<Option<bool>>,
    declared: Seq<char>,
    local: Seq<char>,
    aie: Seq<char>,
    eoe: Seq<char>,
    opt: OptionalFieldsView,
    event_id: Seq<char>,
    occurred_at: Seq<char>,
)
    ensures
        settlement_emission(o, criteria, verdicts, declared, local, aie, eoe, opt, event_id, occurred_at) matches Ok(v) ==> {
            &&& wire_readable(v.envelope, local)
            &&& wire_check(v.envelope, local) is Pass
            &&& evaluation_of(o, criteria, verdicts) == Ok::<EvaluationView, SettlementErrorView>(v.evaluation)
        },
{
    if let Ok(ev) = evaluation_of(o, criteria, verdicts) {
        if emission_gate(o, ev, declared, local, aie, eoe) is None {
            lemma_settlement_payload_readable(o, status_word(ev.status), declared, aie, eoe, opt, event_id, occurred_at, local);
        }
    }
}


/// Emitting twice from one settled observation differs only in the event id
/// and the time: both envelopes carry one payload, and so one idempotency
/// key, and the same identities and evaluation; the payload's status word is
/// `accepted` exactly when the evaluation accepted.
pub proof fn law_repeated_emission_keeps_payload_and_key(
    o: OutcomeView,
    criteria: Seq<Seq<char>>,
    verdicts: Seq<Option<bool>>,
    declared: Seq<char>,
    local: Seq<char>,
    aie: Seq<char>,
    eoe: Seq<char>,
    opt: OptionalFieldsView,
    e1: Seq<char>,
    t1: Seq<char>,
    e2: Seq<char>,
    t2: Seq<char>,
)
    ensures
        (settlement_emission(o, criteria, verdicts, declared, local, aie, eoe, opt, e1, t1) is Ok
            && settlement_emission(o, criteria, verdicts, declared, local, aie, eoe, opt, e2, t2) is Ok) ==> {
            let v1 = settlement_emission(o, criteria, verdicts, declared, local, aie, eoe, opt, e1, t1)->Ok_0;
            let v2 = settlement_emission(o, criteria, verdicts, declared, local, aie, eoe, opt, e2, t2)->Ok_0;
            let p = settlement_payload(o, status_word(v1.evaluation.status), declared, aie, eoe, opt);
            &&& v1.envelope == settlement_envelope(p, declared, aie, eoe, e1, t1)
            &&& v2.envelope == settlement_envelope(p, declared, aie, eoe, e2, t2)
            &&& v1.evaluation == v2.evaluation
            &&& v1.work_request_id == v2.work_request_id
            &&& v1.authority_decision_id == v2.authority_decision_id
            &&& v1.invocation_id == v2.invocation_id
            &&& (status_word(v1.evaluation.status) == "accepted"@ <==> v1.evaluation.status == SettlementStatus::Accepted)
        },
{
    reveal_strlit("accepted");
    reveal_strlit("rejected");
    assert("accepted"@[0] != "rejected"@[0]);
}

} // verus!
