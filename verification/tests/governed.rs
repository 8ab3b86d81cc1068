use sea_forge_server::governed_execution_boundary::{
    emit_authorized_invocation, operation_and_resource, slot_key, AuthorityAction, AuthorityDecision,
    BoundaryError, InvocationLedger, ObservationOutcome,
};
use sea_forge_server::governed_work_ingress::{accept_governed_work_request, GovernedIngressError};
use sea_forge_server::json::{get_str, render_exec, Json};

fn to_json(v: &serde_json::Value) -> Json {
    match v {
        serde_json::Value::Null => Json::Null,
        serde_json::Value::Bool(b) => Json::Bool(*b),
        serde_json::Value::Number(n) => Json::Number(n.to_string()),
        serde_json::Value::String(s) => Json::Str(s.clone()),
        serde_json::Value::Array(items) => Json::Array(items.iter().map(to_json).collect()),
        serde_json::Value::Object(map) => Json::Object(map.iter().map(|(k, v)| (k.clone(), to_json(v))).collect()),
    }
}

fn json(text: &str) -> Json {
    to_json(&serde_json::from_str(text).unwrap())
}

const MODEL: &str = "1111111111111111111111111111111111111111111111111111111111111111";
const OTHER_MODEL: &str = "2222222222222222222222222222222222222222222222222222222222222222";

// ---------------------------------------------------------------------------
// GovernedWorkRequest ingress
// ---------------------------------------------------------------------------

fn request_with(payload: &str, chain: &str) -> Json {
    json(&format!(
        r#"{{"schema_version":"v1","event_id":"evt-req","event_type":"GovernedWorkRequest",
            "source_agent":"swe-seed","payload":{payload},"provenance":{{"chain":{chain}}}}}"#
    ))
}

fn good_payload(model: &str) -> String {
    format!(
        r#"{{"domain_model_hash":"{model}","work_request_id":"wr-1","affordance_id":"aff-1",
            "intent":"  fix the build  ","context_packet_ref":"ctx-1",
            "actor":{{"actor_id":"dev-1","role":"engineer"}},
            "settlement_criteria":["tests pass", "  ", 7],
            "proof_contract":{{"criterion":"ci green"}}}}"#
    )
}

fn packet(work_request_id: &str, packet_id: &str, model: &str) -> Json {
    json(&format!(
        r#"{{"schema_version":"v1","event_id":"evt-ctx","event_type":"ContextPacketCreated",
            "source_agent":"context-kernel",
            "payload":{{"domain_model_hash":"{model}","work_request_id":"{work_request_id}","context_packet_id":"{packet_id}"}}}}"#
    ))
}

fn good_request() -> Json {
    request_with(&good_payload(MODEL), r#"["domain_model_hash:x","caused_by:evt-ctx"]"#)
}

fn ingress_error(request: &Json, packet: &Json, local: &str) -> GovernedIngressError {
    match accept_governed_work_request(request, packet, local) {
        Ok(intent) => panic!("accepted {}", intent.work_request_id),
        Err(e) => e,
    }
}

#[test]
fn a_well_formed_request_is_accepted_with_its_obligations_kept_apart() {
    let intent = match accept_governed_work_request(&good_request(), &packet("wr-1", "ctx-1", MODEL), MODEL) {
        Ok(i) => i,
        Err(e) => panic!("refused: {}", e.message()),
    };
    assert_eq!(intent.work_request_id, "wr-1");
    assert_eq!(intent.affordance_id, "aff-1");
    assert_eq!(intent.intent, "fix the build");
    assert_eq!(intent.actor_id, "dev-1");
    assert_eq!(intent.actor_role.as_deref(), Some("engineer"));
    assert_eq!(intent.context_packet_ref, "ctx-1");
    assert_eq!(intent.settlement_criteria, vec!["tests pass".to_string()]);
    assert_eq!(render_exec(&intent.proof_contract, false), r#"{"criterion":"ci green"}"#);
}

#[test]
fn only_swe_seed_may_produce_a_governed_work_request() {
    let forged = json(&render_exec(&good_request(), false).replace("swe-seed", "sea-forge"));
    assert_eq!(
        ingress_error(&forged, &packet("wr-1", "ctx-1", MODEL), MODEL),
        GovernedIngressError::NotAuthoritative { authoritative: "swe_seed", got: "sea-forge".into() }
    );
    let unknown = json(&render_exec(&good_request(), false).replace("swe-seed", "mallory"));
    assert_eq!(
        ingress_error(&unknown, &packet("wr-1", "ctx-1", MODEL), MODEL),
        GovernedIngressError::UnknownAgent { got: "mallory".into() }
    );
}

#[test]
fn placeholder_and_drifted_model_identities_are_refused() {
    let zero = "0".repeat(64);
    let request = request_with(&good_payload(&zero), r#"["caused_by:evt-ctx"]"#);
    assert_eq!(
        ingress_error(&request, &packet("wr-1", "ctx-1", &zero), &zero),
        GovernedIngressError::PlaceholderIdentity { got: zero.clone() }
    );
    assert_eq!(
        ingress_error(&good_request(), &packet("wr-1", "ctx-1", MODEL), OTHER_MODEL),
        GovernedIngressError::DomainDrift { declared: MODEL.into(), local: OTHER_MODEL.into() }
    );
}

#[test]
fn an_opaque_command_lists_everything_that_made_it_ungovernable() {
    let request = request_with(
        &format!(r#"{{"domain_model_hash":"{MODEL}","argv":["make"],"proof_contract":{{}}}}"#),
        r#"["caused_by:evt-ctx"]"#,
    );
    assert_eq!(
        ingress_error(&request, &packet("wr-1", "ctx-1", MODEL), MODEL),
        GovernedIngressError::OpaqueCommand {
            missing: vec![
                "work_request_id",
                "affordance_id",
                "intent",
                "context_packet_ref",
                "actor",
                "settlement_criteria",
                "proof_contract.criterion",
            ]
        }
    );
}

#[test]
fn a_proof_contract_equal_to_the_criteria_is_a_collapsed_obligation() {
    let payload = good_payload(MODEL).replace(r#"{"criterion":"ci green"}"#, r#"["tests pass"]"#);
    let request = request_with(&payload, r#"["caused_by:evt-ctx"]"#);
    assert_eq!(
        ingress_error(&request, &packet("wr-1", "ctx-1", MODEL), MODEL),
        GovernedIngressError::CollapsedObligations
    );
}

#[test]
fn the_context_packet_must_belong_to_the_request_and_be_its_cause() {
    assert_eq!(
        ingress_error(&good_request(), &packet("wr-2", "ctx-1", MODEL), MODEL),
        GovernedIngressError::CrossWiredContextPacket { expected: "wr-1".into(), got: "wr-2".into() }
    );
    assert_eq!(
        ingress_error(&good_request(), &packet("wr-1", "ctx-9", MODEL), MODEL),
        GovernedIngressError::ContextRefMismatch { declared_ref: "ctx-1".into(), packet_id: "ctx-9".into() }
    );
    let orphan = request_with(&good_payload(MODEL), r#"["caused_by:evt-other", 3]"#);
    assert_eq!(
        ingress_error(&orphan, &packet("wr-1", "ctx-1", MODEL), MODEL),
        GovernedIngressError::CausalityMissing { expected_parent: "evt-ctx".into(), recorded: vec!["evt-other".into()] }
    );
}

#[test]
fn ingress_refusals_read_as_sentences() {
    assert_eq!(
        GovernedIngressError::OpaqueCommand { missing: vec!["intent", "actor"] }.message(),
        "opaque command rejected — missing semantic intent fields: intent, actor"
    );
}

// ---------------------------------------------------------------------------
// Execution boundary
// ---------------------------------------------------------------------------

fn decision(allow: bool) -> AuthorityDecision {
    AuthorityDecision {
        decision_id: "dec-1".into(),
        verdict_allows: allow,
        disposition: if allow { "Allow".into() } else { "Deny".into() },
        operation: AuthorityAction::ExecuteCommand { argv: vec!["cargo".into(), "test".into()] },
        sandbox_class_granted: Some("standard".into()),
        timeout_secs: Some(30),
        compensating_controls: Vec::new(),
    }
}

fn observation(event_id: &str, invocation_id: &str, parent: &str, extra: &str) -> Json {
    json(&format!(
        r#"{{"schema_version":"v1","event_id":"{event_id}","event_type":"ExecutionObservation",
            "source_agent":"execution-environment","idempotency_key":"idem-{event_id}",
            "payload":{{"domain_model_hash":"{MODEL}","work_request_id":"wr-1","invocation_id":"{invocation_id}",
                        "execution_status":"completed","observed_effects":[]{extra}}},
            "provenance":{{"chain":["caused_by:{parent}"]}}}}"#
    ))
}

#[test]
fn no_invocation_exists_without_an_allow_decision() {
    match emit_authorized_invocation(&decision(false), "wr-1", MODEL, MODEL, "evt-req", None) {
        Err(e) => assert_eq!(e, BoundaryError::AuthorityNotGranted { disposition: "Deny".into() }),
        Ok(_) => panic!("a denied decision produced an invocation"),
    }
    match emit_authorized_invocation(&decision(true), "  ", MODEL, MODEL, "evt-req", None) {
        Err(e) => assert_eq!(e, BoundaryError::OpaqueWorkRequest),
        Ok(_) => panic!("a blank work request produced an invocation"),
    }
    match emit_authorized_invocation(&decision(true), "wr-1", MODEL, MODEL, "TBD", None) {
        Err(e) => assert_eq!(e, BoundaryError::PlaceholderField { field: "governed_work_request_event_id".into() }),
        Ok(_) => panic!("a placeholder parent produced an invocation"),
    }
}

#[test]
fn an_emitted_invocation_is_admitted_and_its_observation_settles_once() {
    let inv = match emit_authorized_invocation(&decision(true), "wr-1", MODEL, MODEL, "evt-req", Some("grant-7")) {
        Ok(i) => i,
        Err(e) => panic!("{}", e.message()),
    };
    assert_eq!(inv.operation, "execute_command");
    assert_eq!(inv.resource, "cargo");
    assert!(inv.invocation_id.starts_with("inv_"));
    assert_eq!(inv.invocation_id.len(), 20);
    let payload = sea_forge_server::json::get(&inv.envelope, "payload").unwrap();
    assert_eq!(get_str(payload, "grant_id"), Some("grant-7"));
    assert_eq!(get_str(&inv.envelope, "source_agent"), Some("sea-forge"));

    let mut ledger = InvocationLedger::new();
    assert_eq!(ledger.admit_authorized_invocation(&inv.envelope, MODEL), Ok(1));
    assert_eq!(ledger.admit_authorized_invocation(&inv.envelope, MODEL), Ok(1), "re-admission is idempotent");
    assert_eq!(ledger.current_generation("wr-1", "execute_command", "cargo"), Some(1));

    let obs = observation("obs-1", &inv.invocation_id, &inv.event_id, "");
    match ledger.settle_execution_observation(&obs, MODEL) {
        Ok(ObservationOutcome::Settled { authority_decision_id, execution_status, .. }) => {
            assert_eq!(authority_decision_id, "dec-1");
            assert_eq!(execution_status, "completed");
        },
        Ok(ObservationOutcome::DuplicateDelivery) => panic!("first delivery is not a duplicate"),
        Err(e) => panic!("{}", e.message()),
    }
    match ledger.settle_execution_observation(&obs, MODEL) {
        Ok(outcome) => assert!(!outcome.settled(), "a redelivery is consequence-free"),
        Err(e) => panic!("{}", e.message()),
    }
}

#[test]
fn a_superseded_generation_never_settles_and_fabricated_authority_is_refused() {
    let first = emit_authorized_invocation(&decision(true), "wr-1", MODEL, MODEL, "evt-req", None).ok().unwrap();
    let second = emit_authorized_invocation(&decision(true), "wr-1", MODEL, MODEL, "evt-req", None).ok().unwrap();
    let mut ledger = InvocationLedger::new();
    assert_eq!(ledger.admit_authorized_invocation(&first.envelope, MODEL), Ok(1));
    assert_eq!(ledger.admit_authorized_invocation(&second.envelope, MODEL), Ok(2));

    let late = observation("obs-late", &first.invocation_id, &first.event_id, "");
    assert_eq!(
        ledger.settle_execution_observation(&late, MODEL).err(),
        Some(BoundaryError::LateObservation {
            invocation_id: first.invocation_id.clone(),
            settled_generation: 1,
            current_generation: 2,
        })
    );

    let forged = observation("obs-forged", &second.invocation_id, &second.event_id, r#","authority_decision_id":"dec-evil""#);
    assert_eq!(
        ledger.settle_execution_observation(&forged, MODEL).err(),
        Some(BoundaryError::SelfAssertedAuthority { recorded: "dec-1".into(), claimed: "dec-evil".into() })
    );

    let unknown = observation("obs-x", "inv_unknown", &second.event_id, "");
    assert_eq!(
        ledger.settle_execution_observation(&unknown, MODEL).err(),
        Some(BoundaryError::UnknownInvocation { invocation_id: "inv_unknown".into() })
    );

    let uncaused = observation("obs-y", &second.invocation_id, "evt-other", "");
    match ledger.settle_execution_observation(&uncaused, MODEL) {
        Err(BoundaryError::CausalityMissing { expected_parent, .. }) => assert_eq!(expected_parent, second.event_id),
        _ => panic!("an observation that does not cite its invocation must not settle"),
    }
}

#[test]
fn every_action_projects_to_an_operation_and_resource() {
    let pairs = [
        (AuthorityAction::WriteFile { path: "a.txt".into() }, ("write_file", "a.txt")),
        (AuthorityAction::ExecuteCommand { argv: Vec::new() }, ("execute_command", "")),
        (AuthorityAction::AgentTask { host: "api.x".into() }, ("external_api", "api.x")),
        (AuthorityAction::GitCommit, ("git_commit", "repository")),
        (AuthorityAction::GithubPr, ("github_pr", "pull_request")),
        (AuthorityAction::Unclassified { raw_kind: "weird".into() }, ("unclassified", "weird")),
    ];
    for (action, (op, res)) in pairs {
        let (o, r) = operation_and_resource(&action);
        assert_eq!((o.as_str(), r.as_str()), (op, res));
    }
    assert_eq!(slot_key("wr", "op", "res"), "wr\u{1f}op\u{1f}res");
}

// ---------------------------------------------------------------------------
// Operational settlement return
// ---------------------------------------------------------------------------

use sea_forge_server::governed_settlement_return::{
    emit_operational_settlement, evaluate_operational_settlement, validate_evidence_ref,
    validate_operational_settlement_wire, wire_readable_exec, SettlementOptionalFields, SettlementReturnError, SettlementStatus,
};

fn settled(status: &str, effects: &str) -> ObservationOutcome {
    ObservationOutcome::Settled {
        invocation_id: "inv_0011223344556677".into(),
        work_request_id: "wr-1".into(),
        authority_decision_id: "dec-1".into(),
        execution_status: status.into(),
        observed_effects: json(effects),
    }
}

fn criteria(items: &[&str]) -> Vec<String> {
    items.iter().map(|s| s.to_string()).collect()
}

#[test]
fn exit_zero_alone_never_settles_accepted() {
    let outcome = settled("completed", r#"["tests pass"]"#);
    let eval = evaluate_operational_settlement(&outcome, &criteria(&["tests pass", " lint clean "]), &vec![Some(true), None])
        .unwrap();
    assert_eq!(eval.status, SettlementStatus::Rejected);
    assert_eq!(
        eval.basis,
        criteria(&["criterion_satisfied:tests pass", "criterion_unsatisfied:lint clean", "status_completed"])
    );
    assert_eq!(eval.satisfied_criteria, criteria(&["tests pass"]));
    assert_eq!(eval.unsatisfied_criteria, criteria(&["lint clean"]));

    let all = evaluate_operational_settlement(&outcome, &criteria(&["tests pass"]), &vec![Some(true)]).unwrap();
    assert_eq!(all.status, SettlementStatus::Accepted);
}

#[test]
fn a_failed_execution_rejects_with_the_kernels_own_basis() {
    let eval =
        evaluate_operational_settlement(&settled("sandbox_violation", "[]"), &criteria(&[" a "]), &vec![Some(true)])
            .unwrap();
    assert_eq!(eval.status, SettlementStatus::Rejected);
    assert_eq!(eval.basis, criteria(&["jail_violation"]));
    assert_eq!(eval.unsatisfied_criteria, criteria(&["a"]));
    assert!(eval.satisfied_criteria.is_empty());
}

#[test]
fn nothing_settled_and_blank_criteria_are_refused() {
    assert_eq!(
        evaluate_operational_settlement(&ObservationOutcome::DuplicateDelivery, &criteria(&["a"]), &vec![None]).err(),
        Some(SettlementReturnError::NothingSettled)
    );
    assert_eq!(
        evaluate_operational_settlement(&settled("completed", "[]"), &criteria(&[]), &vec![]).err(),
        Some(SettlementReturnError::OpaqueCriteria)
    );
    assert_eq!(
        evaluate_operational_settlement(&settled("completed", "[]"), &criteria(&["a", "  "]), &vec![None, None]).err(),
        Some(SettlementReturnError::OpaqueCriteria)
    );
}

#[test]
fn evidence_references_are_kind_value_and_content_addressed() {
    assert!(validate_evidence_ref("authorized_invocation:evt-1").is_ok());
    assert!(validate_evidence_ref(&format!("sha256:{MODEL}")).is_ok());
    assert!(validate_evidence_ref("sha256:abc").is_err());
    assert!(validate_evidence_ref("no colon").is_err());
    assert!(validate_evidence_ref("nocolon").is_err());
    assert!(validate_evidence_ref("   ").is_err());
}

#[test]
fn an_emitted_settlement_passes_its_own_wire_battery_and_cites_its_chain() {
    let outcome = settled("completed", r#"{"b":1,"a":"tests pass"}"#);
    let optionals = SettlementOptionalFields {
        case_id: Some(" case-1 "),
        run_id: None,
        artifact_refs: None,
        transcript_ref: None,
        failure_reason: None,
    };
    let ret = match emit_operational_settlement(
        &outcome,
        &criteria(&["tests pass"]),
        &vec![Some(true)],
        MODEL,
        MODEL,
        "evt-inv",
        "evt-obs",
        optionals,
    ) {
        Ok(r) => r,
        Err(e) => panic!("{}", e.message()),
    };
    assert_eq!(ret.evaluation.status, SettlementStatus::Accepted);
    assert_eq!(ret.authority_decision_id, "dec-1");
    assert!(validate_operational_settlement_wire(&ret.envelope, MODEL).is_ok());
    let text = render_exec(&ret.envelope, false);
    let digest = sea_forge_server::envelope::sha256_hex(r#"{"a":"tests pass","b":1}"#);
    assert!(text.contains(&format!(r#""evidence_refs":["sha256:{digest}","authorized_invocation:evt-inv","execution_observation:evt-obs"]"#)), "{text}");
    assert!(text.contains(r#""case_id":"case-1""#), "{text}");
    assert!(text.contains(r#""operational_settlement_status":"accepted""#), "{text}");
    assert!(text.contains(r#""chain":["domain_model_hash:"#), "{text}");

    // A drifted local model refuses the projection.
    let drift = emit_operational_settlement(
        &outcome,
        &criteria(&["tests pass"]),
        &vec![Some(true)],
        MODEL,
        OTHER_MODEL,
        "evt-inv",
        "evt-obs",
        SettlementOptionalFields { case_id: None, run_id: None, artifact_refs: None, transcript_ref: None, failure_reason: None },
    );
    assert_eq!(
        drift.err(),
        Some(SettlementReturnError::DomainDrift { declared: MODEL.into(), local: OTHER_MODEL.into() })
    );
}

fn settled_optionals() -> SettlementOptionalFields<'static> {
    SettlementOptionalFields { case_id: None, run_id: None, artifact_refs: None, transcript_ref: None, failure_reason: None }
}

#[test]
fn a_foreign_envelope_is_tested_for_readability_before_the_battery() {
    let ret = emit_operational_settlement(
        &settled("completed", "[]"),
        &criteria(&["tests pass"]),
        &vec![Some(true)],
        MODEL,
        MODEL,
        "evt-inv",
        "evt-obs",
        settled_optionals(),
    )
    .ok()
    .unwrap();
    assert!(wire_readable_exec(&ret.envelope, MODEL));
    assert!(wire_readable_exec(&json(r#"{"payload":{}}"#), MODEL));
    let text = render_exec(&ret.envelope, false);
    assert!(text.contains(r#""execution_status":"completed""#), "{text}");
    let unreadable = json(&text.replace(r#""execution_status":"completed""#, r#""execution_status":7"#));
    assert!(!wire_readable_exec(&unreadable, MODEL));
}

#[test]
fn emitting_twice_keeps_the_payload_and_the_idempotency_key() {
    let outcome = settled("completed", r#"["tests pass"]"#);
    let emit = || {
        emit_operational_settlement(
            &outcome,
            &criteria(&["tests pass"]),
            &vec![Some(true)],
            MODEL,
            MODEL,
            "evt-inv",
            "evt-obs",
            settled_optionals(),
        )
        .ok()
        .unwrap()
    };
    let (first, second) = (emit(), emit());
    let member = |env: &Json, key: &str| match env {
        Json::Object(members) => members.iter().find(|(k, _)| k == key).map(|(_, v)| render_exec(v, false)),
        _ => None,
    };
    assert_eq!(member(&first.envelope, "payload"), member(&second.envelope, "payload"));
    assert!(member(&first.envelope, "idempotency_key").is_some());
    assert_eq!(member(&first.envelope, "idempotency_key"), member(&second.envelope, "idempotency_key"));
    assert_ne!(first.event_id, second.event_id);
    assert_eq!(first.evaluation.status, second.evaluation.status);
}

#[test]
fn the_current_generation_is_the_highest_granted_after_any_calls() {
    let mut ledger = InvocationLedger::new();
    assert_eq!(ledger.current_generation("wr-1", "execute_command", "cargo"), None);
    let first = emit_authorized_invocation(&decision(true), "wr-1", MODEL, MODEL, "evt-req", None).ok().unwrap();
    let second = emit_authorized_invocation(&decision(true), "wr-1", MODEL, MODEL, "evt-req", None).ok().unwrap();
    let mut granted = Vec::new();
    granted.push(ledger.admit_authorized_invocation(&first.envelope, MODEL).unwrap());
    let obs = observation("obs-1", &first.invocation_id, &first.event_id, "");
    assert!(ledger.settle_execution_observation(&obs, MODEL).is_ok());
    granted.push(ledger.admit_authorized_invocation(&second.envelope, MODEL).unwrap());
    granted.push(ledger.admit_authorized_invocation(&first.envelope, MODEL).unwrap());
    assert!(ledger.admit_authorized_invocation(&json("{}"), MODEL).is_err());
    assert_eq!(granted, vec![1, 2, 1]);
    assert_eq!(ledger.current_generation("wr-1", "execute_command", "cargo"), granted.iter().copied().max());
    assert_eq!(ledger.current_generation("wr-2", "execute_command", "cargo"), None);
}

#[test]
fn a_superseded_invocation_stays_late_whatever_calls_follow() {
    let first = emit_authorized_invocation(&decision(true), "wr-1", MODEL, MODEL, "evt-req", None).ok().unwrap();
    let second = emit_authorized_invocation(&decision(true), "wr-1", MODEL, MODEL, "evt-req", None).ok().unwrap();
    let other = emit_authorized_invocation(&decision(true), "wr-2", MODEL, MODEL, "evt-req-2", None).ok().unwrap();
    let mut ledger = InvocationLedger::new();
    assert_eq!(ledger.admit_authorized_invocation(&first.envelope, MODEL), Ok(1));
    assert_eq!(ledger.admit_authorized_invocation(&second.envelope, MODEL), Ok(2));
    assert_eq!(ledger.admit_authorized_invocation(&other.envelope, MODEL), Ok(1));
    let current = observation("obs-current", &second.invocation_id, &second.event_id, "");
    assert!(matches!(ledger.settle_execution_observation(&current, MODEL), Ok(ObservationOutcome::Settled { .. })));
    let late = observation("obs-late", &first.invocation_id, &first.event_id, "");
    assert_eq!(
        ledger.settle_execution_observation(&late, MODEL).err(),
        Some(BoundaryError::LateObservation {
            invocation_id: first.invocation_id.clone(),
            settled_generation: 1,
            current_generation: 2,
        })
    );
}
