use sea_forge_server::identity::{ActorClaim, ActorRole, IdentityBinding, IdentityBindings, PeerIdentity};
use sea_forge_server::json::{get_str, render_exec, Json};
use sea_forge_server::request::{
    admission_step, attribute, dedupe_key, default_entity, default_policy, default_process, default_purpose,
    default_timeout, durable_locator_refusal, handler_failed, is_oversized_line, is_protected, request_entity,
    request_id, requires_durable_locator, resolves_approval, separation_of_duty, timeout_response,
    unwritable_correlation, AdmissionStep, DeadlinePhase, Verb,
};
use sea_forge_server::sfwp::correlation::{payload_hash, DedupeVerdict};

fn to_json(v: &serde_json::Value) -> Json {
    match v {
        serde_json::Value::Null => Json::Null,
        serde_json::Value::Bool(b) => Json::Bool(*b),
        serde_json::Value::Number(n) => Json::Number(n.to_string()),
        serde_json::Value::String(s) => Json::Str(s.clone()),
        serde_json::Value::Array(items) => Json::Array(items.iter().map(to_json).collect()),
        serde_json::Value::Object(map) => Json::Object(map.iter().map(|(k, v)| (k.clone(), to_json(v))).collect()),
    }
}

fn json(text: &str) -> Json {
    to_json(&serde_json::from_str(text).unwrap())
}

fn text(j: &Json) -> String {
    render_exec(j, false)
}

fn answer(step: AdmissionStep) -> String {
    match step {
        AdmissionStep::Answer(body) => text(&body),
        AdmissionStep::BindPending => "bind".into(),
    }
}

#[test]
fn a_timeout_names_the_request_to_recover_with() {
    let response = timeout_response(DeadlinePhase::AfterAdmission, 0, Some("req_recover_me"));
    assert_eq!(get_str(&response, "request_id"), Some("req_recover_me"));
    assert_eq!(get_str(&response, "recover_with"), Some("request.get_status"));
    assert!(text(&response).contains(r#""timeout_seconds":0"#));
    assert_eq!(get_str(&response, "error_class"), Some("request_timeout"));
}

#[test]
fn a_timeout_without_a_request_id_is_still_typed() {
    let response = timeout_response(DeadlinePhase::Unadmitted, 30, None);
    assert_eq!(get_str(&response, "error_class"), Some("request_timeout"));
    assert!(text(&response).contains(r#""request_id":null"#));
    assert_eq!(get_str(&response, "error"), Some("request exceeded the 30s server timeout; the work was not cancelled"));
}

#[test]
fn a_timeout_before_admission_claims_no_side_effect() {
    let response = timeout_response(DeadlinePhase::BeforeAdmission, 5, Some("r"));
    assert!(text(&response).contains(r#""no_side_effect":true"#));
    assert!(get_str(&response, "recover_with").is_none());
}

#[test]
fn a_panicking_handler_is_reported_not_propagated() {
    let response = handler_failed("boom");
    assert_eq!(text(&response), r#"{"error":"request handler failed: boom","error_class":"internal_error"}"#);
}

#[test]
fn admission_replays_answers_refuses_or_binds() {
    let outcome = json(r#"{"state":"completed"}"#);
    assert_eq!(answer(admission_step("r1", Ok(DedupeVerdict::Replay(outcome)))), r#"{"state":"completed"}"#);
    assert_eq!(
        answer(admission_step("r1", Ok(DedupeVerdict::Pending))),
        r#"{"recover_with":"request.get_status","request_id":"r1","status":"pending"}"#
    );
    let reused = answer(admission_step("r1", Ok(DedupeVerdict::Reused)));
    assert!(reused.contains(r#""error_class":"request_id_reused""#), "{reused}");
    assert!(reused.contains(r#""no_side_effect":true"#), "{reused}");
    assert_eq!(answer(admission_step("r1", Ok(DedupeVerdict::Proceed))), "bind");
    let unreadable = answer(admission_step("r1", Err("disk on fire".into())));
    assert!(unreadable.contains("could not be read"), "{unreadable}");
    assert!(unreadable.contains(r#""error_class":"idempotency_unverifiable""#), "{unreadable}");
    let unwritable = text(&unwritable_correlation("r1", "read-only"));
    assert!(unwritable.contains("could not be written, so this request cannot be made idempotent: read-only"));
}

#[test]
fn verbs_split_into_protected_and_durable() {
    assert!(is_protected(Verb::Submit) && requires_durable_locator(Verb::Submit));
    assert!(is_protected(Verb::Ask) && !requires_durable_locator(Verb::Ask));
    assert!(!is_protected(Verb::RunList) && !requires_durable_locator(Verb::RunList));
    assert!(resolves_approval(Verb::ApprovalDecide) && !resolves_approval(Verb::Submit));
    assert_eq!(request_id(Verb::Submit, Some("")), None);
    assert_eq!(request_id(Verb::Submit, Some("r")), Some("r"));
    assert_eq!(request_id(Verb::Status, Some("r")), None);
    assert!(text(&durable_locator_refusal()).contains("durable_locator_required"));
}

#[test]
fn the_dedupe_key_hashes_the_line_without_its_id() {
    let line = json(r#"{"verb":"case_submit","request_id":"req-1","plan":"p.json"}"#);
    let (id, verb, hash) = dedupe_key(Verb::Submit, &line).unwrap();
    assert_eq!(id, "req-1");
    assert_eq!(verb, "case_submit");
    assert_eq!(hash, payload_hash(&json(r#"{"verb":"case_submit","plan":"p.json"}"#)));
    assert!(dedupe_key(Verb::Status, &line).is_none());
    assert!(dedupe_key(Verb::Submit, &json(r#"{"verb":"x","request_id":""}"#)).is_none());
    let (_, unknown, _) = dedupe_key(Verb::Submit, &json(r#"{"request_id":"q"}"#)).unwrap();
    assert_eq!(unknown, "unknown");
}

fn bindings() -> IdentityBindings {
    IdentityBindings {
        bindings: vec![IdentityBinding { uid: 1000, actor_id: "operator_local".into(), roles: vec![ActorRole::operator()] }],
    }
}

#[test]
fn a_request_must_attribute_its_work_to_the_verified_actor() {
    let claim = ActorClaim { actor_id: "operator_local".into(), role: ActorRole::operator() };
    let peer = Some(PeerIdentity { uid: 1000 });
    assert!(attribute(&bindings(), Some(&claim), peer, Some("operator_local")).is_ok());
    assert!(attribute(&bindings(), Some(&claim), peer, None).is_ok());
    match attribute(&bindings(), Some(&claim), peer, Some("someone_else")) {
        Err(body) => assert_eq!(get_str(&body, "error_class"), Some("identity_entity_mismatch")),
        Ok(_) => panic!("a mismatched entity must be refused"),
    }
    match attribute(&bindings(), None, peer, None) {
        Err(body) => assert_eq!(get_str(&body, "error_class"), Some("identity_required")),
        Ok(_) => panic!("no claim, no protected work"),
    }
    assert_eq!(request_entity(&json(r#"{"entity":"e"}"#)), Some("e".to_string()));
    assert_eq!(request_entity(&json(r#"{"entity":3}"#)), None);
}

#[test]
fn an_approver_may_not_resolve_their_own_work() {
    let claim = ActorClaim { actor_id: "operator_local".into(), role: ActorRole::operator() };
    let actor = match attribute(&bindings(), Some(&claim), Some(PeerIdentity { uid: 1000 }), None) {
        Ok(a) => a,
        Err(_) => panic!("bound actor"),
    };
    let own = separation_of_duty(&actor, "apr_0001", &Ok(Some("operator_local".into()))).unwrap();
    assert_eq!(get_str(&own, "error_class"), Some("separation_of_duty"));
    assert!(separation_of_duty(&actor, "apr_0001", &Ok(Some("other".into()))).is_none());
    assert!(separation_of_duty(&actor, "apr_0001", &Ok(None)).is_none());
    let unknown = separation_of_duty(&actor, "apr_0001", &Err("ledger torn".into())).unwrap();
    assert_eq!(get_str(&unknown, "error_class"), Some("separation_of_duty_unverifiable"));
}

#[test]
fn defaults_and_line_caps() {
    assert_eq!(default_policy(), "sea-forge-policy.yaml");
    assert_eq!(default_entity(), "operator_local");
    assert_eq!(default_process(), "server");
    assert_eq!(default_timeout(), 60);
    assert_eq!(default_purpose(), "planning");
    assert!(is_oversized_line(1024, 1024, false));
    assert!(!is_oversized_line(1024, 1024, true));
    assert!(!is_oversized_line(10, 1024, false));
}
