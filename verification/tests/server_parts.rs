use sea_forge_server::agent_probe::{
    accepted_probe, adapter_descriptor, admit_probe, error_class, is_new_registration, list as agent_list,
    path_join_exec, registration_stale_reason, rejected_probe, resolve_policy_path, AgentError,
};
use sea_forge_server::case_dispatch::{
    action_effect, completed, dispatch_error_basis, entry_of, episode_kind, next_instance, notify_event, parked,
    submitted_response, terminated, round_end, CaseAction, DispatchEffect, DispatchKind, RoundEnd,
};
use sea_forge_server::delegation::{DelegationRefusal, EndpointSnapshot, ProviderKind};
use sea_forge_server::envelope::{
    canonical_agent, causal_parents, check_identity_string, is_sha256_hex, meaningful, sha256_hex,
    verify_model_identity,
};
use sea_forge_server::governed_settlement_return::SettlementStatus;
use sea_forge_server::json::{render_exec, Json};
use sea_forge_server::sfwp::{describe, get_schema, hello, version_supported, InteractionClass};

fn to_json(v: &serde_json::Value) -> Json {
    match v {
        serde_json::Value::Null => Json::Null,
        serde_json::Value::Bool(b) => Json::Bool(*b),
        serde_json::Value::Number(n) => Json::Number(n.to_string()),
        serde_json::Value::String(s) => Json::Str(s.clone()),
        serde_json::Value::Array(items) => Json::Array(items.iter().map(to_json).collect()),
        serde_json::Value::Object(map) => Json::Object(map.iter().map(|(k, v)| (k.clone(), to_json(v))).collect()),
    }
}

fn json(text: &str) -> Json {
    to_json(&serde_json::from_str(text).unwrap())
}

// ---------------------------------------------------------------------------
// case dispatch
// ---------------------------------------------------------------------------

#[test]
fn each_case_action_has_its_effect() {
    match action_effect(CaseAction::TerminateCase { blocking_item: "i3".into() }) {
        DispatchEffect::Terminate { close_reason, payload } => {
            assert_eq!(close_reason, "required_item_failed:i3");
            assert_eq!(render_exec(&payload, false), r#"{"blocking_item":"i3"}"#);
        },
        _ => panic!("termination expected"),
    }
    match action_effect(CaseAction::ParkHumanTask("h1".into())) {
        DispatchEffect::Park { item, payload } => {
            assert_eq!(item, "h1");
            assert_eq!(render_exec(&payload, false), r#"{"human_task":true}"#);
        },
        _ => panic!("park expected"),
    }
    match action_effect(CaseAction::Enable("i1".into())) {
        DispatchEffect::Record { kind, item, .. } => {
            assert_eq!(kind, "item_enabled");
            assert_eq!(item.as_deref(), Some("i1"));
        },
        _ => panic!("record expected"),
    }
    assert!(matches!(action_effect(CaseAction::CompleteCase), DispatchEffect::Complete));
    assert!(matches!(action_effect(CaseAction::Activate("i2".into())), DispatchEffect::Dispatch { .. }));
}

#[test]
fn outcomes_carry_the_cli_exit_codes() {
    assert_eq!((parked("c".into()).state, parked("c".into()).exit_code), ("active".to_string(), 5));
    assert_eq!(completed("c".into()).exit_code, 0);
    assert_eq!(terminated("c".into()).exit_code, 3);
    let entry = entry_of(&terminated("c9".into()));
    assert_eq!(entry.exit_code, Some(3));
    assert_eq!(entry.state, "terminated");
    assert_eq!(render_exec(&submitted_response(&completed("c1".into())), false), r#"{"case_id":"c1","exit_code":0,"state":"completed"}"#);
    assert_eq!(render_exec(&notify_event("c1"), false), r#"{"case_id":"c1","event":"run_finished"}"#);
}

#[test]
fn only_tasks_dispatch_and_instances_count_up() {
    assert_eq!(episode_kind(&DispatchKind::SandboxedTask), Ok("sandboxed_task"));
    assert_eq!(episode_kind(&DispatchKind::AgentTask), Ok("agent_task"));
    assert_eq!(
        episode_kind(&DispatchKind::Other("HumanTask".into())),
        Err("non_executable item kind cannot be dispatched: HumanTask".to_string())
    );
    let states = vec![("a".to_string(), 2u32), ("b".to_string(), 0u32), ("a".to_string(), 7u32)];
    assert_eq!(next_instance(&states, "a"), 3);
    assert_eq!(next_instance(&states, "b"), 1);
    assert_eq!(next_instance(&states, "z"), 1);
    assert_eq!(dispatch_error_basis("permit_denied"), vec!["episode_dispatch_error".to_string(), "permit_denied".to_string()]);
}

// ---------------------------------------------------------------------------
// agent probes
// ---------------------------------------------------------------------------

fn snapshot(id: &str, model: &str) -> EndpointSnapshot {
    EndpointSnapshot {
        id: id.into(),
        kind: ProviderKind::Anthropic,
        descriptor_config_sha256: "sha256:cfg".into(),
        scheme: "https".into(),
        host: "api.anthropic.invalid".into(),
        port: 443,
        path: "/v1".into(),
        model: model.into(),
        max_request_bytes: 100,
        max_response_bytes: 100,
        timeout_secs: 5,
        credential_ref: Some("KEY".into()),
        argv: Vec::new(),
        env: Vec::new(),
    }
}

fn probe_refusal(r: Result<String, DelegationRefusal>) -> String {
    match r {
        Ok(m) => format!("ok {m}"),
        Err(DelegationRefusal::Input(m)) => format!("input {m}"),
        Err(DelegationRefusal::Config { class, message }) => format!("{class} {message}"),
    }
}

#[test]
fn a_probe_is_admitted_only_with_a_prompt_an_endpoint_and_a_model() {
    let s = Some(Ok(snapshot("p", "model-large")));
    assert_eq!(probe_refusal(admit_probe("p", &s, "", None)), "input agent probe prompt must be 1..65536 bytes");
    assert_eq!(probe_refusal(admit_probe("q", &None, "hi", None)), "missing_config_error agent endpoint 'q' not found");
    assert_eq!(
        probe_refusal(admit_probe("p", &Some(Err("unsupported_kind_error: foo".into())), "hi", None)),
        "unsupported_kind_error unsupported_kind_error: foo"
    );
    assert_eq!(probe_refusal(admit_probe("p", &Some(Err("bad".into())), "hi", None)), "schema_error bad");
    assert_eq!(probe_refusal(admit_probe("p", &Some(Ok(snapshot("p", ""))), "hi", None)), "input agent probe model must not be empty");
    assert_eq!(probe_refusal(admit_probe("p", &s, "hi", None)), "ok model-large");
}

#[test]
fn probe_outcomes_and_error_classes() {
    let (ok, basis) = accepted_probe("p", "run-1", "sha256:r".into());
    assert_eq!(ok.settlement, SettlementStatus::Accepted);
    assert_eq!(basis, vec!["authority_allow".to_string(), "schema_valid_response".to_string()]);
    let (no, basis) = rejected_probe("p", "run-2", "agent_endpoint_timeout");
    assert_eq!(no.settlement, SettlementStatus::Rejected);
    assert_eq!(basis, vec!["agent_endpoint_timeout".to_string()]);
    assert_eq!(error_class(&AgentError::Http5xx(503)), "agent_endpoint_http_5xx");
    assert_eq!(error_class(&AgentError::UnsupportedKind), "unsupported_kind_error");
}

#[test]
fn policy_paths_and_registrations() {
    assert_eq!(path_join_exec("/cell", "policy.yaml"), "/cell/policy.yaml");
    assert_eq!(path_join_exec("/cell/", "policy.yaml"), "/cell/policy.yaml");
    assert_eq!(path_join_exec("/cell", "/etc/p.yaml"), "/etc/p.yaml");
    assert_eq!(resolve_policy_path("/cell", "p.yaml", false), "/cell/p.yaml");
    assert_eq!(resolve_policy_path("/cell", "p.yaml", true), "p.yaml");
    let d = adapter_descriptor(&snapshot("p", "m"));
    assert_eq!(d.extension_id, "agent_endpoint_p");
    assert_eq!(d.capabilities, vec!["agent_probe".to_string(), "provider:Anthropic".to_string()]);
    assert_eq!(d.input_sha256, "sha256:cfg");
    assert_eq!(d.output_sha256, format!("sha256:{}", "b".repeat(64)));
    let registered = vec![("agent_endpoint_p".to_string(), "0.1.0".to_string())];
    assert!(!is_new_registration(&registered, "agent_endpoint_p", "0.1.0"));
    assert!(is_new_registration(&registered, "agent_endpoint_p", "0.2.0"));
    assert_eq!(registration_stale_reason("p"), "agent_endpoint_registered:p");
    let listed = agent_list(&vec![Ok(snapshot("a", "m")), Err("broken".into()), Ok(snapshot("b", "m"))]);
    let ids: Vec<(&str, &str)> = listed.iter().map(|e| (e.id.as_str(), e.status.as_str())).collect();
    assert_eq!(ids, vec![("a", "declared"), ("b", "declared")]);
}

// ---------------------------------------------------------------------------
// protocol catalog
// ---------------------------------------------------------------------------

#[test]
fn hello_accepts_the_major_version_and_lists_the_catalog() {
    assert!(version_supported("1"));
    assert!(version_supported("1.4"));
    assert!(!version_supported("2"));
    assert!(!version_supported("10"));
    let h = match hello("1.0") {
        Ok(h) => h,
        Err(e) => panic!("{}", e.error),
    };
    assert_eq!(h.implemented_methods.len(), 23);
    assert_eq!(h.implemented_methods[0], "system.hello");
    match hello("2") {
        Ok(_) => panic!("major 2 is not spoken"),
        Err(e) => {
            assert_eq!(e.error_class, "unsupported_version");
            assert_eq!(e.supported, "1");
        },
    }
    let d = describe();
    assert_eq!(d.methods.len(), 23);
    assert_eq!(d.methods[4].method, "events.subscribe");
    assert_eq!(d.methods[4].class, "subscribe");
    assert_eq!(InteractionClass::Command.as_str(), "command");
    assert!(!get_schema(None).schemas.is_empty());
    assert!(get_schema(Some("no.such_method")).schemas.is_empty());
    let schema = &get_schema(Some("case.list")).schemas[0];
    assert_eq!(schema.path, format!("workbench/packages/contracts/schema/{}.schema.json", schema.name));
}

// ---------------------------------------------------------------------------
// envelope helpers
// ---------------------------------------------------------------------------

#[test]
fn canonical_agents_and_identities() {
    assert_eq!(canonical_agent("gsa"), Some("godspeed_agent"));
    assert_eq!(canonical_agent("agent_memory_ledger"), Some("memory_ledger"));
    assert_eq!(canonical_agent("nobody"), None);
    assert!(is_sha256_hex(&"a".repeat(64)));
    assert!(!is_sha256_hex(&"A".repeat(64)));
    assert!(verify_model_identity(&"0".repeat(64)).is_err());
    assert!(verify_model_identity(&sha256_hex("agentic_capability_loop")).is_err(), "the fallback pseudo-hash");
    assert!(verify_model_identity(&"c".repeat(64)).is_ok());
    assert_eq!(meaningful(Some("  x ")), Some("x".to_string()));
    assert_eq!(meaningful(Some("   ")), None);
    assert_eq!(check_identity_string("f", " Unknown "), Err("f".to_string()));
    assert_eq!(check_identity_string("f", " id-7 "), Ok("id-7".to_string()));
    let env = json(r#"{"provenance":{"chain":["domain_model_hash:x","caused_by:a",1,"caused_by:b"]}}"#);
    assert_eq!(causal_parents(&env), vec!["a".to_string(), "b".to_string()]);
    assert_eq!(sha256_hex("abc"), "ba7816bf8f01cfea414140de5dae2223b00361a396177a9cb410ff61f20015ad");
}

#[test]
fn the_dispatch_loop_parks_awaits_drains_or_rescans() {
    assert_eq!(round_end(true, 0, false, false), RoundEnd::Park);
    assert_eq!(round_end(true, 2, false, false), RoundEnd::AwaitOne);
    assert_eq!(round_end(false, 1, true, true), RoundEnd::DrainThenPark);
    assert_eq!(round_end(false, 1, true, false), RoundEnd::AwaitOne);
    assert_eq!(round_end(false, 0, false, false), RoundEnd::Rescan);
}

#[test]
fn string_escaping_matches_serde_json() {
    for text in ["plain", "quote \" and \\ slash", "tab\tline\nret\rbs\u{8}ff\u{c}", "ctl \u{1}\u{1f}\u{7f}", "ünïcode ✓"] {
        let ours = render_exec(&Json::Str(text.to_string()), false);
        let theirs = serde_json::Value::String(text.to_string()).to_string();
        assert_eq!(ours, theirs, "escaping of {text:?}");
    }
}
