use sea_forge_server::delegation::{
    acp_spawn_env, acp_termination, admit_delegation, configured, count_approval_requests, final_excerpt,
    latest_disconnected_continuation, permission_decision, permission_verdict_word, provider_kind_word,
    rejected_result, settle_termination, settled_result, swe_seed_config, tool_call_count, transcript_excerpt,
    AcpTermination, DelegationEpisodeContext, DelegationRefusal, DelegationTermination, EndpointSnapshot,
    PermissionDecision, ProviderKind, Verdict,
};
use sea_forge_server::governed_settlement_return::SettlementStatus;
use sea_forge_server::json::Json;
use sea_forge_server::recovery::{recovered_outcome, recovery_plan, LedgerEntry, RecoveryKind};

fn to_json(v: &serde_json::Value) -> Json {
    match v {
        serde_json::Value::Null => Json::Null,
        serde_json::Value::Bool(b) => Json::Bool(*b),
        serde_json::Value::Number(n) => Json::Number(n.to_string()),
        serde_json::Value::String(s) => Json::Str(s.clone()),
        serde_json::Value::Array(items) => Json::Array(items.iter().map(to_json).collect()),
        serde_json::Value::Object(map) => Json::Object(map.iter().map(|(k, v)| (k.clone(), to_json(v))).collect()),
    }
}

fn json(text: &str) -> Json {
    to_json(&serde_json::from_str(text).unwrap())
}

fn snapshot(max_request_bytes: u64, model: &str) -> EndpointSnapshot {
    EndpointSnapshot {
        id: "local".into(),
        kind: ProviderKind::Acp,
        descriptor_config_sha256: "sha256:d".into(),
        scheme: String::new(),
        host: String::new(),
        port: 0,
        path: String::new(),
        model: model.into(),
        max_request_bytes,
        max_response_bytes: 1024,
        timeout_secs: 10,
        credential_ref: None,
        argv: vec!["agent".into()],
        env: Vec::new(),
    }
}

fn refusal(r: Result<String, DelegationRefusal>) -> String {
    match r {
        Ok(m) => format!("ok {m}"),
        Err(DelegationRefusal::Input(m)) => format!("input {m}"),
        Err(DelegationRefusal::Config { class, message }) => format!("{class} {message}"),
    }
}

#[test]
fn admission_refuses_in_the_documented_order() {
    let s = Some(Ok(snapshot(4, "m")));
    assert_eq!(refusal(admit_delegation("local", &s, "", None, 0)), "input agent_task instruction must be non-empty");
    assert_eq!(refusal(admit_delegation("local", &s, "go", None, 0)), "input agent_task max_turns must be >= 1");
    assert_eq!(
        refusal(admit_delegation("ghost", &None, "go", None, 1)),
        "missing_config_error agent endpoint 'ghost' not found"
    );
    assert_eq!(refusal(admit_delegation("local", &Some(Err("bad url".into())), "go", None, 1)), "schema_error bad url");
    assert_eq!(
        refusal(admit_delegation("local", &s, "too long", None, 1)),
        "input agent_task instruction exceeds endpoint max_request_bytes (4)"
    );
    assert_eq!(
        refusal(admit_delegation("local", &Some(Ok(snapshot(4, ""))), "go", None, 1)),
        "input agent_task model must not be empty"
    );
    assert_eq!(refusal(admit_delegation("local", &s, "go", None, 1)), "ok m");
    assert_eq!(refusal(admit_delegation("local", &s, "go", Some("x"), 1)), "ok x");
}

#[test]
fn only_a_completed_dialogue_with_matching_output_is_accepted() {
    let (status, basis, error) = settle_termination(DelegationTermination::Completed, None);
    assert_eq!(status, SettlementStatus::Accepted);
    assert_eq!(basis, vec!["authority_allow".to_string(), "delegation_completed".to_string()]);
    assert_eq!(error, None);
    let (status, basis, error) = settle_termination(DelegationTermination::Completed, Some(false));
    assert_eq!(status, SettlementStatus::Rejected);
    assert_eq!(basis, vec!["authority_allow".to_string(), "agent_output_mismatch".to_string()]);
    assert_eq!(error.as_deref(), Some("agent_output_mismatch"));
    for (t, b) in [
        (DelegationTermination::TurnCapExceeded, "turn_cap_exceeded"),
        (DelegationTermination::Cancelled, "cancelled"),
        (DelegationTermination::EndpointError, "agent_endpoint_error"),
        (DelegationTermination::AcpDisconnect, "acp_disconnect"),
    ] {
        let (status, basis, _) = settle_termination(t, Some(true));
        assert_eq!(status, SettlementStatus::Rejected);
        assert_eq!(basis, vec![b.to_string()]);
    }
}

#[test]
fn delegation_results_carry_the_settlement_and_its_error_class() {
    let r = rejected_result("local", "run-1", "authority_denied");
    assert_eq!(r.settlement, SettlementStatus::Rejected);
    assert_eq!(r.error_class.as_deref(), Some("authority_denied"));
    assert!(r.termination.is_none());

    let (r, basis) = settled_result(
        "local",
        "run-2",
        DelegationTermination::AcpDisconnect,
        None,
        "sha256:t".into(),
        3,
        Some("acp_disconnect".into()),
        Some("sess-9".into()),
    );
    assert_eq!(r.settlement, SettlementStatus::Rejected);
    assert_eq!(r.termination.as_deref(), Some("acp_disconnect"));
    assert_eq!(r.error_class.as_deref(), Some("acp_disconnect"));
    assert_eq!(r.continuation_key.as_deref(), Some("sess-9"));
    assert_eq!(r.turns_used, 3);
    assert_eq!(basis, vec!["acp_disconnect".to_string()]);

    let (t, sub) = acp_termination(AcpTermination::EndpointError);
    assert_eq!(t, DelegationTermination::EndpointError);
    assert_eq!(sub.as_deref(), Some("acp_spawn_error"));
    assert_eq!(provider_kind_word(ProviderKind::OpenAiCompatible), "openai_compatible");
}

#[test]
fn transcripts_summarize_tools_and_the_last_answer() {
    let transcript = vec![
        ("user".to_string(), "do it".to_string()),
        ("assistant".to_string(), "first".to_string()),
        ("tool".to_string(), "ran".to_string()),
        ("tool".to_string(), "ran again".to_string()),
        ("assistant".to_string(), "done".to_string()),
        ("user".to_string(), "thanks".to_string()),
    ];
    assert_eq!(tool_call_count(&transcript), 2);
    assert_eq!(transcript_excerpt(&transcript), "done");
    assert_eq!(transcript_excerpt(&Vec::new()), "");
    let long = "é".repeat(150);
    let excerpt = final_excerpt(&long);
    assert_eq!(excerpt, format!("{}...", "é".repeat(100)), "cut at 200 bytes on a char boundary");
    assert_eq!(final_excerpt("short"), "short");
}

#[test]
fn the_acp_environment_withholds_swe_seed_settings() {
    let env = vec![
        "PATH=/bin".to_string(),
        "SEA_FORGE_SWE_SEED_REPO=/repo".to_string(),
        "NOEQUALS".to_string(),
        "A=b=c".to_string(),
    ];
    let spawn = acp_spawn_env(&env);
    assert_eq!(spawn, vec![("PATH".to_string(), "/bin".to_string()), ("A".to_string(), "b=c".to_string())]);
    assert_eq!(configured(&env, "A"), Some("b=c".to_string()));
    assert_eq!(configured(&env, "MISSING"), None);
    assert_eq!(swe_seed_config(&env), Err("SWE_SEED repo and commit must be configured together".to_string()));
    let both = vec!["SEA_FORGE_SWE_SEED_REPO=/r".to_string(), "SEA_FORGE_SWE_SEED_COMMIT=abc".to_string()];
    assert_eq!(swe_seed_config(&both), Ok(Some(("/r".to_string(), "abc".to_string()))));
    assert_eq!(swe_seed_config(&Vec::new()), Ok(None));
}

#[test]
fn permissions_need_a_known_kind_and_an_allow_or_granted_escalation() {
    let options = vec![("o1".to_string(), "reject_once".to_string()), ("o2".to_string(), "allow_once".to_string())];
    let allowed = |d: PermissionDecision| match d {
        PermissionDecision::Allow { option_id } => Some(option_id),
        PermissionDecision::DenyOnce => None,
    };
    assert_eq!(allowed(permission_decision(true, Verdict::Allow, false, &options)), Some("o2".to_string()));
    assert_eq!(allowed(permission_decision(true, Verdict::Escalate, true, &options)), Some("o2".to_string()));
    assert_eq!(allowed(permission_decision(true, Verdict::Escalate, false, &options)), None);
    assert_eq!(allowed(permission_decision(false, Verdict::Allow, true, &options)), None);
    assert_eq!(allowed(permission_decision(true, Verdict::Allow, false, &Vec::new())), None);
    assert_eq!(permission_verdict_word(false, Verdict::Allow), "deny_unmapped");
    assert_eq!(permission_verdict_word(true, Verdict::Escalate), "escalate");
}

fn entry(kind: &str, ulid: &str, payload: &str) -> LedgerEntry {
    LedgerEntry { record_kind: kind.into(), entry_ulid: ulid.into(), payload: json(payload) }
}

#[test]
fn a_disconnected_session_is_resumed_by_its_latest_key() {
    let entries = vec![
        entry("acp_session", "u1", r#"{"plan_item_id":"i1","endpoint_ref":"e","run_id":"r1","continuation_key":"k1"}"#),
        entry("settlement", "u2", r#"{"run_id":"r1","basis":["acp_disconnect"]}"#),
        entry("acp_session", "u3", r#"{"plan_item_id":"i1","endpoint_ref":"e","run_id":"r2","continuation_key":"k2"}"#),
        entry("settlement", "u4", r#"{"run_id":"r2","basis":["delegation_completed"]}"#),
        entry("approval_request", "u5", "{}"),
    ];
    assert_eq!(latest_disconnected_continuation(&entries, "i1", "e"), Some("k1".to_string()));
    assert_eq!(latest_disconnected_continuation(&entries, "i2", "e"), None);
    assert_eq!(count_approval_requests(&entries), 1);
    let ctx = DelegationEpisodeContext::standalone("c", "r");
    assert_eq!(ctx.item_id, "item_agent_task");
}

#[test]
fn recovery_settles_each_unsettled_run_once() {
    let entries = vec![
        entry("control_request", "u1", r#"{"run_id":"r1","plan_item_id":"i1","case_id":"c"}"#),
        entry("control_request", "u2", r#"{"run_id":"r1","plan_item_id":"i1","case_id":"c"}"#),
        entry("control_request", "u3", r#"{"run_id":"r0","plan_item_id":"i0","case_id":"c"}"#),
        entry("settlement", "u4", r#"{"run_id":"r0"}"#),
        entry("permission_request", "u5", r#"{"run_id":"r2","plan_item_id":"i2","case_id":"c","session_id":"s2"}"#),
        entry("permission_request", "u6", r#"{"run_id":"r1","plan_item_id":"i1","case_id":"c","session_id":"s1"}"#),
    ];
    let plan = recovery_plan(&entries);
    assert!(plan.error.is_none());
    let steps: Vec<(RecoveryKind, &str, &str)> =
        plan.steps.iter().map(|s| (s.kind, s.run_id.as_str(), s.cause_ulid.as_str())).collect();
    assert_eq!(steps, vec![(RecoveryKind::Cancelled, "r1", "u1"), (RecoveryKind::AcpDisconnect, "r2", "u5")]);
    assert_eq!(plan.steps[1].session_id.as_deref(), Some("s2"));

    let broken = recovery_plan(&vec![entry("control_request", "u1", r#"{"plan_item_id":"i1"}"#)]);
    assert_eq!(broken.error.as_deref(), Some("invalid cancellation control run_id"));
    assert!(broken.steps.is_empty());
}

#[test]
fn a_recovered_delegation_is_rejected_with_one_basis_word_and_no_work() {
    let cancelled = recovered_outcome(RecoveryKind::Cancelled);
    assert_eq!(cancelled.termination, DelegationTermination::Cancelled);
    assert!(!cancelled.records_session);
    assert_eq!(cancelled.status, SettlementStatus::Rejected);
    assert_eq!(cancelled.basis, vec!["cancelled".to_string()]);
    assert_eq!((cancelled.turns_used, cancelled.tool_calls), (0, 0));
    assert!(cancelled.final_excerpt.is_empty());
    let orphaned = recovered_outcome(RecoveryKind::AcpDisconnect);
    assert_eq!(orphaned.termination, DelegationTermination::AcpDisconnect);
    assert!(orphaned.records_session);
    assert_eq!(orphaned.basis, vec!["acp_disconnect".to_string()]);
}

#[test]
fn recovering_again_after_the_settlements_are_appended_plans_nothing() {
    let mut entries = vec![
        entry("control_request", "u1", r#"{"run_id":"r1","plan_item_id":"i1","case_id":"c"}"#),
        entry("permission_request", "u2", r#"{"run_id":"r2","plan_item_id":"i2","case_id":"c","session_id":"s2"}"#),
    ];
    let first = recovery_plan(&entries);
    assert!(first.error.is_none());
    assert_eq!(first.steps.len(), 2);
    for (n, step) in first.steps.iter().enumerate() {
        entries.push(entry("agent_task_evidence", &format!("e{n}"), &format!(r#"{{"run_id":"{}"}}"#, step.run_id)));
        entries.push(entry("settlement", &format!("s{n}"), &format!(r#"{{"run_id":"{}","status":"rejected"}}"#, step.run_id)));
    }
    let second = recovery_plan(&entries);
    assert!(second.steps.is_empty());
    assert!(second.error.is_none());
}
