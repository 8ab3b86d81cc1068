use sea_forge_server::json::Json;
use sea_forge_server::sfwp::case::{
    entry_options, preflight, template_digest_source, template_file_name, template_precondition_ref, LoadedTemplate,
    PlanItemSummary, PreflightStage, TemplateParameter,
};
use sea_forge_server::sfwp::precondition::{
    digest_of, evaluate, evaluate_resolved, CaseLedgerRecord, LedgerRecordResolver, Precondition, RecordDigest,
    RecordResolver,
};

fn to_json(v: &serde_json::Value) -> Json {
    match v {
        serde_json::Value::Null => Json::Null,
        serde_json::Value::Bool(b) => Json::Bool(*b),
        serde_json::Value::Number(n) => Json::Number(n.to_string()),
        serde_json::Value::String(s) => Json::Str(s.clone()),
        serde_json::Value::Array(items) => Json::Array(items.iter().map(to_json).collect()),
        serde_json::Value::Object(map) => Json::Object(map.iter().map(|(k, v)| (k.clone(), to_json(v))).collect()),
    }
}

fn json(text: &str) -> Json {
    to_json(&serde_json::from_str(text).unwrap())
}

fn pin(record_ref: &str, expected: &str) -> Precondition {
    Precondition {
        policy_bundle_digest: None,
        records: vec![RecordDigest { record_ref: record_ref.into(), expected_digest: expected.into() }],
    }
}

// ---------------------------------------------------------------------------
// preconditions
// ---------------------------------------------------------------------------

#[test]
fn a_record_digest_is_stable_across_key_order() {
    let a = json(r#"{"b":1,"a":{"y":true,"x":null}}"#);
    let b = json(r#"{"a":{"x":null,"y":true},"b":1}"#);
    assert_eq!(digest_of(&a), digest_of(&b));
    assert_eq!(digest_of(&a), format!("sha256:{}", sea_forge_server::envelope::sha256_hex(r#"{"a":{"x":null,"y":true},"b":1}"#)));
    assert_ne!(digest_of(&a), digest_of(&json(r#"{"a":{"x":null,"y":false},"b":1}"#)));
}

#[test]
fn a_matching_precondition_passes_and_a_changed_one_is_rejected_as_stale() {
    let current = json(r#"{"state":"parked"}"#);
    let expected = digest_of(&current);
    assert!(evaluate_resolved(&pin("case:c1", &expected), &vec![Some(json(r#"{"state":"parked"}"#))]).is_none());

    let rejection = evaluate_resolved(&pin("case:c1", &expected), &vec![Some(json(r#"{"state":"done"}"#))]).unwrap();
    assert_eq!(rejection.outcome, "rejected_as_stale");
    assert_eq!(rejection.code, "precondition_failed");
    assert_eq!(rejection.changed_records.len(), 1);
    assert_eq!(rejection.changed_records[0].record_ref, "case:c1");
    assert_eq!(rejection.changed_records[0].current_digest, Some(digest_of(&json(r#"{"state":"done"}"#))));
    assert_eq!(rejection.next_actions.len(), 3);

    let gone = evaluate_resolved(&pin("case:c1", &expected), &vec![None]).unwrap();
    assert_eq!(gone.changed_records[0].current_digest, None, "a record that no longer exists never matches");
}

fn ledger(entries: Vec<CaseLedgerRecord>) -> LedgerRecordResolver {
    LedgerRecordResolver { case_id: "c1".into(), entries: Some(entries) }
}

fn record(kind: &str, hash: &str, ordinal: u64, payload: &str) -> CaseLedgerRecord {
    CaseLedgerRecord { record_kind: kind.into(), payload_hash: hash.into(), append_ordinal: ordinal, payload: json(payload) }
}

#[test]
fn a_case_ref_resolves_to_the_fingerprint_of_its_ledger() {
    let resolver = ledger(vec![record("case_submitted", "h1", 1, "{}"), record("approval_requested", "h2", 2, r#"{"approval_id":"apr_1"}"#)]);
    let fingerprint = resolver.resolve("case:c1").unwrap().unwrap();
    assert_eq!(
        sea_forge_server::json::render_exec(&fingerprint, false),
        r#"{"case_id":"c1","records":[{"kind":"case_submitted","ordinal":"1","payload_hash":"h1"},{"kind":"approval_requested","ordinal":"2","payload_hash":"h2"}]}"#
            .replace(r#""ordinal":"1""#, r#""ordinal":1"#)
            .replace(r#""ordinal":"2""#, r#""ordinal":2"#)
    );
    assert!(resolver.resolve("case:other").unwrap().is_none());
    assert!(resolver.resolve("nocolon").unwrap().is_none());
    assert!(resolver.resolve("policy:x").unwrap().is_none());
    let approval = resolver.resolve("approval:apr_1").unwrap().unwrap();
    assert_eq!(sea_forge_server::json::get_str(&approval, "approval_id"), Some("apr_1"));
}

#[test]
fn a_case_that_advanced_since_the_caller_looked_is_stale() {
    let before = ledger(vec![record("case_submitted", "h1", 1, "{}")]);
    let expected = digest_of(&before.resolve("case:c1").unwrap().unwrap());
    assert!(evaluate(&pin("case:c1", &expected), &before).unwrap().is_none());
    let after = ledger(vec![record("case_submitted", "h1", 1, "{}"), record("run_started", "h3", 2, "{}")]);
    assert!(evaluate(&pin("case:c1", &expected), &after).unwrap().is_some());
}

struct Failing;

impl RecordResolver for Failing {
    fn resolve(&self, _record_ref: &str) -> Result<Option<Json>, String> {
        Err("ledger unreadable".into())
    }
}

#[test]
fn a_resolution_error_is_returned_as_it_came() {
    assert_eq!(evaluate(&pin("case:c1", "sha256:x"), &Failing).err(), Some("ledger unreadable".to_string()));
}

// ---------------------------------------------------------------------------
// case authoring
// ---------------------------------------------------------------------------

fn template(name: &str, version: &str, params: &[&str]) -> LoadedTemplate {
    LoadedTemplate {
        name: name.into(),
        version: version.into(),
        description: format!("{name} template"),
        parameters: params
            .iter()
            .map(|p| (p.to_string(), TemplateParameter { param_type: "string".into(), required: true, default: None }))
            .collect(),
    }
}

#[test]
fn entry_options_list_loaded_templates_by_ref_with_sorted_parameters() {
    let result = entry_options(vec![
        Ok(template("zeta", "0.1.0", &["b", "a"])),
        Err("broken.yaml: bad yaml".into()),
        Ok(template("alpha", "1.0.0", &[])),
    ]);
    let refs: Vec<&str> = result.templates.iter().map(|t| t.template_ref.as_str()).collect();
    assert_eq!(refs, vec!["alpha@1.0.0", "zeta@0.1.0"]);
    let names: Vec<&str> = result.templates[1].parameters.iter().map(|p| p.0.as_str()).collect();
    assert_eq!(names, vec!["a", "b"]);
    assert_eq!(result.templates[1].description, "zeta template");
}

#[test]
fn template_refs_name_their_files_and_preconditions() {
    assert_eq!(template_file_name("demo@0.1.0"), Some("demo@0.1.0.yaml".to_string()));
    assert_eq!(template_file_name("demo"), None);
    assert_eq!(template_precondition_ref("demo@0.1.0"), "template:demo@0.1.0");
}

#[test]
fn preflight_pins_the_template_bytes_a_commit_is_checked_against() {
    let items = vec![PlanItemSummary { plan_item_id: "i1".into(), name: "build".into(), item_kind: "agent_task".into() }];
    let result = preflight(
        "demo@0.1.0".into(),
        PreflightStage::Validated { items, validation: Ok(()) },
        Some(b"name: demo\n".to_vec()),
    );
    assert!(result.ok);
    assert!(result.errors.is_empty());
    assert_eq!(result.items.len(), 1);
    let pinned = result.precondition.unwrap();
    assert_eq!(pinned.record_ref, "template:demo@0.1.0");

    let precondition = Precondition { policy_bundle_digest: None, records: vec![pinned] };
    let same = template_digest_source(b"name: demo\n");
    assert!(evaluate_resolved(&precondition, &vec![Some(same)]).is_none());
    let edited = template_digest_source(b"name: demo\nsteps: 3\n");
    assert!(evaluate_resolved(&precondition, &vec![Some(edited)]).is_some(), "edited bytes are stale");
}

#[test]
fn a_preflight_that_fails_reports_why_without_a_pin() {
    let failed = preflight("demo@0.1.0".into(), PreflightStage::LoadFailed("no such template".into()), None);
    assert!(!failed.ok);
    assert_eq!(failed.errors, vec!["no such template".to_string()]);
    assert!(failed.precondition.is_none());

    let invalid = preflight(
        "demo@0.1.0".into(),
        PreflightStage::Validated { items: Vec::new(), validation: Err("cycle in plan".into()) },
        None,
    );
    assert!(!invalid.ok);
    assert_eq!(invalid.errors, vec!["cycle in plan".to_string()]);
    assert!(invalid.precondition.is_none(), "no pin without the template's bytes");
}

#[test]
fn a_record_digest_is_sha256_and_sixty_four_lower_hex_digits() {
    let d = digest_of(&json(r#"{"b":[1,2],"a":"x"}"#));
    assert_eq!(d.len(), 71);
    assert!(d.starts_with("sha256:"));
    assert!(d[7..].chars().all(|c| c.is_ascii_digit() || ('a'..='f').contains(&c)), "{d}");
}
