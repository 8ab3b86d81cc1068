use sea_forge_server::json::{json_clone, render_exec, Json};
use sea_forge_server::sfwp::correlation::{
    payload_hash, DedupeVerdict, RequestCorrelationStore, RequestRecord, RequestStatus,
};

fn to_json(v: &serde_json::Value) -> Json {
    match v {
        serde_json::Value::Null => Json::Null,
        serde_json::Value::Bool(b) => Json::Bool(*b),
        serde_json::Value::Number(n) => Json::Number(n.to_string()),
        serde_json::Value::String(s) => Json::Str(s.clone()),
        serde_json::Value::Array(items) => Json::Array(items.iter().map(to_json).collect()),
        serde_json::Value::Object(map) => Json::Object(map.iter().map(|(k, v)| (k.clone(), to_json(v))).collect()),
    }
}

fn json(text: &str) -> Json {
    to_json(&serde_json::from_str(text).unwrap())
}

fn text(j: &Json) -> String {
    render_exec(j, false)
}

/// A verdict as a comparable word, with the replayed response rendered.
fn verdict(v: DedupeVerdict) -> String {
    match v {
        DedupeVerdict::Proceed => "proceed".into(),
        DedupeVerdict::Pending => "pending".into(),
        DedupeVerdict::Replay(j) => format!("replay {}", text(&j)),
        DedupeVerdict::Reused => "reused".into(),
    }
}

fn store() -> RequestCorrelationStore {
    RequestCorrelationStore::new("/cell/requests".into())
}

fn copy(record: &RequestRecord) -> RequestRecord {
    RequestRecord {
        request_id: record.request_id.clone(),
        method: record.method.clone(),
        status: record.status,
        submitted_at: record.submitted_at.clone(),
        completed_at: record.completed_at.clone(),
        outcome: record.outcome.as_ref().map(json_clone),
        payload_hash: record.payload_hash.clone(),
    }
}

#[test]
fn payload_hash_is_stable_under_key_reordering() {
    let forward = Json::Object(vec![
        ("verb".into(), Json::Str("submit".into())),
        ("entity".into(), Json::Str("operator_local".into())),
        ("plan".into(), json(r#"{"steps": 2, "id": "plan_a"}"#)),
    ]);
    let reverse = Json::Object(vec![
        (
            "plan".into(),
            Json::Object(vec![("id".into(), Json::Str("plan_a".into())), ("steps".into(), Json::Number("2".into()))]),
        ),
        ("entity".into(), Json::Str("operator_local".into())),
        ("verb".into(), Json::Str("submit".into())),
    ]);
    assert_eq!(payload_hash(&forward), payload_hash(&reverse));

    let changed = json(r#"{"verb": "submit", "entity": "operator_local", "plan": {"id": "plan_b", "steps": 2}}"#);
    assert_ne!(payload_hash(&forward), payload_hash(&changed));
}

#[test]
fn a_record_written_before_sf_006_proceeds_rather_than_being_refused() {
    let mut store = store();
    store.load(
        "legacy-1".into(),
        RequestRecord {
            request_id: "legacy-1".into(),
            method: "submit".into(),
            status: RequestStatus::Completed,
            submitted_at: "2026-01-01T00:00:00Z".into(),
            completed_at: Some("2026-01-01T00:00:01Z".into()),
            outcome: Some(json(r#"{"state":"completed"}"#)),
            payload_hash: None,
        },
    );
    let record = store.get("legacy-1").expect("legacy record loads");
    assert_eq!(record.payload_hash, None);
    assert_eq!(verdict(store.check("legacy-1", "any-hash-at-all")), "proceed");
}

#[test]
fn restart_settles_a_pending_record_as_interrupted_without_reexecuting_it() {
    let mut store = store();
    let payload = json(r#"{"verb": "submit", "plan": "plan.json"}"#);
    let hash = payload_hash(&payload);
    store.record_pending("req-interrupted", "case.submit", Some(&hash)).unwrap();

    assert_eq!(store.settle_interrupted_requests(), Ok(1));
    let record = store.get("req-interrupted").unwrap();
    assert_eq!(record.status, RequestStatus::Failed);
    let outcome = record.outcome.as_ref().unwrap();
    let class = sea_forge_server::json::get_str(outcome, "error_class");
    assert_eq!(class, Some("request_interrupted"));
    let expected = format!("replay {}", text(outcome));
    assert_eq!(verdict(store.check("req-interrupted", &hash)), expected);
}

#[test]
fn restart_settlement_prevents_a_hashless_pending_record_from_reexecuting() {
    let mut store = store();
    store.record_pending("req-legacy-pending", "case.submit", None).unwrap();

    assert_eq!(store.settle_interrupted_requests(), Ok(1));
    assert!(matches!(store.check("req-legacy-pending", "new-payload-hash"), DedupeVerdict::Replay(_)));
}

#[test]
fn a_pending_record_refuses_concurrent_retry_without_erasing_its_locator() {
    let mut store = store();
    let payload = json(r#"{"verb": "submit", "plan": "plan.json"}"#);
    let hash = payload_hash(&payload);
    store.record_pending("req-pending", "case.submit", Some(&hash)).unwrap();

    assert_eq!(
        verdict(store.check("req-pending", &hash)),
        "pending",
        "a retry while the admitted request is pending must not execute again",
    );
    let record = store.get("req-pending").unwrap();
    assert_eq!(record.status, RequestStatus::Pending);
    assert_eq!(record.payload_hash.as_deref(), Some(hash.as_str()));
}

#[test]
fn a_terminal_record_replays_its_own_payload_and_refuses_a_different_one() {
    let mut store = store();
    let payload = json(r#"{"verb": "submit", "plan": "plan.json", "entity": "operator_local"}"#);
    let hash = payload_hash(&payload);

    store.record_pending("req-1", "submit", Some(&hash)).unwrap();
    assert_eq!(
        verdict(store.check("req-1", &hash)),
        "pending",
        "a request still in flight must not execute a concurrent duplicate",
    );

    let outcome = json(r#"{"state": "completed", "case_id": "case_1"}"#);
    store.record_outcome("req-1", "submit", &outcome).unwrap();
    assert_eq!(verdict(store.check("req-1", &hash)), format!("replay {}", text(&outcome)));

    let edited = json(r#"{"verb": "submit", "plan": "other.json", "entity": "operator_local"}"#);
    assert_eq!(verdict(store.check("req-1", &payload_hash(&edited))), "reused");
}

#[test]
fn a_pending_request_still_dedupes_after_the_store_is_reopened() {
    let payload = json(r#"{"verb": "case_commit", "template_ref": "sequential_agents@0.1.0"}"#);
    let hash = payload_hash(&payload);

    let mut before = store();
    before.record_pending("req-restart", "case_commit", Some(&hash)).unwrap();
    let on_disk = copy(before.get("req-restart").unwrap());
    let file_name = RequestCorrelationStore::file_name_for("req-restart");
    drop(before);

    // What a restart looks like: a fresh store fed the records read back from disk.
    let mut after = store();
    after.load(file_name.trim_end_matches(".json").to_string(), on_disk);
    let pending = after.get("req-restart").expect("the pending record survives the restart");
    assert_eq!(pending.status, RequestStatus::Pending);
    assert_eq!(pending.payload_hash.as_deref(), Some(hash.as_str()));

    let outcome = json(r#"{"state": "completed", "case_id": "case_restart"}"#);
    after.record_outcome("req-restart", "case.commit", &outcome).unwrap();
    assert_eq!(
        verdict(after.check("req-restart", &hash)),
        format!("replay {}", text(&outcome)),
        "the terminal write must carry the hash forward or the id stops deduping",
    );
}

#[test]
fn a_second_pending_write_cannot_reopen_a_settled_record() {
    let mut store = store();
    let payload = json(r#"{"verb": "case_commit", "template_ref": "demo@0.1.0"}"#);
    let hash = payload_hash(&payload);
    store.record_pending("req-settled", "case_commit", Some(&hash)).unwrap();
    let outcome = json(r#"{"state": "completed", "case_id": "case_first"}"#);
    store.record_outcome("req-settled", "case_commit", &outcome).unwrap();

    store.record_pending("req-settled", "case_commit", Some(&hash)).unwrap();

    let record = store.get("req-settled").expect("the record survives the second pending write");
    assert_eq!(record.status, RequestStatus::Completed);
    assert_eq!(record.outcome.as_ref().map(text), Some(text(&outcome)));
    assert_eq!(
        verdict(store.check("req-settled", &hash)),
        format!("replay {}", text(&outcome)),
        "a reopened record stops replaying, which is how one id becomes two cases",
    );
}

#[test]
fn a_later_outcome_cannot_replace_the_one_already_published() {
    let mut store = store();
    let payload = json(r#"{"verb": "case_commit", "template_ref": "demo@0.1.0"}"#);
    let hash = payload_hash(&payload);
    store.record_pending("req-twice", "case_commit", Some(&hash)).unwrap();
    let first = json(r#"{"state": "completed", "case_id": "case_first"}"#);
    store.record_outcome("req-twice", "case_commit", &first).unwrap();

    let second = json(r#"{"state": "completed", "case_id": "case_second"}"#);
    store.record_outcome("req-twice", "case_commit", &second).unwrap();

    let record = store.get("req-twice").expect("record exists");
    assert_eq!(record.outcome.as_ref().map(text), Some(text(&first)));
    assert_eq!(verdict(store.check("req-twice", &hash)), format!("replay {}", text(&first)));
}

// ---------------------------------------------------------------------------
// further cases
// ---------------------------------------------------------------------------

#[test]
fn an_unknown_id_proceeds() {
    let store = store();
    assert_eq!(verdict(store.check("never-seen", "h")), "proceed");
}

#[test]
fn an_error_outcome_settles_the_record_as_failed() {
    let mut store = store();
    store.record_pending_at("req-e", "case.submit", Some("h"), "2026-01-01T00:00:00Z".into());
    let outcome = json(r#"{"error": {"code": -32000}}"#);
    store.record_outcome_at("req-e", "case.submit", &outcome, "2026-01-01T00:00:05Z".into());
    let record = store.get("req-e").unwrap();
    assert_eq!(record.status, RequestStatus::Failed);
    assert_eq!(record.submitted_at, "2026-01-01T00:00:00Z");
    assert_eq!(record.completed_at.as_deref(), Some("2026-01-01T00:00:05Z"));
    assert_eq!(record.payload_hash.as_deref(), Some("h"));
}

#[test]
fn the_sweep_leaves_settled_records_alone() {
    let mut store = store();
    store.record_pending_at("a", "m", Some("h"), "t0".into());
    store.record_outcome_at("a", "m", &json(r#"{"state":"completed"}"#), "t1".into());
    store.record_pending_at("b", "m", Some("h"), "t0".into());
    assert_eq!(store.settle_interrupted_requests_at("t2".into()), 1);
    assert_eq!(store.get("a").unwrap().status, RequestStatus::Completed);
    let b = store.get("b").unwrap();
    assert_eq!(b.status, RequestStatus::Failed);
    assert_eq!(b.completed_at.as_deref(), Some("t2"));
    assert_eq!(store.settle_interrupted_requests_at("t3".into()), 0);
}

#[test]
fn request_ids_map_to_file_names_without_leaving_the_directory() {
    assert_eq!(RequestCorrelationStore::file_name_for("req-1_A"), "req-1_A.json");
    assert_eq!(RequestCorrelationStore::file_name_for("../x/y"), "___x_y.json");
    let store = store();
    assert_eq!(store.path_for("../x"), "/cell/requests/___x.json");
}

#[test]
fn the_payload_hash_is_the_digest_of_the_sorted_compact_text() {
    let payload = json(r#"{"b": 1, "a": [true, null]}"#);
    assert_eq!(text(&payload), r#"{"a":[true,null],"b":1}"#);
    assert_eq!(payload_hash(&payload), sea_forge_server::envelope::sha256_hex(r#"{"a":[true,null],"b":1}"#));
}

#[test]
fn a_payload_hash_is_sixty_four_lower_hex_digits() {
    let h = payload_hash(&Json::Object(vec![("verb".into(), Json::Str("submit".into()))]));
    assert_eq!(h.len(), 64);
    assert!(h.chars().all(|c| c.is_ascii_digit() || ('a'..='f').contains(&c)), "{h}");
}
