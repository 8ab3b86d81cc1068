use sea_forge_server::delegation::{termination_str, DelegationTermination};
use sea_forge_server::governed_settlement_return::SettlementStatus;
use sea_forge_server::json::{render_exec, Json};
use sea_forge_server::sfwp::approvals::{self, ApprovalRequest};
use sea_forge_server::sfwp::assets::{
    self, AssetKind, AssetListResult, AssetSources, EndpointConfig, ExtensionEntry, ExtensionStatus,
    ProbeRun, TemplateFile, TemplateIdentity, ENDPOINT_DECLARED, ENDPOINT_DEMONSTRATED, ENDPOINT_PROBED,
};
use sea_forge_server::sfwp::case_views::{self, CaseRecord, ExecutionStanding, SettlementRecord, SettlementStanding};
use sea_forge_server::sfwp::delegations::{
    self, settlement_word, DelegationDir, DelegationStanding, LiveDelegation, PlannedOperation, PlannedTask,
};
use sea_forge_server::sfwp::run_views::{
    self, join_basis, pair_criteria, CriterionStanding, RunDirRecords, RunFiles, RunTraceEvent, RunTraceKind,
    SettlementCriteria,
};

fn to_json(v: &serde_json::Value) -> Json {
    match v {
        serde_json::Value::Null => Json::Null,
        serde_json::Value::Bool(b) => Json::Bool(*b),
        serde_json::Value::Number(n) => Json::Number(n.to_string()),
        serde_json::Value::String(s) => Json::Str(s.clone()),
        serde_json::Value::Array(items) => Json::Array(items.iter().map(to_json).collect()),
        serde_json::Value::Object(map) => Json::Object(map.iter().map(|(k, v)| (k.clone(), to_json(v))).collect()),
    }
}

fn json(text: &str) -> Json {
    to_json(&serde_json::from_str(text).unwrap())
}

fn criteria() -> SettlementCriteria {
    SettlementCriteria {
        require_exit_zero: false,
        required_artifacts: Vec::new(),
        stdout_must_contain: None,
        agent_output_must_contain: None,
        require_approval: false,
        evaluator: None,
        min_pass_ratio: None,
    }
}

fn settlement(status: SettlementStatus, basis: &[&str]) -> SettlementRecord {
    SettlementRecord {
        settlement_id: "set_01".into(),
        status,
        basis: basis.iter().map(|b| b.to_string()).collect(),
        review_required: false,
        settled_at: "2026-01-01T00:00:00Z".into(),
        criteria_ref: None,
    }
}

fn event(id: &str, kind: RunTraceKind, word: &str, at: &str, payload: &str) -> RunTraceEvent {
    RunTraceEvent {
        event_id: id.into(),
        kind,
        kind_word: word.into(),
        plan_item_id: Some("item-1".into()),
        actor_id: "runner".into(),
        timestamp: at.into(),
        payload: json(payload),
    }
}

fn empty_files() -> RunFiles {
    RunFiles {
        events: Vec::new(),
        settlement: None,
        plan: None,
        criteria_record: None,
        authority: None,
        declarations: Vec::new(),
        evidence: Vec::new(),
        records: Vec::new(),
    }
}

// ---------------------------------------------------------------------------
// run views
// ---------------------------------------------------------------------------

#[test]
fn listing_a_cell_with_no_runs_directory_is_an_empty_list_not_an_error() {
    let result = run_views::list(&Vec::new(), &Vec::new(), None);
    assert!(result.runs.is_empty());
    assert!(result.unreadable.is_empty());
}

#[test]
fn a_missing_run_is_not_found_rather_than_unreadable() {
    let error = run_views::get(&Vec::new(), "run-nope", false, empty_files()).err().unwrap();
    assert_eq!(error.class(), "not_found");
    assert_eq!(error.message(), "no run record for run-nope");
}

#[test]
fn an_empty_run_directory_is_unreadable_not_missing() {
    let error = run_views::get(&Vec::new(), "run-1", true, empty_files()).err().unwrap();
    assert_eq!(error.class(), "record_unreadable");
    assert_eq!(
        error.message(),
        "run run-1 directory exists but holds no readable trace, plan, or settlement record"
    );
}

#[test]
fn a_criterion_with_no_settlement_is_unavailable_not_satisfied() {
    let c = SettlementCriteria { require_exit_zero: true, ..criteria() };
    let checks = pair_criteria(&c, None);
    assert_eq!(checks.len(), 1);
    assert_eq!(checks[0].standing, CriterionStanding::Unavailable);
    assert!(checks[0].basis.is_empty());
}

#[test]
fn a_criterion_is_decided_by_the_settlements_own_basis_token() {
    let c = SettlementCriteria {
        require_exit_zero: true,
        required_artifacts: vec!["out/report.md".into()],
        ..criteria()
    };
    let settled = settlement(
        SettlementStatus::Rejected,
        &["authority_allow", "exit_zero", "required_artifact_missing:out/report.md"],
    );
    let checks = pair_criteria(&c, Some(&settled));
    assert_eq!(checks[0].standing, CriterionStanding::Satisfied);
    assert_eq!(checks[1].standing, CriterionStanding::Unsatisfied);
    assert_eq!(checks[1].basis, vec!["required_artifact_missing:out/report.md"]);
}

#[test]
fn an_evaluator_score_is_recorded_never_satisfied() {
    let c = SettlementCriteria { evaluator: Some("py.pytest".into()), ..criteria() };
    let settled = settlement(SettlementStatus::Accepted, &["evaluator_score:py.pytest=1"]);
    let checks = pair_criteria(&c, Some(&settled));
    assert_eq!(checks[0].standing, CriterionStanding::Recorded);
    assert_eq!(checks[0].basis, vec!["evaluator_score:py.pytest=1"]);
}

#[test]
fn every_criterion_of_an_unsettled_run_is_unavailable() {
    let c = SettlementCriteria {
        require_exit_zero: true,
        required_artifacts: vec!["a".into(), "b".into()],
        stdout_must_contain: Some("ok".into()),
        agent_output_must_contain: Some("done".into()),
        require_approval: true,
        evaluator: Some("e".into()),
        min_pass_ratio: Some("0.8".into()),
    };
    let checks = pair_criteria(&c, None);
    assert_eq!(checks.len(), 8);
    for check in &checks {
        assert_eq!(check.standing, CriterionStanding::Unavailable);
        assert!(check.basis.is_empty());
    }
    assert_eq!(checks[7].expected, "pass ratio >= 0.8");
}

#[test]
fn a_failing_token_outranks_a_passing_one() {
    let basis = vec!["stdout_match".to_string(), "stdout_mismatch".to_string()];
    let (standing, matched) = join_basis(&basis, "stdout_match", "stdout_mismatch");
    assert_eq!(standing, CriterionStanding::Unsatisfied);
    assert_eq!(matched, vec!["stdout_mismatch"]);
}

#[test]
fn approval_and_agent_output_read_their_own_tokens() {
    let c = SettlementCriteria {
        agent_output_must_contain: Some("done".into()),
        require_approval: true,
        min_pass_ratio: Some("1".into()),
        ..criteria()
    };
    let accepted = settlement(SettlementStatus::Accepted, &["authority_escalate", "batch_ok"]);
    let checks = pair_criteria(&c, Some(&accepted));
    assert_eq!(checks[0].criterion, "agent_output_must_contain");
    assert_eq!(checks[0].standing, CriterionStanding::Satisfied);
    assert_eq!(checks[1].standing, CriterionStanding::Unavailable);
    assert!(checks[1].basis.is_empty(), "an unavailable row cites no basis");
    assert_eq!(checks[2].standing, CriterionStanding::Satisfied);
    assert_eq!(checks[2].basis, vec!["batch_ok"]);
    let mismatch = settlement(SettlementStatus::Rejected, &["agent_output_mismatch", "batch_below_threshold"]);
    let checks = pair_criteria(&c, Some(&mismatch));
    assert_eq!(checks[0].standing, CriterionStanding::Unsatisfied);
    assert_eq!(checks[2].standing, CriterionStanding::Unsatisfied);
}

#[test]
fn the_trace_fold_keeps_termination_apart_from_settlement() {
    let events = vec![
        event("e1", RunTraceKind::RunStarted, "run_started", "t1", "{}"),
        event(
            "e2",
            RunTraceKind::CommandFinished,
            "command_finished",
            "t2",
            r#"{"execution":{"exit_code":0,"status":"completed"}}"#,
        ),
    ];
    let fold = run_views::fold_trace(&events);
    assert_eq!(fold.execution, ExecutionStanding::Active);
    assert_eq!(fold.started_at.as_deref(), Some("t1"));
    assert_eq!(fold.finished_at.as_deref(), Some("t2"));
    let t = fold.termination.unwrap();
    assert_eq!(t.trace_kind, "command_finished");
    assert_eq!(t.exit_code, Some(0));
    assert_eq!(t.execution_status.as_deref(), Some("completed"));

    // A zero exit with a rejecting settlement is a representable state.
    let files = RunFiles {
        events,
        settlement: Some(settlement(SettlementStatus::Rejected, &["exit_zero"])),
        ..empty_files()
    };
    let record = run_views::get(&Vec::new(), "run-1", true, files).ok().unwrap();
    assert_eq!(record.settlement, SettlementStanding::Rejected);
    assert_eq!(record.termination.unwrap().exit_code, Some(0));
    assert_eq!(record.trace.len(), 2);
}

#[test]
fn the_run_list_is_newest_first_and_scoped_to_the_claiming_case() {
    let case = CaseRecord {
        case_id: "case-a".into(),
        state: "active".into(),
        summary: "s".into(),
        created_at: "t0".into(),
        closed_at: None,
        close_reason: None,
        plan_ref: "plan".into(),
        run_ids: vec!["run-1".into()],
        stages: Vec::new(),
    };
    let dirs = vec![
        RunDirRecords {
            run_id: "run-1".into(),
            events: vec![event("e1", RunTraceKind::RunStarted, "run_started", "2026-01-01", "{}")],
            settlement: None,
            evidence_count: 2,
        },
        RunDirRecords {
            run_id: "run-2".into(),
            events: vec![event("e2", RunTraceKind::RunStarted, "run_started", "2026-02-01", "{}")],
            settlement: Some(settlement(SettlementStatus::Accepted, &[])),
            evidence_count: 0,
        },
        RunDirRecords { run_id: "run-3".into(), events: Vec::new(), settlement: None, evidence_count: 0 },
    ];
    let cases = vec![case];
    let all = run_views::list(&cases, &dirs, None);
    assert_eq!(all.runs.len(), 2);
    assert_eq!(all.runs[0].run_id, "run-2");
    assert_eq!(all.runs[0].settlement, SettlementStanding::Accepted);
    assert_eq!(all.runs[1].case_id.as_deref(), Some("case-a"));
    assert_eq!(all.runs[1].evidence_count, 2);
    assert_eq!(all.unreadable, vec!["run-3"]);
    let scoped = run_views::list(&cases, &dirs, Some("case-a"));
    assert_eq!(scoped.runs.len(), 1);
    assert_eq!(scoped.runs[0].run_id, "run-1");
    assert!(scoped.unreadable.is_empty());
}

#[test]
fn a_run_directory_lies_under_runs() {
    assert_eq!(run_views::run_dir("/cell", "run-1").as_deref(), Some("/cell/runs/run-1"));
    assert_eq!(run_views::run_dir("/cell/", "run-1").as_deref(), Some("/cell/runs/run-1"));
    assert_eq!(run_views::run_dir("/cell", "../x"), None);
}

// ---------------------------------------------------------------------------
// case views
// ---------------------------------------------------------------------------

#[test]
fn a_missing_case_is_not_found_rather_than_unreadable() {
    let error = case_views::get_overview("case-nope", None, None, &Vec::new()).err().unwrap();
    assert_eq!(error.class(), "not_found");
}

#[test]
fn listing_a_cell_with_no_cases_directory_is_an_empty_list_not_an_error() {
    let result = case_views::list(Vec::new());
    assert!(result.cases.is_empty());
    assert!(result.unreadable.is_empty());
}

// ---------------------------------------------------------------------------
// delegations
// ---------------------------------------------------------------------------

#[test]
fn enum_words_match_the_records_they_report() {
    assert_eq!(settlement_word(SettlementStatus::Accepted), "accepted");
    assert_eq!(settlement_word(SettlementStatus::Rejected), "rejected");
    assert_eq!(termination_str(DelegationTermination::Cancelled), "cancelled");
    assert_eq!(termination_str(DelegationTermination::TurnCapExceeded), "turn_cap_exceeded");
}

#[test]
fn the_roster_puts_live_delegations_first_and_reports_unresolved_ones() {
    let task = |endpoint: &str| {
        Some(vec![vec![PlannedOperation::AgentTask(PlannedTask {
            endpoint_ref: endpoint.into(),
            max_turns: 3,
            token_budget: None,
        })]])
    };
    let dirs = vec![
        DelegationDir { run_id: "run-a".into(), plan: task("local"), settlement: None, evidence: None },
        DelegationDir {
            run_id: "run-b".into(),
            plan: task("local"),
            settlement: Some(settlement(SettlementStatus::Accepted, &[])),
            evidence: None,
        },
        DelegationDir { run_id: "run-c".into(), plan: task("local"), settlement: None, evidence: None },
        DelegationDir { run_id: "run-d".into(), plan: None, settlement: None, evidence: None },
    ];
    let live = vec![
        ("run-c".to_string(), LiveDelegation { case_id: "case-c".into(), cancellation_requested: false }),
        ("run-d".to_string(), LiveDelegation { case_id: "case-d".into(), cancellation_requested: true }),
        ("run-e".to_string(), LiveDelegation { case_id: "case-e".into(), cancellation_requested: false }),
    ];
    let result = delegations::list(&Vec::new(), &dirs, &live);
    let ids: Vec<&str> = result.delegations.iter().map(|r| r.run_id.as_str()).collect();
    assert_eq!(ids, vec!["run-e", "run-c", "run-d", "run-a", "run-b"]);
    assert_eq!(result.delegations[0].endpoint_ref, None);
    assert_eq!(result.delegations[1].standing, DelegationStanding::Active);
    assert_eq!(result.delegations[1].case_id.as_deref(), Some("case-c"));
    assert_eq!(result.delegations[2].standing, DelegationStanding::CancellationRequested);
    assert!(!result.delegations[2].cancellable);
    assert_eq!(result.delegations[3].standing, DelegationStanding::Unresolved);
    assert_eq!(result.delegations[4].standing, DelegationStanding::Settled);
    assert_eq!(result.delegations[4].settlement.as_deref(), Some("accepted"));
    assert_eq!(result.delegations[4].max_turns, Some(3));
    assert_eq!(result.unreadable, vec!["run-d"]);
}

// ---------------------------------------------------------------------------
// assets
// ---------------------------------------------------------------------------

fn sources() -> AssetSources {
    AssetSources { templates: Vec::new(), endpoints: Vec::new(), runs: Vec::new(), registry: Some(Vec::new()) }
}

#[test]
fn empty_cell_lists_nothing_rather_than_a_builtin_catalog() {
    let result = assets::list(&sources());
    assert!(result.assets.is_empty());
    assert!(result.unreadable.is_empty());
}

#[test]
fn endpoint_standing_words_match_the_kernels_own_vocabulary() {
    assert_eq!(ENDPOINT_DECLARED, "declared");
    assert_eq!(ENDPOINT_PROBED, "probed");
    assert_eq!(ENDPOINT_DEMONSTRATED, "demonstrated");
}

fn probe_run(run_id: &str, endpoint: &str, status: SettlementStatus, at: &str, basis: &[&str]) -> ProbeRun {
    ProbeRun {
        run_id: run_id.into(),
        plan: Some(vec![vec![PlannedOperation::AgentProbe(endpoint.into())]]),
        settlement: Some(SettlementRecord { settled_at: at.into(), ..settlement(status, basis) }),
    }
}

#[test]
fn probe_evidence_climbs_the_endpoint_ladder() {
    let endpoint = |id: &str| EndpointConfig { id: id.into(), snapshot: Ok("sha256:desc".into()) };
    let src = AssetSources {
        endpoints: vec![endpoint("a"), endpoint("b"), endpoint("c")],
        runs: vec![
            probe_run("run-1", "a", SettlementStatus::Rejected, "2026-01-01", &["x"]),
            probe_run("run-2", "a", SettlementStatus::Accepted, "2026-01-02", &[]),
            probe_run("run-3", "b", SettlementStatus::Rejected, "2026-01-03", &["agent_endpoint_timeout", "y"]),
        ],
        ..sources()
    };
    let result = assets::list(&src);
    let a = &result.assets[0];
    assert_eq!(a.asset_id, "agent_endpoint:a");
    assert_eq!(a.standing, "demonstrated");
    assert_eq!(a.evidence_refs, vec!["run:run-2"]);
    assert!(a.blocking_reason.is_none());
    let b = &result.assets[1];
    assert_eq!(b.standing, "probed");
    assert_eq!(
        b.blocking_reason.as_deref(),
        Some("last probe settled rejected: agent_endpoint_timeout, y")
    );
    let c = &result.assets[2];
    assert_eq!(c.standing, "declared");
    assert_eq!(c.identity_digest.as_deref(), Some("sha256:desc"));
}

#[test]
fn templates_and_extensions_keep_their_own_vocabularies() {
    let src = AssetSources {
        templates: vec![
            TemplateFile {
                stem: "repair@1.0.0".into(),
                bytes: Some(b"abc".to_vec()),
                loaded: Ok(TemplateIdentity { name: "repair".into(), version: "1.0.0".into() }),
            },
            TemplateFile { stem: "broken".into(), bytes: None, loaded: Err("bad yaml".into()) },
        ],
        registry: Some(vec![
            ExtensionEntry {
                extension_id: "acme.linter".into(),
                version: "2.1.0".into(),
                status: ExtensionStatus::Disabled,
                trust_quarantined: false,
                descriptor_sha256: "sha256:lint".into(),
                authority_ref: Some("dec-1".into()),
            },
            ExtensionEntry {
                extension_id: "agent_endpoint_local".into(),
                version: "0.1.0".into(),
                status: ExtensionStatus::Active,
                trust_quarantined: false,
                descriptor_sha256: "sha256:ep".into(),
                authority_ref: None,
            },
        ]),
        ..sources()
    };
    let result: AssetListResult = assets::list(&src);
    let ids: Vec<&str> = result.assets.iter().map(|a| a.asset_id.as_str()).collect();
    assert_eq!(ids, vec!["extension:acme.linter@2.1.0", "template:broken", "template:repair@1.0.0"]);
    assert_eq!(result.assets[0].kind, AssetKind::Extension);
    assert_eq!(result.assets[0].standing, "disabled");
    assert_eq!(result.assets[0].blocking_reason.as_deref(), Some("extension status is disabled"));
    assert_eq!(
        result.assets[1].blocking_reason.as_deref(),
        Some("template file could not be loaded: bad yaml")
    );
    assert_eq!(
        result.assets[2].identity_digest.as_deref(),
        Some("sha256:ba7816bf8f01cfea414140de5dae2223b00361a396177a9cb410ff61f20015ad")
    );
    assert_eq!(result.unreadable, vec!["template:broken"]);
    let unreadable_registry = AssetSources { registry: None, ..sources() };
    assert_eq!(assets::list(&unreadable_registry).unreadable, vec!["extension_registry"]);
}

// ---------------------------------------------------------------------------
// approvals
// ---------------------------------------------------------------------------

fn request(case_id: &str, approval_id: &str, requested_at: &str, expires_at: &str) -> ApprovalRequest {
    ApprovalRequest {
        approval_id: approval_id.into(),
        case_id: case_id.into(),
        run_id: "run-1".into(),
        plan_item_id: "item-1".into(),
        decision_id: "dec-1".into(),
        requested_at: requested_at.into(),
        expires_at: expires_at.into(),
        criteria_ref: None,
        criteria_sha256: None,
    }
}

#[test]
fn a_cell_with_no_journal_lists_nothing_without_claiming_a_read_failure() {
    let result = approvals::list(&Ok(Vec::new()), None);
    assert!(result.approvals.is_empty());
    assert!(result.unreadable.is_none(), "no journal is an empty queue, not an unreadable one");
}

#[test]
fn an_unparseable_journal_is_reported_rather_than_read_as_an_empty_queue() {
    let result = approvals::list(&Err("line 1: expected value".into()), None);
    assert!(result.approvals.is_empty());
    assert!(result.unreadable.is_some(), "a broken journal must not look like an empty inbox");
}

#[test]
fn the_inbox_is_oldest_first_and_reports_expiry_without_dropping() {
    let pending = Ok(vec![
        request("case-a", "apr_0002", "2026-01-02T00:00:00Z", "2026-01-03T00:00:00Z"),
        request("case-b", "apr_0001", "2026-01-01T00:00:00Z", "2126-01-01T00:00:00Z"),
        request("case-a", "apr_0001", "2026-01-01T00:00:00Z", "2026-01-05T00:00:00Z"),
    ]);
    let result = approvals::list_at(&pending, None, "2026-01-04T00:00:00Z");
    let ids: Vec<(&str, &str)> =
        result.approvals.iter().map(|a| (a.case_id.as_str(), a.approval_id.as_str())).collect();
    // equal keys keep the order the journal gave them
    assert_eq!(ids, vec![("case-b", "apr_0001"), ("case-a", "apr_0001"), ("case-a", "apr_0002")]);
    assert!(!result.approvals[0].expired);
    assert!(!result.approvals[1].expired);
    assert!(result.approvals[2].expired);
    let scoped = approvals::list_at(&pending, Some("case-b"), "2026-01-04T00:00:00Z");
    assert_eq!(scoped.approvals.len(), 1);
}

// ---------------------------------------------------------------------------
// readiness
// ---------------------------------------------------------------------------

use sea_forge_server::sfwp::readiness::{
    self, IntendedOperation, OverallReadiness, ReadinessGetParams, ReadinessStatus, RebuildStanding, SourceFreshness,
    SourceRecordRef,
};

fn source(freshness: SourceFreshness) -> SourceRecordRef {
    SourceRecordRef {
        ledger_id: "self-model".into(),
        entry_id: "01JABCDEFGHJKMNPQRSTVWXYZ0".into(),
        record_kind: "self_model_snapshot".into(),
        record_id: "snap_1".into(),
        digest: "sha256:abc".into(),
        freshness,
        rebuild_standing: if freshness == SourceFreshness::Stale {
            RebuildStanding::RebuildRequired
        } else {
            RebuildStanding::Verified
        },
    }
}

#[test]
fn an_uninitialized_cell_is_unknown_without_a_synthetic_source_citation() {
    let view = readiness::get(Ok(None), ReadinessGetParams { intended_operation: None });
    let foundation = &view.foundations[0];
    assert_eq!(view.overall, OverallReadiness::Unknown);
    assert_eq!(foundation.status, ReadinessStatus::Unknown);
    assert!(foundation.source.is_none());
    assert!(foundation.reason.contains("No committed self-model snapshot"));
    assert!(foundation.next_lawful_action.contains("Initialize or rebuild"));
}

#[test]
fn a_stale_snapshot_never_reports_readiness_as_success() {
    let view = readiness::get(Ok(Some(source(SourceFreshness::Stale))), ReadinessGetParams { intended_operation: None });
    assert_eq!(view.overall, OverallReadiness::Stale);
    assert_eq!(view.foundations[0].status, ReadinessStatus::Degraded);
    assert_eq!(
        view.foundations[0].source.as_ref().unwrap().rebuild_standing,
        RebuildStanding::RebuildRequired
    );
}

#[test]
fn a_verified_snapshot_is_projected_as_a_committed_digest_not_a_code_location() {
    let entries = vec![readiness::SelfModelEntry {
        ledger_id: "self-model".into(),
        entry_ulid: "01JABCDEFGHJKMNPQRSTVWXYZ0".into(),
        record_kind: "self_model_snapshot".into(),
        payload: json(r#"{"snapshot_id":"snap_1"}"#),
        payload_hash: "sha256:abc".into(),
    }];
    let src = readiness::snapshot_source(&entries, "snap_1", false).unwrap();
    let view = readiness::get(Ok(Some(src)), ReadinessGetParams { intended_operation: None });
    let source = view.foundations[0].source.as_ref().unwrap();
    assert_eq!(view.foundations[0].status, ReadinessStatus::Ready);
    assert_eq!(view.overall, OverallReadiness::Ready);
    assert_eq!(source.ledger_id, "self-model");
    assert_eq!(source.record_kind, "self_model_snapshot");
    assert_eq!(source.record_id, "snap_1");
    assert_eq!(source.entry_id.len(), 26);
    assert!(source.digest.starts_with("sha256:"));
    assert_eq!(source.freshness, SourceFreshness::Current);
    assert_eq!(source.rebuild_standing, RebuildStanding::Verified);
    assert!(readiness::snapshot_source(&entries, "snap_2", false).is_none());
}

#[test]
fn an_integrity_failure_halts_and_delegation_comes_first_when_intended() {
    let view = readiness::get(
        Err("Ledger hash chain mismatch at entry 4".into()),
        ReadinessGetParams {
            intended_operation: Some(IntendedOperation { method: "agent_run.Delegate".into(), resource_ref: None }),
        },
    );
    assert_eq!(view.overall, OverallReadiness::IntegrityHalted);
    assert_eq!(view.operational_capabilities[0].id, "external_delegation");
    assert_eq!(view.operational_capabilities[1].status, ReadinessStatus::Blocked);
    let blocked = readiness::get(Err("permission denied".into()), ReadinessGetParams { intended_operation: None });
    assert_eq!(blocked.overall, OverallReadiness::Blocked);
    assert_eq!(blocked.operational_capabilities[0].id, "local_governed_execution");
    assert!(readiness::is_integrity_failure("SNAPSHOT hash differs"));
    assert!(!readiness::operation_requires_delegation("case.submit"));
}

// ---------------------------------------------------------------------------
// events
// ---------------------------------------------------------------------------

use sea_forge_server::sfwp::events::{self, EventLedgerEntry};

fn entry(ulid: &str, kind: &str, ordinal: u64, payload: &str) -> EventLedgerEntry {
    EventLedgerEntry {
        entry_ulid: ulid.into(),
        record_kind: kind.into(),
        append_ordinal: ordinal,
        payload: json(payload),
        committed_at: "2026-01-01T00:00:00Z".into(),
    }
}

#[test]
fn replay_and_range_read_the_ledger_after_the_cursor() {
    let entries = vec![
        entry("c1", "sfwp_event", 1, r#"{"kind":"case.submitted","case_id":"case-1","detail":{"state":"active"}}"#),
        entry("c2", "other", 2, "{}"),
        entry("c3", "sfwp_event", 3, r#"{"kind":"approval.approved"}"#),
        entry("c4", "sfwp_event", 4, r#"{"kind":"agent_run.delegated","run_id":"run-1"}"#),
    ];
    let all = events::replay_after(&entries, None);
    assert_eq!(all.len(), 3);
    assert_eq!(all[0].case_id.as_deref(), Some("case-1"));
    assert_eq!(render_exec(&all[0].detail, false), r#"{"state":"active"}"#);
    assert_eq!(render_exec(&all[1].detail, false), "null");
    let after = events::replay_after(&entries, Some("c1"));
    assert_eq!(after.iter().map(|f| f.cursor.as_str()).collect::<Vec<_>>(), vec!["c3", "c4"]);
    let range = events::get_range(&entries, Some("c1"), Some("c3"), None);
    assert_eq!(range.len(), 1);
    assert_eq!(range[0].kind, "approval.approved");
    let limited = events::get_range(&entries, None, None, Some(1));
    assert_eq!(limited.len(), 1);
    let unknown = events::replay_after(&entries, Some("nope"));
    assert_eq!(unknown.len(), 3);
}

#[test]
fn replay_is_capped() {
    let entries: Vec<EventLedgerEntry> =
        (0..600u64).map(|i| entry(&format!("c{i}"), "sfwp_event", i, r#"{"kind":"k"}"#)).collect();
    assert_eq!(events::replay_after(&entries, None).len(), events::EVENTS_REPLAY_CAP);
    assert_eq!(events::get_range(&entries, None, None, Some(10_000)).len(), 500);
}

#[test]
fn an_event_is_stored_under_its_kind_case_run_and_detail() {
    let payload = events::stored_event_payload("case.submitted", Some("case-1"), None, json(r#"{"a":1}"#));
    assert_eq!(render_exec(&payload, false), r#"{"case_id":"case-1","detail":{"a":1},"kind":"case.submitted"}"#);
    assert_eq!(events::subject_refs(Some("case-1"), Some("run-1")), vec!["case-1", "run-1"]);
    let frame = events::appended_frame("k", None, Some("run-1"), Json::Null, "01J", "t");
    assert_eq!(frame.cursor, "01J");
    assert_eq!(frame.run_id.as_deref(), Some("run-1"));
}

#[test]
fn an_overview_lists_the_settled_runs_in_the_cases_own_order() {
    let case = CaseRecord {
        case_id: "case-o".into(),
        state: "active".into(),
        summary: "s".into(),
        created_at: "t0".into(),
        closed_at: None,
        close_reason: None,
        plan_ref: "plan".into(),
        run_ids: vec!["run-1".into(), "run-2".into(), "run-3".into()],
        stages: Vec::new(),
    };
    let reads = vec![
        ("run-3".to_string(), Some(settlement(SettlementStatus::Rejected, &["exit_nonzero"]))),
        ("run-1".to_string(), None),
        ("run-2".to_string(), Some(settlement(SettlementStatus::Accepted, &["exit_zero"]))),
        ("run-9".to_string(), Some(settlement(SettlementStatus::Accepted, &["exit_zero"]))),
    ];
    let overview = case_views::get_overview("case-o", Some(Ok(case)), None, &reads).ok().unwrap();
    let runs: Vec<&str> = overview.settlements.iter().map(|s| s.run_id.as_str()).collect();
    assert_eq!(runs, vec!["run-2", "run-3"], "settled runs only, in the case's order, none it does not claim");
    assert_eq!(overview.settlements[0].basis, vec!["exit_zero"]);
}

#[test]
fn a_decision_word_names_its_verbs_or_is_refused() {
    assert_eq!(approvals::approval_decision("approve"), Ok(("approve", "approval.approve", "approval.approved")));
    assert_eq!(approvals::approval_decision("reject"), Ok(("reject", "approval.reject", "approval.rejected")));
    assert_eq!(
        approvals::approval_decision("maybe"),
        Err("unknown approval decision \"maybe\"; expected \"approve\" or \"reject\"".to_string())
    );
}

#[test]
fn exit_codes_are_read_as_json_integers_that_fit_an_i64() {
    let cases: [(&str, Option<i64>); 9] = [
        ("0", Some(0)),
        ("-3", Some(-3)),
        (" 7\n", Some(7)),
        ("9223372036854775807", Some(i64::MAX)),
        ("-9223372036854775808", Some(i64::MIN)),
        ("9223372036854775808", None),
        ("-0", None),
        ("3.0", None),
        ("07", None),
    ];
    for (text, expected) in cases {
        let payload = Json::Object(vec![(
            "execution".into(),
            Json::Object(vec![("exit_code".into(), Json::Number(text.into()))]),
        )]);
        let events = vec![RunTraceEvent {
            event_id: "e1".into(),
            kind: RunTraceKind::CommandFinished,
            kind_word: "command_finished".into(),
            plan_item_id: None,
            actor_id: "a".into(),
            timestamp: "t1".into(),
            payload,
        }];
        let fold = run_views::fold_trace(&events);
        assert_eq!(fold.termination.unwrap().exit_code, expected, "exit code text {text:?}");
    }
}
