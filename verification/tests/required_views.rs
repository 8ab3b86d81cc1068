use sea_forge_server::sfwp::assets::{AssetKind, AssetRow, ENDPOINT_DECLARED};
use sea_forge_server::sfwp::case_views::valid_case_id;
use sea_forge_server::sfwp::delegations::{standing_of, DelegationStanding, LiveDelegation};
use sea_forge_server::sfwp::run_views::valid_run_id;

fn held(cancellation_requested: bool) -> LiveDelegation {
    LiveDelegation {
        case_id: "case-1".into(),
        cancellation_requested,
    }
}

#[test]
fn standing_and_blocking_are_independent() {
    let row = AssetRow {
        asset_id: "agent_endpoint:x".into(),
        kind: AssetKind::AgentEndpoint,
        name: "x".into(),
        version: None,
        standing: ENDPOINT_DECLARED.into(),
        identity_digest: None,
        evidence_refs: Vec::new(),
        blocking_reason: None,
    };
    // A declared endpoint is unproven but not blocked.
    assert_eq!(row.standing, "declared");
    assert!(row.blocking_reason.is_none());
}

#[test]
fn a_case_id_cannot_traverse_out_of_the_cases_directory() {
    assert!(!valid_case_id("../../etc/passwd"));
    assert!(!valid_case_id("a/b"));
    assert!(!valid_case_id(""));
    assert!(valid_case_id("case-01JABCDEF"));
}

#[test]
fn standing_separates_forgotten_runs_from_cancelled_and_settled_ones() {
    assert_eq!(standing_of(Some(&held(false)), false), DelegationStanding::Active);
    assert_eq!(
        standing_of(Some(&held(true)), false),
        DelegationStanding::CancellationRequested
    );
    // Durable truth outranks this process's memory, cancellation or not.
    assert_eq!(standing_of(Some(&held(true)), true), DelegationStanding::Settled);
    assert_eq!(standing_of(Some(&held(false)), true), DelegationStanding::Settled);
    // No handle, no settlement: the server does not know. It must not guess.
    assert_eq!(standing_of(None, false), DelegationStanding::Unresolved);
    assert_eq!(standing_of(None, true), DelegationStanding::Settled);
}

#[test]
fn a_run_id_cannot_traverse_out_of_the_runs_directory() {
    assert!(!valid_run_id("../../etc/passwd"));
    assert!(!valid_run_id("a/b"));
    assert!(!valid_run_id(""));
    assert!(valid_run_id("run-01JABCDEF"));
}
