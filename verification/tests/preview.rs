use sea_forge_server::delegation::{action_for_delegation, check_preconditions, EndpointSnapshot, ProviderKind};
use sea_forge_server::sfwp::assets::AssetListResult;
use sea_forge_server::sfwp::delegation_preview::{
    preview_finish, preview_step, resolve_model, resolve_retention, retention_word, DelegationPreviewParams,
    PreviewEndpoint, PreviewStep, TranscriptRetentionMode, ValueSource,
};

fn snapshot(id: &str) -> EndpointSnapshot {
    EndpointSnapshot {
        id: id.into(),
        kind: ProviderKind::OpenAiCompatible,
        descriptor_config_sha256: "sha256:desc".into(),
        scheme: "https".into(),
        host: "api.example.invalid".into(),
        port: 443,
        path: "/v1".into(),
        model: "default".into(),
        max_request_bytes: 4096,
        max_response_bytes: 4096,
        timeout_secs: 30,
        credential_ref: Some("EXAMPLE_KEY".into()),
        argv: Vec::new(),
        env: Vec::new(),
    }
}

#[test]
fn retention_words_match_the_modes_the_plan_item_records() {
    assert_eq!(retention_word(TranscriptRetentionMode::Summarized), "summarized");
    assert_eq!(retention_word(TranscriptRetentionMode::Full), "full");
}

#[test]
fn model_provenance_separates_requested_endpoint_and_built_in() {
    let built_in = resolve_model(None, false, "default");
    assert_eq!(built_in.source, ValueSource::BuiltIn);
    assert_eq!(built_in.value, "default");

    let declared = resolve_model(None, true, "endpoint-model");
    assert_eq!(declared.source, ValueSource::EndpointDefault);
    assert_eq!(declared.value, "endpoint-model");

    let asked = resolve_model(Some("asked-model"), true, "endpoint-model");
    assert_eq!(asked.source, ValueSource::Requested);
    assert_eq!(asked.value, "asked-model");
}

#[test]
fn retention_provenance_tracks_the_level_that_declared_it() {
    // The cell says `full`; the endpoint declares nothing.
    let from_cell = resolve_retention(false, TranscriptRetentionMode::Full);
    assert_eq!(from_cell.source, ValueSource::CellDefault);
    assert_eq!(from_cell.value, "full");

    // The endpoint overrides it with `summarized`.
    let from_endpoint = resolve_retention(true, TranscriptRetentionMode::Summarized);
    assert_eq!(from_endpoint.source, ValueSource::EndpointDefault);
    assert_eq!(from_endpoint.value, "summarized");
}

#[test]
fn required_authority_is_read_off_the_action_serde_writes() {
    let action = action_for_delegation(&snapshot("local"), "local", "m", "sha256:abc", 3, None);
    assert_eq!(action.provider_kind, "openai_compatible");
    assert_eq!(action.endpoint_ref, "local");
    assert_eq!(action.instruction_sha256, "sha256:abc");
    // The preview names the authority that action is submitted under.
    let params = params("local", "do it", 3);
    let draft = match preview_step(&empty_catalog(), Some(endpoint(false, false)), &params) {
        PreviewStep::Contract(d) => d,
        PreviewStep::Done(_) => panic!("a snapshotting endpoint yields a contract"),
    };
    let result = preview_finish(draft, TranscriptRetentionMode::Summarized, b"{}");
    assert_eq!(result.contract.unwrap().required_authority, "agent_task");
}

// ---------------------------------------------------------------------------
// further cases
// ---------------------------------------------------------------------------

fn params(endpoint: &str, instruction: &str, max_turns: u32) -> DelegationPreviewParams {
    DelegationPreviewParams {
        endpoint: endpoint.into(),
        instruction: instruction.into(),
        model: None,
        max_turns,
        token_budget: None,
    }
}

fn endpoint(declares_model: bool, declares_retention: bool) -> PreviewEndpoint {
    PreviewEndpoint { declares_model, declares_retention, snapshot: Ok(snapshot("local")) }
}

fn empty_catalog() -> AssetListResult {
    AssetListResult { assets: Vec::new(), unreadable: Vec::new() }
}

#[test]
fn an_unconfigured_endpoint_is_not_eligible_and_says_why() {
    match preview_step(&empty_catalog(), None, &params("ghost", "do it", 3)) {
        PreviewStep::Done(d) => {
            assert!(!d.eligible);
            assert!(d.contract.is_none());
            assert_eq!(d.blocking_reasons, vec!["agent endpoint 'ghost' is not configured in this cell".to_string()]);
        },
        PreviewStep::Contract(_) => panic!("no contract without an endpoint"),
    }
}

#[test]
fn every_unmet_rule_blocks_the_preview_and_the_digest_follows_the_action_bytes() {
    let draft = match preview_step(&empty_catalog(), Some(endpoint(true, true)), &params("local", "", 0)) {
        PreviewStep::Contract(d) => d,
        PreviewStep::Done(_) => panic!("contract expected"),
    };
    assert_eq!(
        draft.blocking_reasons,
        vec!["agent_task instruction must be non-empty".to_string(), "agent_task max_turns must be >= 1".to_string()]
    );
    let result = preview_finish(draft, TranscriptRetentionMode::Full, b"abc");
    assert!(!result.eligible);
    let contract = result.contract.unwrap();
    assert_eq!(
        contract.contract_digest,
        "sha256:ba7816bf8f01cfea414140de5dae2223b00361a396177a9cb410ff61f20015ad"
    );
    assert_eq!(contract.transcript_retention.source, ValueSource::EndpointDefault);
    assert_eq!(contract.model.source, ValueSource::EndpointDefault);
}

#[test]
fn an_oversized_instruction_names_the_endpoint_limit() {
    let mut s = snapshot("local");
    s.max_request_bytes = 3;
    match check_preconditions(&s, "four", None, 1) {
        Err(reasons) => {
            assert_eq!(reasons, vec!["agent_task instruction exceeds endpoint max_request_bytes (3)".to_string()])
        },
        Ok(_) => panic!("four bytes do not fit in three"),
    }
    assert_eq!(check_preconditions(&s, "abc", Some("m2"), 1).ok(), Some("m2".to_string()));
}
