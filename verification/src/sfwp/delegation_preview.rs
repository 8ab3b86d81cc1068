//! The job contract a delegation would run under, shown before anything is
//! committed. It is no authority decision: it names the action that will be
//! submitted and stops there. The request rules and the endpoint's standing
//! are the same ones the command and the asset list use.
use vstd::prelude::*;
use crate::envelope::{strings_view, opt_string_view, sha256_hex, sha256_hex_bytes, sha256_hex_of, sha256_hex_of_text};
use crate::text::{owned, str_eq, concat2, concat3};
use crate::delegation::{EndpointSnapshot, AgentTaskAction, action_for_delegation, check_preconditions, unmet_rules, resolved_model, byte_len, provider_word};
use crate::sfwp::assets::{AssetRow, AssetKind, AssetListResult, asset_view, AssetView};

verus! {

/// `delegation.preview` parameters: the inputs the command takes.
pub struct DelegationPreviewParams {
    pub endpoint: String,
    pub instruction: String,
    pub model: Option<String>,
    /// Zero when unset: an unset turn cap is not a runnable delegation.
    pub max_turns: u32,
    pub token_budget: Option<u64>,
}

/// Who decided a resolved value.
#[derive(Clone, Copy, Debug, PartialEq, Eq, Structural)]
pub enum ValueSource {
    /// The request asked for it.
    Requested,
    /// The endpoint descriptor declares it.
    EndpointDefault,
    /// The cell-wide agent configuration supplied it.
    CellDefault,
    /// Nothing declared it and the kernel's fallback applies.
    BuiltIn,
}

/// One resolved value and who decided it.
pub struct ResolvedValue {
    pub value: String,
    pub source: ValueSource,
}

/// A transcript retention mode.
#[derive(Clone, Copy, Debug, PartialEq, Eq, Structural)]
pub enum TranscriptRetentionMode {
    Summarized,
    Full,
}

pub open spec fn retention_word_of(m: TranscriptRetentionMode) -> Seq<char> {
    match m {
        TranscriptRetentionMode::Summarized => "summarized"@,
        TranscriptRetentionMode::Full => "full"@,
    }
}

/// The wire word of a retention mode.
pub fn retention_word(m: TranscriptRetentionMode) -> (r: String)
    ensures
        r@ == retention_word_of(m),
{
    match m {
        TranscriptRetentionMode::Summarized => owned("summarized"),
        TranscriptRetentionMode::Full => owned("full"),
    }
}

/// The model and its provenance: a non-empty requested model, else the
/// snapshot's model, which the endpoint declares or the kernel supplies.
pub fn resolve_model(requested: Option<&str>, endpoint_declares_model: bool, snapshot_model: &str) -> (r: ResolvedValue)
    ensures
        match requested {
            Some(m) if m@.len() > 0 => r.value@ == m@ && r.source == ValueSource::Requested,
            _ => r.value@ == snapshot_model@ && r.source == (if endpoint_declares_model {
                ValueSource::EndpointDefault
            } else {
                ValueSource::BuiltIn
            }),
        },
{
    match requested {
        Some(m) => {
            if m.unicode_len() > 0 {
                return ResolvedValue { value: owned(m), source: ValueSource::Requested };
            }
        },
        None => {},
    }
    ResolvedValue {
        value: owned(snapshot_model),
        source: if endpoint_declares_model {
            ValueSource::EndpointDefault
        } else {
            ValueSource::BuiltIn
        },
    }
}

/// The retention mode and its provenance: the endpoint's declaration, else
/// the cell's configuration.
pub fn resolve_retention(endpoint_declares_retention: bool, mode: TranscriptRetentionMode) -> (r: ResolvedValue)
    ensures
        r.value@ == retention_word_of(mode),
        r.source == (if endpoint_declares_retention {
            ValueSource::EndpointDefault
        } else {
            ValueSource::CellDefault
        }),
{
    ResolvedValue {
        value: retention_word(mode),
        source: if endpoint_declares_retention {
            ValueSource::EndpointDefault
        } else {
            ValueSource::CellDefault
        },
    }
}

/// The job contract a delegation would run under.
pub struct JobContractPreview {
    pub provider_kind: String,
    pub endpoint_digest: String,
    pub model: ResolvedValue,
    pub transcript_retention: ResolvedValue,
    /// Digest of the instruction, never the instruction itself.
    pub instruction_sha256: String,
    pub instruction_bytes: u64,
    pub max_request_bytes: u64,
    pub max_response_bytes: u64,
    pub timeout_secs: u64,
    pub max_turns: u32,
    pub token_budget: Option<u64>,
    /// The authority action kind that will be submitted.
    pub required_authority: String,
    /// Digest of the serialized authority action: it changes whenever the
    /// endpoint descriptor or any request value does.
    pub contract_digest: String,
}

/// `delegation.preview` result body.
pub struct DelegationPreviewResult {
    pub endpoint: String,
    /// No precondition known now is unmet and a contract could be built;
    /// never a prediction that the delegation will be allowed.
    pub eligible: bool,
    /// The endpoint's standing word from the asset list; none when the
    /// endpoint is not configured.
    pub standing: Option<String>,
    pub blocking_reasons: Vec<String>,
    pub evidence_refs: Vec<String>,
    pub contract: Option<JobContractPreview>,
}

/// What the preview knows of the configured endpoint it names.
pub struct PreviewEndpoint {
    pub declares_model: bool,
    pub declares_retention: bool,
    /// The configuration's snapshot, or why it will not snapshot.
    pub snapshot: Result<EndpointSnapshot, String>,
}

/// The asset-list row of an agent endpoint with this name: the first.
pub open spec fn endpoint_row(rows: Seq<AssetRow>, name: Seq<char>) -> Option<AssetView>
    decreases rows.len(),
{
    if rows.len() == 0 {
        None
    } else if rows[0].kind == AssetKind::AgentEndpoint && rows[0].name@ == name {
        Some(asset_view(rows[0]))
    } else {
        endpoint_row(rows.drop_first(), name)
    }
}

fn find_endpoint_row<'a>(rows: &'a Vec<AssetRow>, name: &str) -> (r: Option<&'a AssetRow>)
    ensures
        match r {
            Some(row) => endpoint_row(rows@, name@) == Some(asset_view(*row)),
            None => endpoint_row(rows@, name@) is None,
        },
{
    let mut i: usize = 0;
    proof {
        assert(rows@.skip(0) =~= rows@);
    }
    while i < rows.len()
        invariant
            i <= rows@.len(),
            endpoint_row(rows@, name@) == endpoint_row(rows@.skip(i as int), name@),
        decreases rows@.len() - i,
    {
        proof {
            assert(rows@.skip(i as int).drop_first() =~= rows@.skip(i + 1));
            assert(rows@.skip(i as int)[0] == rows@[i as int]);
        }
        if matches!(rows[i].kind, AssetKind::AgentEndpoint) && str_eq(rows[i].name.as_str(), name) {
            return Some(&rows[i]);
        }
        i += 1;
    }
    None
}

/// A contract ready to be digested: everything but the serialized action.
pub struct ContractDraft {
    pub endpoint: String,
    pub standing: Option<String>,
    pub blocking_reasons: Vec<String>,
    pub evidence_refs: Vec<String>,
    pub action: AgentTaskAction,
    pub model: ResolvedValue,
    pub declares_retention: bool,
    pub instruction_sha256: String,
    pub instruction_bytes: u64,
    pub max_turns: u32,
    pub token_budget: Option<u64>,
}

/// A preview either ends before a contract (the endpoint is not configured,
/// or will not snapshot) or has a contract to digest.
pub enum PreviewStep {
    Done(DelegationPreviewResult),
    Contract(ContractDraft),
}

/// The catalog's word on the endpoint: its standing, evidence, and the
/// blocking reason that evidence gives.
pub open spec fn catalog_blocking(row: Option<AssetView>) -> Seq<Seq<char>> {
    match row {
        Some(r) => match r.blocking_reason {
            Some(b) => seq![b],
            None => Seq::empty(),
        },
        None => Seq::empty(),
    }
}

/// The blocking reasons of a preview: the catalog's, then the endpoint
/// missing from configuration, or (for an endpoint that snapshots) every
/// unmet request rule.
pub open spec fn preview_blocking(
    row: Option<AssetView>,
    endpoint: Option<PreviewEndpoint>,
    params: DelegationPreviewParams,
) -> Seq<Seq<char>> {
    match endpoint {
        None => catalog_blocking(row).push(
            "agent endpoint '"@ + params.endpoint@ + "' is not configured in this cell"@,
        ),
        Some(e) => match e.snapshot {
            Err(_) => catalog_blocking(row),
            Ok(s) => catalog_blocking(row) + unmet_rules(
                s,
                params.instruction@,
                opt_string_view(params.model),
                params.max_turns,
            ),
        },
    }
}

pub open spec fn row_standing(row: Option<AssetView>) -> Option<Seq<char>> {
    match row {
        Some(r) => Some(r.standing),
        None => None,
    }
}

pub open spec fn row_evidence(row: Option<AssetView>) -> Seq<Seq<char>> {
    match row {
        Some(r) => r.evidence_refs,
        None => Seq::empty(),
    }
}

/// The digest a delegation's instruction is bound by.
pub open spec fn instruction_digest(instruction: Seq<char>) -> Seq<char> {
    "sha256:"@ + sha256_hex_of_text(instruction)
}

/// The first step of a preview, from the asset list, the configured
/// endpoint the request names (if any) and the request. Without a
/// configured endpoint, or with one that will not snapshot, the preview is
/// done: not eligible, no contract. Otherwise the contract draft: the action
/// the command would submit (for the model the rules resolve, else the
/// snapshot's), with every blocking reason.
pub fn preview_step(catalog: &AssetListResult, endpoint: Option<PreviewEndpoint>, params: &DelegationPreviewParams) -> (r: PreviewStep)
    ensures
        ({
            let row = endpoint_row(catalog.assets@, params.endpoint@);
            match r {
                PreviewStep::Done(d) => {
                    &&& (endpoint is None || endpoint->0.snapshot is Err)
                    &&& d.endpoint@ == params.endpoint@
                    &&& !d.eligible
                    &&& opt_string_view(d.standing) == row_standing(row)
                    &&& strings_view(d.blocking_reasons@) == preview_blocking(row, endpoint, *params)
                    &&& strings_view(d.evidence_refs@) == row_evidence(row)
                    &&& d.contract is None
                },
                PreviewStep::Contract(c) => {
                    &&& endpoint matches Some(e) && e.snapshot matches Ok(s) && {
                        let unmet = unmet_rules(s, params.instruction@, opt_string_view(params.model), params.max_turns);
                        let model = if unmet.len() == 0 {
                            resolved_model(opt_string_view(params.model), s)
                        } else {
                            s.model@
                        };
                        &&& c.action.model@ == model
                        &&& c.action.endpoint_ref@ == params.endpoint@
                        &&& c.action.descriptor_config_sha256@ == s.descriptor_config_sha256@
                        &&& c.action.provider_kind@ == provider_word(s.kind)
                        &&& c.action.scheme@ == s.scheme@ && c.action.host@ == s.host@ && c.action.port == s.port
                            && c.action.path@ == s.path@
                        &&& c.action.max_request_bytes == s.max_request_bytes
                        &&& c.action.max_response_bytes == s.max_response_bytes
                        &&& c.action.timeout_secs == s.timeout_secs
                        &&& opt_string_view(c.action.credential_ref) == opt_string_view(s.credential_ref)
                        &&& c.action.instruction_sha256@ == instruction_digest(params.instruction@)
                        &&& c.action.max_turns == params.max_turns
                        &&& c.action.token_budget == params.token_budget
                        &&& c.declares_retention == e.declares_retention
                        &&& (match params.model {
                            Some(m) if m@.len() > 0 => c.model.value@ == m@ && c.model.source == ValueSource::Requested,
                            _ => c.model.value@ == s.model@ && c.model.source == (if e.declares_model {
                                ValueSource::EndpointDefault
                            } else {
                                ValueSource::BuiltIn
                            }),
                        })
                    }
                    &&& c.endpoint@ == params.endpoint@
                    &&& opt_string_view(c.standing) == row_standing(row)
                    &&& strings_view(c.blocking_reasons@) == preview_blocking(row, endpoint, *params)
                    &&& strings_view(c.evidence_refs@) == row_evidence(row)
                    &&& c.instruction_sha256@ == instruction_digest(params.instruction@)
                    &&& c.instruction_bytes == byte_len(params.instruction@)
                    &&& c.max_turns == params.max_turns
                    &&& c.token_budget == params.token_budget
                },
            }
        }),
{
    let row = find_endpoint_row(&catalog.assets, params.endpoint.as_str());
    let (standing, evidence_refs, mut blocking_reasons): (Option<String>, Vec<String>, Vec<String>) = match row {
        Some(x) => {
            let mut b: Vec<String> = Vec::new();
            match &x.blocking_reason {
                Some(reason) => b.push(reason.clone()),
                None => {},
            }
            proof {
                assert(strings_view(b@) =~= catalog_blocking(Some(asset_view(*x))));
            }
            (Some(x.standing.clone()), crate::envelope::clone_strings(&x.evidence_refs), b)
        },
        None => {
            let b: Vec<String> = Vec::new();
            let ev: Vec<String> = Vec::new();
            proof {
                assert(strings_view(b@) =~= Seq::<Seq<char>>::empty());
                assert(strings_view(ev@) =~= Seq::<Seq<char>>::empty());
            }
            (None, ev, b)
        },
    };
    let ghost b0 = strings_view(blocking_reasons@);
    let e = match endpoint {
        None => {
            blocking_reasons.push(concat3("agent endpoint '", params.endpoint.as_str(), "' is not configured in this cell"));
            proof {
                assert(strings_view(blocking_reasons@) =~= b0.push(
                    "agent endpoint '"@ + params.endpoint@ + "' is not configured in this cell"@,
                ));
            }
            return PreviewStep::Done(
                DelegationPreviewResult {
                    endpoint: params.endpoint.clone(),
                    eligible: false,
                    standing,
                    blocking_reasons,
                    evidence_refs,
                    contract: None,
                },
            );
        },
        Some(e) => e,
    };
    let ghost ev = e;
    let PreviewEndpoint { declares_model, declares_retention, snapshot } = e;
    let s = match snapshot {
        Err(_) => {
            return PreviewStep::Done(
                DelegationPreviewResult {
                    endpoint: params.endpoint.clone(),
                    eligible: false,
                    standing,
                    blocking_reasons,
                    evidence_refs,
                    contract: None,
                },
            );
        },
        Ok(s) => s,
    };
    let requested: Option<&str> = match &params.model {
        Some(m) => Some(m.as_str()),
        None => None,
    };
    proof {
        assert(crate::json::opt_str_view(requested) == opt_string_view(params.model));
    }
    let model = match check_preconditions(&s, params.instruction.as_str(), requested, params.max_turns) {
        Ok(m) => m,
        Err(unmet) => {
            let ghost before = strings_view(blocking_reasons@);
            let mut k: usize = 0;
            while k < unmet.len()
                invariant
                    k <= unmet@.len(),
                    strings_view(blocking_reasons@) == before + strings_view(unmet@).take(k as int),
                decreases unmet@.len() - k,
            {
                let ghost mid = strings_view(blocking_reasons@);
                blocking_reasons.push(unmet[k].clone());
                proof {
                    assert(strings_view(blocking_reasons@) =~= mid.push(unmet@[k as int]@));
                    assert(strings_view(unmet@).take(k + 1) =~= strings_view(unmet@).take(k as int).push(unmet@[k as int]@));
                }
                k += 1;
            }
            proof {
                assert(strings_view(unmet@).take(unmet@.len() as int) =~= strings_view(unmet@));
            }
            s.model.clone()
        },
    };
    proof {
        let unmet = unmet_rules(s, params.instruction@, opt_string_view(params.model), params.max_turns);
        if unmet.len() == 0 {
            assert(strings_view(blocking_reasons@) =~= b0 + unmet);
        }
    }
    let hex = sha256_hex(params.instruction.as_str());
    let instruction_sha256 = concat2("sha256:", hex.as_str());
    let action = action_for_delegation(
        &s,
        params.endpoint.as_str(),
        model.as_str(),
        instruction_sha256.as_str(),
        params.max_turns,
        params.token_budget,
    );
    let resolved = resolve_model(requested, declares_model, s.model.as_str());
    let instruction_bytes = params.instruction.as_str().as_bytes().len() as u64;
    PreviewStep::Contract(
        ContractDraft {
            endpoint: params.endpoint.clone(),
            standing,
            blocking_reasons,
            evidence_refs,
            action,
            model: resolved,
            declares_retention,
            instruction_sha256,
            instruction_bytes,
            max_turns: params.max_turns,
            token_budget: params.token_budget,
        },
    )
}

/// The last step of a preview: the contract, digested over the serialized
/// authority action (`action_json`, the bytes the command would submit),
/// with the retention mode the configuration resolves. Eligible exactly
/// when nothing blocks it.
pub fn preview_finish(draft: ContractDraft, retention: TranscriptRetentionMode, action_json: &[u8]) -> (r: DelegationPreviewResult)
    ensures
        r.endpoint == draft.endpoint,
        r.eligible <==> draft.blocking_reasons@.len() == 0,
        r.standing == draft.standing,
        r.blocking_reasons == draft.blocking_reasons,
        r.evidence_refs == draft.evidence_refs,
        r.contract matches Some(c) && {
            &&& c.provider_kind == draft.action.provider_kind
            &&& c.endpoint_digest == draft.action.descriptor_config_sha256
            &&& c.model == draft.model
            &&& c.transcript_retention.value@ == retention_word_of(retention)
            &&& c.transcript_retention.source == (if draft.declares_retention {
                ValueSource::EndpointDefault
            } else {
                ValueSource::CellDefault
            })
            &&& c.instruction_sha256 == draft.instruction_sha256
            &&& c.instruction_bytes == draft.instruction_bytes
            &&& c.max_request_bytes == draft.action.max_request_bytes
            &&& c.max_response_bytes == draft.action.max_response_bytes
            &&& c.timeout_secs == draft.action.timeout_secs
            &&& c.max_turns == draft.max_turns
            &&& c.token_budget == draft.token_budget
            &&& c.required_authority@ == "agent_task"@
            &&& c.contract_digest@ == "sha256:"@ + sha256_hex_of(action_json@)
        },
{
    let hex = sha256_hex_bytes(action_json);
    let contract_digest = concat2("sha256:", hex.as_str());
    let transcript_retention = resolve_retention(draft.declares_retention, retention);
    let eligible = draft.blocking_reasons.len() == 0;
    let ContractDraft {
        endpoint,
        standing,
        blocking_reasons,
        evidence_refs,
        action,
        model,
        declares_retention: _,
        instruction_sha256,
        instruction_bytes,
        max_turns,
        token_budget,
    } = draft;
    let contract = JobContractPreview {
        provider_kind: action.provider_kind,
        endpoint_digest: action.descriptor_config_sha256,
        model,
        transcript_retention,
        instruction_sha256,
        instruction_bytes,
        max_request_bytes: action.max_request_bytes,
        max_response_bytes: action.max_response_bytes,
        timeout_secs: action.timeout_secs,
        max_turns,
        token_budget,
        required_authority: owned("agent_task"),
        contract_digest,
    };
    DelegationPreviewResult { endpoint, eligible, standing, blocking_reasons, evidence_refs, contract: Some(contract) }
}

} // verus!
