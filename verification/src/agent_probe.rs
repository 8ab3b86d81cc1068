//! Governed probes of configured agent endpoints: what a probe must meet
//! before anything is committed, the authority action it submits, how it
//! settles, and the runtime-adapter registration an allowed probe leaves.
use vstd::prelude::*;
use crate::envelope::{strings_view, opt_string_view};
use crate::governed_settlement_return::SettlementStatus;
use crate::delegation::{EndpointSnapshot, ProviderKind, DelegationRefusal, RefusalView, refusal_view, resolved_model, byte_len, provider_word, provider_kind_word};
use crate::text::{owned, str_eq, concat2, concat3, contains, contains_exec, starts_with};
use vstd::string::StrSliceExecFns;

verus! {

/// The largest probe prompt, in bytes.
pub const MAX_PROBE_PROMPT_BYTES: usize = 65536;

/// The class of a snapshot failure: an unsupported provider kind, or a
/// schema error.
pub open spec fn snapshot_failure_class(message: Seq<char>) -> Seq<char> {
    if contains(message, "unsupported_kind_error"@) {
        "unsupported_kind_error"@
    } else {
        "schema_error"@
    }
}

/// A probe's admission: a prompt of 1 to 65536 bytes, a configured endpoint
/// whose configuration snapshots, and a non-empty model; the first unmet
/// condition refuses it, otherwise the model it runs.
pub open spec fn probe_admission(
    endpoint_id: Seq<char>,
    endpoint: Option<Result<EndpointSnapshot, String>>,
    prompt: Seq<char>,
    model: Option<Seq<char>>,
) -> Result<Seq<char>, RefusalView> {
    if prompt.len() == 0 || byte_len(prompt) > 65536 {
        Err(RefusalView::Input("agent probe prompt must be 1..65536 bytes"@))
    } else {
        match endpoint {
            None => Err(
                RefusalView::Config {
                    class: "missing_config_error"@,
                    message: "agent endpoint '"@ + endpoint_id + "' not found"@,
                },
            ),
            Some(Err(m)) => Err(RefusalView::Config { class: snapshot_failure_class(m@), message: m@ }),
            Some(Ok(s)) => if resolved_model(model, s).len() == 0 {
                Err(RefusalView::Input("agent probe model must not be empty"@))
            } else {
                Ok(resolved_model(model, s))
            },
        }
    }
}

pub fn admit_probe(
    endpoint_id: &str,
    endpoint: &Option<Result<EndpointSnapshot, String>>,
    prompt: &str,
    model: Option<&str>,
) -> (r: Result<String, DelegationRefusal>)
    ensures
        (match r {
            Ok(m) => Ok(m@),
            Err(e) => Err(refusal_view(e)),
        }) == probe_admission(endpoint_id@, *endpoint, prompt@, crate::json::opt_str_view(model)),
{
    if prompt.unicode_len() == 0 || prompt.as_bytes().len() > MAX_PROBE_PROMPT_BYTES {
        return Err(DelegationRefusal::Input(owned("agent probe prompt must be 1..65536 bytes")));
    }
    let snapshot = match endpoint {
        None => {
            return Err(
                DelegationRefusal::Config {
                    class: owned("missing_config_error"),
                    message: concat3("agent endpoint '", endpoint_id, "' not found"),
                },
            );
        },
        Some(Err(m)) => {
            let class = if contains_exec(m.as_str(), "unsupported_kind_error") {
                "unsupported_kind_error"
            } else {
                "schema_error"
            };
            return Err(DelegationRefusal::Config { class: owned(class), message: m.clone() });
        },
        Some(Ok(s)) => s,
    };
    let resolved: String = match model {
        Some(m) => owned(m),
        None => snapshot.model.clone(),
    };
    if resolved.unicode_len() == 0 {
        return Err(DelegationRefusal::Input(owned("agent probe model must not be empty")));
    }
    Ok(resolved)
}

/// The `agent_probe` authority action a probe submits.
pub struct AgentProbeAction {
    pub endpoint_ref: String,
    pub descriptor_config_sha256: String,
    pub provider_kind: String,
    pub scheme: String,
    pub host: String,
    pub port: u16,
    pub path: String,
    pub model: String,
    pub max_request_bytes: u64,
    pub max_response_bytes: u64,
    pub timeout_secs: u64,
    pub credential_ref: Option<String>,
    pub prompt_sha256: String,
}

/// The exact authority action of a probe of `endpoint`.
pub fn action_for(endpoint: &EndpointSnapshot, endpoint_ref: &str, model: &str, prompt_hash: &str) -> (r: AgentProbeAction)
    ensures
        r.endpoint_ref@ == endpoint_ref@,
        r.descriptor_config_sha256@ == endpoint.descriptor_config_sha256@,
        r.provider_kind@ == provider_word(endpoint.kind),
        r.scheme@ == endpoint.scheme@,
        r.host@ == endpoint.host@,
        r.port == endpoint.port,
        r.path@ == endpoint.path@,
        r.model@ == model@,
        r.max_request_bytes == endpoint.max_request_bytes,
        r.max_response_bytes == endpoint.max_response_bytes,
        r.timeout_secs == endpoint.timeout_secs,
        opt_string_view(r.credential_ref) == opt_string_view(endpoint.credential_ref),
        r.prompt_sha256@ == prompt_hash@,
{
    AgentProbeAction {
        endpoint_ref: owned(endpoint_ref),
        descriptor_config_sha256: endpoint.descriptor_config_sha256.clone(),
        provider_kind: owned(provider_kind_word(endpoint.kind)),
        scheme: endpoint.scheme.clone(),
        host: endpoint.host.clone(),
        port: endpoint.port,
        path: endpoint.path.clone(),
        model: owned(model),
        max_request_bytes: endpoint.max_request_bytes,
        max_response_bytes: endpoint.max_response_bytes,
        timeout_secs: endpoint.timeout_secs,
        credential_ref: endpoint.credential_ref.clone(),
        prompt_sha256: owned(prompt_hash),
    }
}

/// Why a provider call failed.
pub enum AgentError {
    Unreachable,
    Timeout,
    Http4xx(u16),
    Http5xx(u16),
    Oversize,
    SchemaInvalid,
    Redirect,
    UnsupportedKind,
    InvalidRequest(String),
    Transport,
}

pub open spec fn error_class_of(e: AgentError) -> Seq<char> {
    match e {
        AgentError::Unreachable => "agent_endpoint_unreachable"@,
        AgentError::Timeout => "agent_endpoint_timeout"@,
        AgentError::Http4xx(_) => "agent_endpoint_http_4xx"@,
        AgentError::Http5xx(_) => "agent_endpoint_http_5xx"@,
        AgentError::Oversize => "agent_endpoint_oversize"@,
        AgentError::SchemaInvalid => "agent_endpoint_schema_invalid"@,
        AgentError::Redirect => "agent_endpoint_redirect"@,
        AgentError::UnsupportedKind => "unsupported_kind_error"@,
        AgentError::InvalidRequest(_) => "agent_endpoint_invalid_request"@,
        AgentError::Transport => "agent_endpoint_transport"@,
    }
}

/// The error class a failed provider call settles a probe with.
pub fn error_class(error: &AgentError) -> (r: String)
    ensures
        r@ == error_class_of(*error),
{
    owned(
        match error {
            AgentError::Unreachable => "agent_endpoint_unreachable",
            AgentError::Timeout => "agent_endpoint_timeout",
            AgentError::Http4xx(_) => "agent_endpoint_http_4xx",
            AgentError::Http5xx(_) => "agent_endpoint_http_5xx",
            AgentError::Oversize => "agent_endpoint_oversize",
            AgentError::SchemaInvalid => "agent_endpoint_schema_invalid",
            AgentError::Redirect => "agent_endpoint_redirect",
            AgentError::UnsupportedKind => "unsupported_kind_error",
            AgentError::InvalidRequest(_) => "agent_endpoint_invalid_request",
            AgentError::Transport => "agent_endpoint_transport",
        },
    )
}

/// What a probe reports back.
pub struct ProbeOutcome {
    pub endpoint: String,
    pub run_id: String,
    pub settlement: SettlementStatus,
    pub response_sha256: Option<String>,
    pub error_class: Option<String>,
}

/// How a probe whose completion answered settles: accepted, with the
/// response's digest; the basis of its settlement.
pub fn accepted_probe(endpoint: &str, run: &str, response_sha256: String) -> (r: (ProbeOutcome, Vec<String>))
    ensures
        r.0.endpoint@ == endpoint@,
        r.0.run_id@ == run@,
        r.0.settlement == SettlementStatus::Accepted,
        opt_string_view(r.0.response_sha256) == Some(response_sha256@),
        r.0.error_class is None,
        strings_view(r.1@) == seq!["authority_allow"@, "schema_valid_response"@],
{
    let mut basis: Vec<String> = Vec::new();
    basis.push(owned("authority_allow"));
    basis.push(owned("schema_valid_response"));
    proof {
        assert(strings_view(basis@) =~= seq!["authority_allow"@, "schema_valid_response"@]);
    }
    (
        ProbeOutcome {
            endpoint: owned(endpoint),
            run_id: owned(run),
            settlement: SettlementStatus::Accepted,
            response_sha256: Some(response_sha256),
            error_class: None,
        },
        basis,
    )
}

/// How a probe that was refused, or whose completion failed, settles:
/// rejected with the error class as its whole basis.
pub fn rejected_probe(endpoint: &str, run: &str, error_class: &str) -> (r: (ProbeOutcome, Vec<String>))
    ensures
        r.0.endpoint@ == endpoint@,
        r.0.run_id@ == run@,
        r.0.settlement == SettlementStatus::Rejected,
        r.0.response_sha256 is None,
        opt_string_view(r.0.error_class) == Some(error_class@),
        strings_view(r.1@) == seq![error_class@],
{
    let mut basis: Vec<String> = Vec::new();
    basis.push(owned(error_class));
    proof {
        assert(strings_view(basis@) =~= seq![error_class@]);
    }
    (
        ProbeOutcome {
            endpoint: owned(endpoint),
            run_id: owned(run),
            settlement: SettlementStatus::Rejected,
            response_sha256: None,
            error_class: Some(owned(error_class)),
        },
        basis,
    )
}

/// `Path::join`: `rel` under `root`, unless `rel` is absolute.
pub open spec fn path_join(root: Seq<char>, rel: Seq<char>) -> Seq<char> {
    if rel.len() > 0 && rel[0] == '/' {
        rel
    } else if root.len() == 0 {
        rel
    } else if root.last() == '/' {
        root + rel
    } else {
        root + "/"@ + rel
    }
}

pub fn path_join_exec(root: &str, rel: &str) -> (r: String)
    ensures
        r@ == path_join(root@, rel@),
{
    let n = root.unicode_len();
    if rel.unicode_len() > 0 && rel.get_char(0) == '/' {
        owned(rel)
    } else if n == 0 {
        owned(rel)
    } else if root.get_char(n - 1) == '/' {
        concat2(root, rel)
    } else {
        concat3(root, "/", rel)
    }
}

/// The policy file a probe or delegation loads: the configured path as
/// given when it is absolute or names an existing file (`exists`), else
/// under the cell root.
pub open spec fn policy_path_of(root: Seq<char>, configured: Seq<char>, exists: bool) -> Seq<char> {
    if (configured.len() > 0 && configured[0] == '/') || exists {
        configured
    } else {
        path_join(root, configured)
    }
}

pub fn resolve_policy_path(root: &str, configured: &str, exists: bool) -> (r: String)
    ensures
        r@ == policy_path_of(root@, configured@, exists),
{
    if (configured.unicode_len() > 0 && configured.get_char(0) == '/') || exists {
        owned(configured)
    } else {
        path_join_exec(root, configured)
    }
}

/// A provider kind's `Debug` name.
pub open spec fn provider_debug_name(k: ProviderKind) -> Seq<char> {
    match k {
        ProviderKind::OpenAiCompatible => "OpenAiCompatible"@,
        ProviderKind::Anthropic => "Anthropic"@,
        ProviderKind::Acp => "Acp"@,
    }
}

/// The runtime-adapter descriptor an allowed probe registers an endpoint under.
pub struct AdapterDescriptor {
    pub extension_id: String,
    pub name: String,
    pub version: String,
    pub provider: String,
    pub capabilities: Vec<String>,
    pub authority_surface: String,
    pub input_schema: String,
    pub input_sha256: String,
    pub output_schema: String,
    pub output_sha256: String,
    pub deterministic: bool,
}

pub open spec fn output_contract_digest() -> Seq<char> {
    "sha256:"@ + Seq::new(64, |i: int| 'b')
}

/// The descriptor of an endpoint's registration.
pub fn adapter_descriptor(endpoint: &EndpointSnapshot) -> (r: AdapterDescriptor)
    ensures
        r.extension_id@ == "agent_endpoint_"@ + endpoint.id@,
        r.name@ == "agent endpoint "@ + endpoint.id@,
        r.version@ == "0.1.0"@,
        r.provider@ == "sea-forge-agent"@,
        strings_view(r.capabilities@) == seq!["agent_probe"@, "provider:"@ + provider_debug_name(endpoint.kind)],
        r.authority_surface@ == "external_api"@,
        r.input_schema@ == "sea-forge-agent.endpoint.v1"@,
        r.input_sha256@ == endpoint.descriptor_config_sha256@,
        r.output_schema@ == "sea-forge-agent.probe.v1"@,
        r.output_sha256@ == output_contract_digest(),
        !r.deterministic,
{
    let mut caps: Vec<String> = Vec::new();
    caps.push(owned("agent_probe"));
    let debug_name = match endpoint.kind {
        ProviderKind::OpenAiCompatible => "OpenAiCompatible",
        ProviderKind::Anthropic => "Anthropic",
        ProviderKind::Acp => "Acp",
    };
    caps.push(concat2("provider:", debug_name));
    proof {
        assert(strings_view(caps@) =~= seq!["agent_probe"@, "provider:"@ + provider_debug_name(endpoint.kind)]);
    }
    let mut out = owned("sha256:");
    let mut i: usize = 0;
    while i < 64
        invariant
            i <= 64,
            out@ == "sha256:"@ + Seq::new(i as nat, |k: int| 'b'),
        decreases 64 - i,
    {
        crate::text::push_char(&mut out, 'b');
        proof {
            assert(out@ =~= "sha256:"@ + Seq::new((i + 1) as nat, |k: int| 'b'));
        }
        i += 1;
    }
    AdapterDescriptor {
        extension_id: concat2("agent_endpoint_", endpoint.id.as_str()),
        name: concat2("agent endpoint ", endpoint.id.as_str()),
        version: owned("0.1.0"),
        provider: owned("sea-forge-agent"),
        capabilities: caps,
        authority_surface: owned("external_api"),
        input_schema: owned("sea-forge-agent.endpoint.v1"),
        input_sha256: endpoint.descriptor_config_sha256.clone(),
        output_schema: owned("sea-forge-agent.probe.v1"),
        output_sha256: out,
        deterministic: false,
    }
}

/// A registry entry (extension id, version) already holds the descriptor.
pub open spec fn already_registered(entries: Seq<(String, String)>, extension_id: Seq<char>, version: Seq<char>) -> bool {
    exists|i: int| 0 <= i < entries.len() && (#[trigger] entries[i]).0@ == extension_id && entries[i].1@ == version
}

/// Whether registering the descriptor is new to the registry: only a new
/// registration invalidates the current self-model snapshot.
pub fn is_new_registration(entries: &Vec<(String, String)>, extension_id: &str, version: &str) -> (r: bool)
    ensures
        r == !already_registered(entries@, extension_id@, version@),
{
    let mut i: usize = 0;
    while i < entries.len()
        invariant
            i <= entries@.len(),
            forall|k: int| 0 <= k < i ==> !((#[trigger] entries@[k]).0@ == extension_id@ && entries@[k].1@ == version@),
        decreases entries@.len() - i,
    {
        if str_eq(entries[i].0.as_str(), extension_id) && str_eq(entries[i].1.as_str(), version) {
            return false;
        }
        i += 1;
    }
    true
}

/// The reason recorded when a new registration marks the snapshot stale.
pub fn registration_stale_reason(endpoint_id: &str) -> (r: String)
    ensures
        r@ == "agent_endpoint_registered:"@ + endpoint_id@,
{
    concat2("agent_endpoint_registered:", endpoint_id)
}

/// One configured endpoint in the agent list.
pub struct AgentListEntry {
    pub id: String,
    pub kind: ProviderKind,
    pub descriptor_config_sha256: String,
    /// Always `declared`: the list proves nothing about an endpoint.
    pub status: String,
}

pub struct ListEntryView {
    pub id: Seq<char>,
    pub kind: ProviderKind,
    pub descriptor_config_sha256: Seq<char>,
    pub status: Seq<char>,
}

pub open spec fn list_entry_view(e: AgentListEntry) -> ListEntryView {
    ListEntryView { id: e.id@, kind: e.kind, descriptor_config_sha256: e.descriptor_config_sha256@, status: e.status@ }
}

/// The endpoints whose configuration snapshots, in configuration order.
pub open spec fn listed_endpoints(snapshots: Seq<Result<EndpointSnapshot, String>>) -> Seq<ListEntryView>
    decreases snapshots.len(),
{
    if snapshots.len() == 0 {
        Seq::empty()
    } else {
        let rest = listed_endpoints(snapshots.drop_last());
        match snapshots.last() {
            Ok(s) => rest.push(
                ListEntryView {
                    id: s.id@,
                    kind: s.kind,
                    descriptor_config_sha256: s.descriptor_config_sha256@,
                    status: "declared"@,
                },
            ),
            Err(_) => rest,
        }
    }
}

/// The agent list: each configured endpoint that snapshots, as declared.
pub fn list(snapshots: &Vec<Result<EndpointSnapshot, String>>) -> (r: Vec<AgentListEntry>)
    ensures
        r@.map_values(|e: AgentListEntry| list_entry_view(e)) == listed_endpoints(snapshots@),
{
    let mut out: Vec<AgentListEntry> = Vec::new();
    let mut i: usize = 0;
    while i < snapshots.len()
        invariant
            i <= snapshots@.len(),
            out@.map_values(|e: AgentListEntry| list_entry_view(e)) == listed_endpoints(snapshots@.subrange(0, i as int)),
        decreases snapshots@.len() - i,
    {
        proof {
            assert(snapshots@.subrange(0, i + 1).drop_last() =~= snapshots@.subrange(0, i as int));
        }
        let ghost before = out@.map_values(|e: AgentListEntry| list_entry_view(e));
        match &snapshots[i] {
            Ok(s) => {
                let entry = AgentListEntry {
                    id: s.id.clone(),
                    kind: s.kind,
                    descriptor_config_sha256: s.descriptor_config_sha256.clone(),
                    status: owned("declared"),
                };
                out.push(entry);
                proof {
                    assert(out@.map_values(|e: AgentListEntry| list_entry_view(e)) =~= before.push(list_entry_view(entry)));
                }
            },
            Err(_) => {},
        }
        i += 1;
    }
    proof {
        assert(snapshots@.subrange(0, snapshots@.len() as int) =~= snapshots@);
    }
    out
}

/// A governed probe request: the endpoint, the prompt, and the governance
/// context it runs under.
pub struct ProbeRequest<'a> {
    pub endpoint_id: &'a str,
    pub prompt: &'a str,
    pub model: Option<&'a str>,
    pub policy_path: &'a str,
    pub entity: &'a str,
    pub process: &'a str,
}

} // verus!
