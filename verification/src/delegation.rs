//! Governed agent delegation: the request rules a delegation must meet, the
//! authority action it submits, how its outcome settles, and the decisions
//! of the permission mediator that stands between an ACP agent and the tools
//! it asks for.
use vstd::prelude::*;
use crate::envelope::{strings_view, opt_string_view};
use crate::json::JsonView;
use crate::governed_settlement_return::SettlementStatus;
use crate::text::{owned, str_eq, concat2, concat3, decimal, decimal_exec, starts_with, starts_with_exec};
use vstd::string::StrSliceExecFns;

verus! {

/// The provider family of an agent endpoint.
#[derive(Clone, Copy, Debug, PartialEq, Eq, Structural)]
pub enum ProviderKind {
    OpenAiCompatible,
    Anthropic,
    Acp,
}

pub open spec fn provider_word(k: ProviderKind) -> Seq<char> {
    match k {
        ProviderKind::OpenAiCompatible => "openai_compatible"@,
        ProviderKind::Anthropic => "anthropic"@,
        ProviderKind::Acp => "acp"@,
    }
}

pub fn provider_kind_word(k: ProviderKind) -> (r: &'static str)
    ensures
        r@ == provider_word(k),
{
    match k {
        ProviderKind::OpenAiCompatible => "openai_compatible",
        ProviderKind::Anthropic => "anthropic",
        ProviderKind::Acp => "acp",
    }
}

/// An agent endpoint's configuration snapshot, as delegation reads it.
pub struct EndpointSnapshot {
    pub id: String,
    pub kind: ProviderKind,
    pub descriptor_config_sha256: String,
    /// The base URL's scheme, host (empty without one), port (its known
    /// default when unset, else 0) and path.
    pub scheme: String,
    pub host: String,
    pub port: u16,
    pub path: String,
    /// The model the endpoint resolves to when a request names none.
    pub model: String,
    pub max_request_bytes: u64,
    pub max_response_bytes: u64,
    pub timeout_secs: u64,
    pub credential_ref: Option<String>,
    /// The ACP command line.
    pub argv: Vec<String>,
    /// `KEY=value` entries of the ACP environment.
    pub env: Vec<String>,
}

/// The `agent_task` authority action a delegation submits.
pub struct AgentTaskAction {
    pub endpoint_ref: String,
    pub descriptor_config_sha256: String,
    pub provider_kind: String,
    pub scheme: String,
    pub host: String,
    pub port: u16,
    pub path: String,
    pub model: String,
    pub max_request_bytes: u64,
    pub max_response_bytes: u64,
    pub timeout_secs: u64,
    pub credential_ref: Option<String>,
    pub instruction_sha256: String,
    pub max_turns: u32,
    pub token_budget: Option<u64>,
}

/// The exact authority action of a delegation to `endpoint`.
pub fn action_for_delegation(
    endpoint: &EndpointSnapshot,
    endpoint_ref: &str,
    model: &str,
    instruction_hash: &str,
    max_turns: u32,
    token_budget: Option<u64>,
) -> (r: AgentTaskAction)
    ensures
        r.endpoint_ref@ == endpoint_ref@,
        r.descriptor_config_sha256@ == endpoint.descriptor_config_sha256@,
        r.provider_kind@ == provider_word(endpoint.kind),
        r.scheme@ == endpoint.scheme@,
        r.host@ == endpoint.host@,
        r.port == endpoint.port,
        r.path@ == endpoint.path@,
        r.model@ == model@,
        r.max_request_bytes == endpoint.max_request_bytes,
        r.max_response_bytes == endpoint.max_response_bytes,
        r.timeout_secs == endpoint.timeout_secs,
        opt_string_view(r.credential_ref) == opt_string_view(endpoint.credential_ref),
        r.instruction_sha256@ == instruction_hash@,
        r.max_turns == max_turns,
        r.token_budget == token_budget,
{
    AgentTaskAction {
        endpoint_ref: owned(endpoint_ref),
        descriptor_config_sha256: endpoint.descriptor_config_sha256.clone(),
        provider_kind: owned(provider_kind_word(endpoint.kind)),
        scheme: endpoint.scheme.clone(),
        host: endpoint.host.clone(),
        port: endpoint.port,
        path: endpoint.path.clone(),
        model: owned(model),
        max_request_bytes: endpoint.max_request_bytes,
        max_response_bytes: endpoint.max_response_bytes,
        timeout_secs: endpoint.timeout_secs,
        credential_ref: endpoint.credential_ref.clone(),
        instruction_sha256: owned(instruction_hash),
        max_turns,
        token_budget,
    }
}

// ---------------------------------------------------------------------------
// The request rules
// ---------------------------------------------------------------------------

/// The UTF-8 length of a text, in bytes.
pub open spec fn byte_len(s: Seq<char>) -> int {
    vstd::utf8::encode_utf8(s).len() as int
}

/// The model a delegation runs: the requested one, else the endpoint's.
pub open spec fn resolved_model(requested: Option<Seq<char>>, snapshot: EndpointSnapshot) -> Seq<char> {
    match requested {
        Some(m) => m,
        None => snapshot.model@,
    }
}

/// The request-shape rules a delegation must meet, every unmet one in rule
/// order: a non-empty instruction, at least one turn, an instruction within
/// the endpoint's request cap, and a non-empty model.
pub open spec fn unmet_rules(snapshot: EndpointSnapshot, instruction: Seq<char>, model: Option<Seq<char>>, max_turns: u32) -> Seq<Seq<char>> {
    let r1: Seq<Seq<char>> = if instruction.len() == 0 {
        seq!["agent_task instruction must be non-empty"@]
    } else {
        Seq::empty()
    };
    let r2: Seq<Seq<char>> = if max_turns == 0 {
        seq!["agent_task max_turns must be >= 1"@]
    } else {
        Seq::empty()
    };
    let r3: Seq<Seq<char>> = if byte_len(instruction) > snapshot.max_request_bytes {
        seq![
            "agent_task instruction exceeds endpoint max_request_bytes ("@ + decimal(snapshot.max_request_bytes as nat)
                + ")"@,
        ]
    } else {
        Seq::empty()
    };
    let r4: Seq<Seq<char>> = if resolved_model(model, snapshot).len() == 0 {
        seq!["agent_task model must not be empty"@]
    } else {
        Seq::empty()
    };
    r1 + r2 + r3 + r4
}

/// The request-shape rules against an endpoint snapshot: the resolved model
/// when every rule is met, else every unmet rule.
pub fn check_preconditions(snapshot: &EndpointSnapshot, instruction: &str, model: Option<&str>, max_turns: u32) -> (r: Result<String, Vec<String>>)
    ensures
        match r {
            Ok(m) => unmet_rules(*snapshot, instruction@, crate::json::opt_str_view(model), max_turns).len() == 0
                && m@ == resolved_model(crate::json::opt_str_view(model), *snapshot),
            Err(v) => unmet_rules(*snapshot, instruction@, crate::json::opt_str_view(model), max_turns).len() > 0
                && strings_view(v@) == unmet_rules(*snapshot, instruction@, crate::json::opt_str_view(model), max_turns),
        },
{
    let resolved: String = match model {
        Some(m) => owned(m),
        None => snapshot.model.clone(),
    };
    let mut unmet: Vec<String> = Vec::new();
    let ghost want = unmet_rules(*snapshot, instruction@, crate::json::opt_str_view(model), max_turns);
    if instruction.unicode_len() == 0 {
        unmet.push(owned("agent_task instruction must be non-empty"));
    }
    if max_turns == 0 {
        unmet.push(owned("agent_task max_turns must be >= 1"));
    }
    if (instruction.as_bytes().len() as u64) > snapshot.max_request_bytes {
        let n = decimal_exec(snapshot.max_request_bytes);
        unmet.push(concat3("agent_task instruction exceeds endpoint max_request_bytes (", n.as_str(), ")"));
    }
    if resolved.unicode_len() == 0 {
        unmet.push(owned("agent_task model must not be empty"));
    }
    proof {
        assert(strings_view(unmet@) =~= want);
    }
    if unmet.len() == 0 {
        Ok(resolved)
    } else {
        Err(unmet)
    }
}

/// Why a delegation was refused before anything was committed.
pub enum DelegationRefusal {
    /// A request-shape rule.
    Input(String),
    /// The endpoint is not configured (`missing_config_error`) or its
    /// configuration does not snapshot (`schema_error`).
    Config { class: String, message: String },
}

pub enum RefusalView {
    Input(Seq<char>),
    Config { class: Seq<char>, message: Seq<char> },
}

pub open spec fn refusal_view(r: DelegationRefusal) -> RefusalView {
    match r {
        DelegationRefusal::Input(m) => RefusalView::Input(m@),
        DelegationRefusal::Config { class, message } => RefusalView::Config { class: class@, message: message@ },
    }
}

/// The command's admission of a delegation: the first unmet condition in
/// order (instruction, turns, the endpoint's configuration, the request cap,
/// the model), else the model it runs.
pub open spec fn admission(
    endpoint_id: Seq<char>,
    endpoint: Option<Result<EndpointSnapshot, String>>,
    instruction: Seq<char>,
    model: Option<Seq<char>>,
    max_turns: u32,
) -> Result<Seq<char>, RefusalView> {
    if instruction.len() == 0 {
        Err(RefusalView::Input("agent_task instruction must be non-empty"@))
    } else if max_turns == 0 {
        Err(RefusalView::Input("agent_task max_turns must be >= 1"@))
    } else {
        match endpoint {
            None => Err(
                RefusalView::Config {
                    class: "missing_config_error"@,
                    message: "agent endpoint '"@ + endpoint_id + "' not found"@,
                },
            ),
            Some(Err(m)) => Err(RefusalView::Config { class: "schema_error"@, message: m@ }),
            Some(Ok(s)) => if byte_len(instruction) > s.max_request_bytes {
                Err(
                    RefusalView::Input(
                        "agent_task instruction exceeds endpoint max_request_bytes ("@ + decimal(
                            s.max_request_bytes as nat,
                        ) + ")"@,
                    ),
                )
            } else if resolved_model(model, s).len() == 0 {
                Err(RefusalView::Input("agent_task model must not be empty"@))
            } else {
                Ok(resolved_model(model, s))
            },
        }
    }
}

pub fn admit_delegation(
    endpoint_id: &str,
    endpoint: &Option<Result<EndpointSnapshot, String>>,
    instruction: &str,
    model: Option<&str>,
    max_turns: u32,
) -> (r: Result<String, DelegationRefusal>)
    ensures
        (match r {
            Ok(m) => Ok(m@),
            Err(e) => Err(refusal_view(e)),
        }) == admission(endpoint_id@, *endpoint, instruction@, crate::json::opt_str_view(model), max_turns),
{
    if instruction.unicode_len() == 0 {
        return Err(DelegationRefusal::Input(owned("agent_task instruction must be non-empty")));
    }
    if max_turns == 0 {
        return Err(DelegationRefusal::Input(owned("agent_task max_turns must be >= 1")));
    }
    let snapshot = match endpoint {
        None => {
            return Err(
                DelegationRefusal::Config {
                    class: owned("missing_config_error"),
                    message: concat3("agent endpoint '", endpoint_id, "' not found"),
                },
            );
        },
        Some(Err(m)) => {
            return Err(DelegationRefusal::Config { class: owned("schema_error"), message: m.clone() });
        },
        Some(Ok(s)) => s,
    };
    if (instruction.as_bytes().len() as u64) > snapshot.max_request_bytes {
        let n = decimal_exec(snapshot.max_request_bytes);
        return Err(
            DelegationRefusal::Input(concat3("agent_task instruction exceeds endpoint max_request_bytes (", n.as_str(), ")")),
        );
    }
    let resolved: String = match model {
        Some(m) => owned(m),
        None => snapshot.model.clone(),
    };
    if resolved.unicode_len() == 0 {
        return Err(DelegationRefusal::Input(owned("agent_task model must not be empty")));
    }
    Ok(resolved)
}

// ---------------------------------------------------------------------------
// Settling a delegation
// ---------------------------------------------------------------------------

/// How a delegation dialogue ended.
#[derive(Clone, Copy, Debug, PartialEq, Eq, Structural)]
pub enum DelegationTermination {
    Completed,
    TurnCapExceeded,
    Cancelled,
    EndpointError,
    AcpDisconnect,
}

pub open spec fn termination_word(t: DelegationTermination) -> Seq<char> {
    match t {
        DelegationTermination::Completed => "completed"@,
        DelegationTermination::TurnCapExceeded => "turn_cap_exceeded"@,
        DelegationTermination::Cancelled => "cancelled"@,
        DelegationTermination::EndpointError => "endpoint_error"@,
        DelegationTermination::AcpDisconnect => "acp_disconnect"@,
    }
}

pub fn termination_str(t: DelegationTermination) -> (r: String)
    ensures
        r@ == termination_word(t),
{
    owned(
        match t {
            DelegationTermination::Completed => "completed",
            DelegationTermination::TurnCapExceeded => "turn_cap_exceeded",
            DelegationTermination::Cancelled => "cancelled",
            DelegationTermination::EndpointError => "endpoint_error",
            DelegationTermination::AcpDisconnect => "acp_disconnect",
        },
    )
}

/// How a dialogue's ending settles: a completed dialogue is accepted unless
/// the criteria's required output was checked and missing (`output_found`
/// is `Some(false)`); every other ending is rejected with its own token.
/// Also the error class the criteria impose, if any.
pub open spec fn settlement_of(t: DelegationTermination, output_found: Option<bool>) -> (SettlementStatus, Seq<Seq<char>>, Option<Seq<char>>) {
    match t {
        DelegationTermination::Completed => if output_found == Some(false) {
            (
                SettlementStatus::Rejected,
                seq!["authority_allow"@, "agent_output_mismatch"@],
                Some("agent_output_mismatch"@),
            )
        } else {
            (SettlementStatus::Accepted, seq!["authority_allow"@, "delegation_completed"@], None)
        },
        DelegationTermination::TurnCapExceeded => (SettlementStatus::Rejected, seq!["turn_cap_exceeded"@], None),
        DelegationTermination::Cancelled => (SettlementStatus::Rejected, seq!["cancelled"@], None),
        DelegationTermination::EndpointError => (SettlementStatus::Rejected, seq!["agent_endpoint_error"@], None),
        DelegationTermination::AcpDisconnect => (SettlementStatus::Rejected, seq!["acp_disconnect"@], None),
    }
}

fn one(s: &str) -> (r: Vec<String>)
    ensures
        strings_view(r@) == seq![s@],
{
    let mut v: Vec<String> = Vec::new();
    v.push(owned(s));
    proof {
        assert(strings_view(v@) =~= seq![s@]);
    }
    v
}

fn two(a: &str, b: &str) -> (r: Vec<String>)
    ensures
        strings_view(r@) == seq![a@, b@],
{
    let mut v: Vec<String> = Vec::new();
    v.push(owned(a));
    v.push(owned(b));
    proof {
        assert(strings_view(v@) =~= seq![a@, b@]);
    }
    v
}

/// The settlement status and basis of a dialogue's ending, given whether the
/// criteria's required agent output was found (none when nothing was required).
pub fn settle_termination(t: DelegationTermination, output_found: Option<bool>) -> (r: (SettlementStatus, Vec<String>, Option<String>))
    ensures
        (r.0, strings_view(r.1@), opt_string_view(r.2)) == settlement_of(t, output_found),
{
    match t {
        DelegationTermination::Completed => match output_found {
            Some(false) => (
                SettlementStatus::Rejected,
                two("authority_allow", "agent_output_mismatch"),
                Some(owned("agent_output_mismatch")),
            ),
            _ => (SettlementStatus::Accepted, two("authority_allow", "delegation_completed"), None),
        },
        DelegationTermination::TurnCapExceeded => (SettlementStatus::Rejected, one("turn_cap_exceeded"), None),
        DelegationTermination::Cancelled => (SettlementStatus::Rejected, one("cancelled"), None),
        DelegationTermination::EndpointError => (SettlementStatus::Rejected, one("agent_endpoint_error"), None),
        DelegationTermination::AcpDisconnect => (SettlementStatus::Rejected, one("acp_disconnect"), None),
    }
}

/// What a delegation reports back.
pub struct DelegationResult {
    pub endpoint: String,
    pub run_id: String,
    pub settlement: SettlementStatus,
    pub termination: Option<String>,
    pub transcript_sha256: Option<String>,
    pub turns_used: u32,
    pub error_class: Option<String>,
    /// The ACP session id linking successor episodes after a disconnect.
    pub continuation_key: Option<String>,
}

/// The result of a delegation refused by authority (its own decision, or
/// the one on the credential): rejected, no dialogue, the refusal's class.
/// Its settlement's basis is that class alone.
pub fn rejected_result(endpoint: &str, run: &str, error_class: &str) -> (r: DelegationResult)
    ensures
        r.endpoint@ == endpoint@,
        r.run_id@ == run@,
        r.settlement == SettlementStatus::Rejected,
        r.termination is None,
        r.transcript_sha256 is None,
        r.turns_used == 0,
        opt_string_view(r.error_class) == Some(error_class@),
        r.continuation_key is None,
{
    DelegationResult {
        endpoint: owned(endpoint),
        run_id: owned(run),
        settlement: SettlementStatus::Rejected,
        termination: None,
        transcript_sha256: None,
        turns_used: 0,
        error_class: Some(owned(error_class)),
        continuation_key: None,
    }
}

/// The result of a delegation whose dialogue ran: its settlement, how it
/// ended, the transcript digest and turns, and the error class (the
/// criteria's, else the dialogue's own subcode).
pub fn settled_result(
    endpoint: &str,
    run: &str,
    termination: DelegationTermination,
    output_found: Option<bool>,
    transcript_sha256: String,
    turns_used: u32,
    error_subcode: Option<String>,
    continuation_key: Option<String>,
) -> (r: (DelegationResult, Vec<String>))
    ensures
        ({
            let (status, basis, criteria_error) = settlement_of(termination, output_found);
            &&& r.0.endpoint@ == endpoint@
            &&& r.0.run_id@ == run@
            &&& r.0.settlement == status
            &&& opt_string_view(r.0.termination) == Some(termination_word(termination))
            &&& opt_string_view(r.0.transcript_sha256) == Some(transcript_sha256@)
            &&& r.0.turns_used == turns_used
            &&& opt_string_view(r.0.error_class) == (match criteria_error {
                Some(c) => Some(c),
                None => opt_string_view(error_subcode),
            })
            &&& r.0.continuation_key == continuation_key
            &&& strings_view(r.1@) == basis
        }),
{
    let (status, basis, criteria_error) = settle_termination(termination, output_found);
    let error_class = match criteria_error {
        Some(c) => Some(c),
        None => error_subcode,
    };
    (
        DelegationResult {
            endpoint: owned(endpoint),
            run_id: owned(run),
            settlement: status,
            termination: Some(termination_str(termination)),
            transcript_sha256: Some(transcript_sha256),
            turns_used,
            error_class,
            continuation_key,
        },
        basis,
    )
}

// ---------------------------------------------------------------------------
// ACP episodes
// ---------------------------------------------------------------------------

/// How an ACP session ended.
#[derive(Clone, Copy, Debug, PartialEq, Eq, Structural)]
pub enum AcpTermination {
    Completed,
    Cancelled,
    Disconnect,
    EndpointError,
    TurnCapExceeded,
}

/// An ACP ending as a delegation ending, with the subcode it carries.
pub open spec fn acp_ending(t: AcpTermination) -> (DelegationTermination, Option<Seq<char>>) {
    match t {
        AcpTermination::Completed => (DelegationTermination::Completed, None),
        AcpTermination::Cancelled => (DelegationTermination::Cancelled, None),
        AcpTermination::Disconnect => (DelegationTermination::AcpDisconnect, Some("acp_disconnect"@)),
        AcpTermination::EndpointError => (DelegationTermination::EndpointError, Some("acp_spawn_error"@)),
        AcpTermination::TurnCapExceeded => (DelegationTermination::TurnCapExceeded, None),
    }
}

pub fn acp_termination(t: AcpTermination) -> (r: (DelegationTermination, Option<String>))
    ensures
        (r.0, opt_string_view(r.1)) == acp_ending(t),
{
    match t {
        AcpTermination::Completed => (DelegationTermination::Completed, None),
        AcpTermination::Cancelled => (DelegationTermination::Cancelled, None),
        AcpTermination::Disconnect => (DelegationTermination::AcpDisconnect, Some(owned("acp_disconnect"))),
        AcpTermination::EndpointError => (DelegationTermination::EndpointError, Some(owned("acp_spawn_error"))),
        AcpTermination::TurnCapExceeded => (DelegationTermination::TurnCapExceeded, None),
    }
}

/// The number of transcript turns by the tool role.
pub open spec fn tool_turns(transcript: Seq<(String, String)>) -> nat
    decreases transcript.len(),
{
    if transcript.len() == 0 {
        0
    } else {
        tool_turns(transcript.drop_last()) + if transcript.last().0@ == "tool"@ {
            1nat
        } else {
            0nat
        }
    }
}

/// The tool calls of a transcript (role, content), as a `u32`.
pub fn tool_call_count(transcript: &Vec<(String, String)>) -> (r: u32)
    ensures
        r == tool_turns(transcript@) as u32,
{
    let mut n: usize = 0;
    let mut i: usize = 0;
    while i < transcript.len()
        invariant
            i <= transcript@.len(),
            n == tool_turns(transcript@.subrange(0, i as int)),
            n <= i,
        decreases transcript@.len() - i,
    {
        proof {
            assert(transcript@.subrange(0, i + 1).drop_last() =~= transcript@.subrange(0, i as int));
        }
        if str_eq(transcript[i].0.as_str(), "tool") {
            n += 1;
        }
        i += 1;
    }
    proof {
        assert(transcript@.subrange(0, transcript@.len() as int) =~= transcript@);
    }
    n as u32
}

/// The UTF-8 width of one character.
pub open spec fn char_width(c: char) -> int {
    vstd::utf8::encode_scalar(c as u32).len() as int
}

/// The characters of `s` whose encoding lies within its first `n` bytes.
pub open spec fn within_bytes(s: Seq<char>, n: int) -> Seq<char>
    decreases s.len(),
{
    if s.len() == 0 || char_width(s[0]) > n {
        Seq::empty()
    } else {
        seq![s[0]] + within_bytes(s.drop_first(), n - char_width(s[0]))
    }
}

/// The last assistant turn's content, if any.
pub open spec fn last_assistant(transcript: Seq<(String, String)>) -> Option<Seq<char>>
    decreases transcript.len(),
{
    if transcript.len() == 0 {
        None
    } else if transcript.last().0@ == "assistant"@ {
        Some(transcript.last().1@)
    } else {
        last_assistant(transcript.drop_last())
    }
}

/// The excerpt of a final answer: whole up to 200 bytes, else its first 200
/// bytes and `...`.
pub open spec fn excerpt_of(content: Seq<char>) -> Seq<char> {
    if byte_len(content) <= 200 {
        content
    } else {
        within_bytes(content, 200) + "..."@
    }
}

/// A content the excerpt can cut: short enough, or with a character
/// boundary at byte 200.
pub open spec fn cuttable(content: Seq<char>) -> bool {
    byte_len(content) <= 200 || byte_len(within_bytes(content, 200)) == 200
}

proof fn lemma_encode_utf8_push(s: Seq<char>, c: char)
    ensures
        vstd::utf8::encode_utf8(s.push(c)) == vstd::utf8::encode_utf8(s) + vstd::utf8::encode_scalar(c as u32),
    decreases s.len(),
{
    if s.len() == 0 {
        let e = Seq::<char>::empty();
        assert(s.push(c).drop_first() =~= e);
        assert(vstd::utf8::encode_utf8(e) == Seq::<u8>::empty());
        assert(vstd::utf8::encode_utf8(s) == Seq::<u8>::empty());
        assert(vstd::utf8::encode_utf8(s.push(c)) == vstd::utf8::encode_scalar(c as u32) + vstd::utf8::encode_utf8(e));
        assert(vstd::utf8::encode_utf8(s.push(c)) =~= vstd::utf8::encode_utf8(s) + vstd::utf8::encode_scalar(c as u32));
    } else {
        assert(s.push(c).drop_first() =~= s.drop_first().push(c));
        lemma_encode_utf8_push(s.drop_first(), c);
        assert(vstd::utf8::encode_utf8(s.push(c)) =~= vstd::utf8::encode_scalar(s[0] as u32) + (vstd::utf8::encode_utf8(
            s.drop_first(),
        ) + vstd::utf8::encode_scalar(c as u32)));
    }
}

fn char_width_exec(c: char) -> (r: usize)
    ensures
        r == char_width(c),
        1 <= r <= 4,
{
    let u = c as u32;
    proof {
        vstd::utf8::char_is_scalar(c);
    }
    if u <= 0x7F {
        1
    } else if u <= 0x7FF {
        2
    } else if u <= 0xFFFF {
        3
    } else {
        4
    }
}

/// The prefix of `s` within `n` bytes is the prefix up to `k` characters,
/// when the first `k` characters fit and the next does not.
proof fn lemma_within_bytes(s: Seq<char>, n: int, k: int)
    requires
        0 <= k <= s.len(),
        byte_len(s.take(k)) <= n,
        k == s.len() || byte_len(s.take(k)) + char_width(s[k]) > n,
    ensures
        within_bytes(s, n) == s.take(k),
    decreases k,
{
    if k == 0 {
        if s.len() > 0 {
            assert(byte_len(s.take(0)) == 0) by {
                assert(s.take(0) =~= Seq::<char>::empty());
            }
        }
        assert(s.take(0) =~= Seq::<char>::empty());
    } else {
        let t = s.drop_first();
        assert(s.take(k) =~= seq![s[0]] + t.take(k - 1));
        assert(vstd::utf8::encode_utf8(s.take(k)) == vstd::utf8::encode_scalar(s[0] as u32) + vstd::utf8::encode_utf8(
            t.take(k - 1),
        )) by {
            assert(s.take(k).drop_first() =~= t.take(k - 1));
        }
        if k < s.len() {
            assert(s[k] == t[k - 1]);
        }
        lemma_within_bytes(t, n - char_width(s[0]), k - 1);
    }
}

/// The excerpt of the final answer.
pub fn final_excerpt(content: &str) -> (r: String)
    requires
        cuttable(content@),
    ensures
        r@ == excerpt_of(content@),
{
    let total = content.as_bytes().len();
    if total <= 200 {
        return owned(content);
    }
    let n = content.unicode_len();
    let mut k: usize = 0;
    let mut used: usize = 0;
    proof {
        assert(content@.take(0) =~= Seq::<char>::empty());
    }
    while k < n && used + char_width_exec(content.get_char(k)) <= 200
        invariant
            n == content@.len(),
            k <= n,
            used == byte_len(content@.take(k as int)),
            used <= 200,
        decreases n - k,
    {
        let c = content.get_char(k);
        proof {
            assert(content@.take(k + 1) =~= content@.take(k as int).push(c));
            lemma_encode_utf8_push(content@.take(k as int), c);
        }
        used = used + char_width_exec(c);
        k += 1;
    }
    proof {
        lemma_within_bytes(content@, 200, k as int);
    }
    let head = content.substring_char(0, k);
    proof {
        assert(head@ =~= content@.take(k as int));
    }
    concat2(head, "...")
}

/// The excerpt of a transcript's last assistant turn; empty without one.
pub fn transcript_excerpt(transcript: &Vec<(String, String)>) -> (r: String)
    requires
        last_assistant(transcript@) matches Some(c) ==> cuttable(c),
    ensures
        r@ == (match last_assistant(transcript@) {
            Some(c) => excerpt_of(c),
            None => Seq::empty(),
        }),
{
    let mut i: usize = transcript.len();
    proof {
        assert(transcript@.subrange(0, transcript@.len() as int) =~= transcript@);
    }
    while i > 0
        invariant
            i <= transcript@.len(),
            last_assistant(transcript@) matches Some(c) ==> cuttable(c),
            last_assistant(transcript@) == last_assistant(transcript@.subrange(0, i as int)),
        decreases i,
    {
        proof {
            assert(transcript@.subrange(0, i as int).drop_last() =~= transcript@.subrange(0, i - 1));
        }
        if str_eq(transcript[i - 1].0.as_str(), "assistant") {
            return final_excerpt(transcript[i - 1].1.as_str());
        }
        i -= 1;
    }
    proof {
        assert(transcript@.subrange(0, transcript@.len() as int) =~= transcript@);
    }
    String::new()
}

// ---------------------------------------------------------------------------
// The ACP environment and continuation
// ---------------------------------------------------------------------------

/// `KEY=value` split at the first `=`; none without one.
pub open spec fn split_pair(entry: Seq<char>) -> Option<(Seq<char>, Seq<char>)> {
    if exists|i: int| 0 <= i < entry.len() && entry[i] == '=' {
        let i = choose|i: int| 0 <= i < entry.len() && entry[i] == '=' && forall|j: int| 0 <= j < i ==> entry[j] != '=';
        Some((entry.take(i), entry.skip(i + 1)))
    } else {
        None
    }
}

fn split_pair_exec(entry: &str) -> (r: Option<(String, String)>)
    ensures
        match r {
            Some(p) => split_pair(entry@) == Some((p.0@, p.1@)),
            None => split_pair(entry@) is None,
        },
{
    let n = entry.unicode_len();
    let mut i: usize = 0;
    while i < n
        invariant
            n == entry@.len(),
            i <= n,
            forall|j: int| 0 <= j < i ==> entry@[j] != '=',
        decreases n - i,
    {
        if entry.get_char(i) == '=' {
            let k = entry.substring_char(0, i);
            let v = entry.substring_char(i + 1, n);
            proof {
                let c = choose|c: int| 0 <= c < entry@.len() && entry@[c] == '=' && forall|j: int| 0 <= j < c ==> entry@[j] != '=';
                assert(0 <= i < entry@.len() && entry@[i as int] == '=' && forall|j: int| 0 <= j < i ==> entry@[j] != '=');
                if c < i {
                    assert(entry@[c] != '=');
                }
                if c > i {
                    assert(entry@[i as int] != '=');
                }
                assert(k@ =~= entry@.take(i as int));
                assert(v@ =~= entry@.skip(i + 1));
            }
            return Some((owned(k), owned(v)));
        }
        i += 1;
    }
    None
}

/// The environment an ACP agent is spawned with: the snapshot's `KEY=value`
/// entries, split at the first `=`, without malformed entries and without
/// the harvest configuration (`SEA_FORGE_SWE_SEED_*`).
pub open spec fn spawn_env(env: Seq<String>) -> Seq<(Seq<char>, Seq<char>)>
    decreases env.len(),
{
    if env.len() == 0 {
        Seq::empty()
    } else {
        let rest = spawn_env(env.drop_last());
        match split_pair(env.last()@) {
            Some(p) => if starts_with(p.0, "SEA_FORGE_SWE_SEED_"@) {
                rest
            } else {
                rest.push(p)
            },
            None => rest,
        }
    }
}

pub fn acp_spawn_env(env: &Vec<String>) -> (r: Vec<(String, String)>)
    ensures
        r@.map_values(|p: (String, String)| (p.0@, p.1@)) == spawn_env(env@),
{
    let mut out: Vec<(String, String)> = Vec::new();
    let mut i: usize = 0;
    while i < env.len()
        invariant
            i <= env@.len(),
            out@.map_values(|p: (String, String)| (p.0@, p.1@)) == spawn_env(env@.subrange(0, i as int)),
        decreases env@.len() - i,
    {
        proof {
            assert(env@.subrange(0, i + 1).drop_last() =~= env@.subrange(0, i as int));
        }
        let ghost before = out@.map_values(|p: (String, String)| (p.0@, p.1@));
        match split_pair_exec(env[i].as_str()) {
            Some(p) => {
                if !starts_with_exec(p.0.as_str(), "SEA_FORGE_SWE_SEED_") {
                    let ghost pv = (p.0@, p.1@);
                    out.push(p);
                    proof {
                        assert(out@.map_values(|p: (String, String)| (p.0@, p.1@)) =~= before.push(pv));
                    }
                }
            },
            None => {},
        }
        i += 1;
    }
    proof {
        assert(env@.subrange(0, env@.len() as int) =~= env@);
    }
    out
}

/// The value the snapshot's environment configures for `key`: that of the
/// first well-formed entry with this key.
pub open spec fn configured_value(env: Seq<String>, key: Seq<char>) -> Option<Seq<char>>
    decreases env.len(),
{
    if env.len() == 0 {
        None
    } else {
        match split_pair(env[0]@) {
            Some(p) => if p.0 == key {
                Some(p.1)
            } else {
                configured_value(env.drop_first(), key)
            },
            None => configured_value(env.drop_first(), key),
        }
    }
}

pub fn configured(env: &Vec<String>, key: &str) -> (r: Option<String>)
    ensures
        opt_string_view(r) == configured_value(env@, key@),
{
    let mut i: usize = 0;
    proof {
        assert(env@.skip(0) =~= env@);
    }
    while i < env.len()
        invariant
            i <= env@.len(),
            configured_value(env@, key@) == configured_value(env@.skip(i as int), key@),
        decreases env@.len() - i,
    {
        proof {
            assert(env@.skip(i as int).drop_first() =~= env@.skip(i + 1));
            assert(env@.skip(i as int)[0] == env@[i as int]);
        }
        match split_pair_exec(env[i].as_str()) {
            Some(p) => {
                if str_eq(p.0.as_str(), key) {
                    return Some(p.1);
                }
            },
            None => {},
        }
        i += 1;
    }
    None
}

/// The harvest configuration: a repository and the commit it must be at,
/// both or neither.
pub open spec fn swe_seed_of(env: Seq<String>) -> Result<Option<(Seq<char>, Seq<char>)>, Seq<char>> {
    match (configured_value(env, "SEA_FORGE_SWE_SEED_REPO"@), configured_value(env, "SEA_FORGE_SWE_SEED_COMMIT"@)) {
        (None, None) => Ok(None),
        (Some(r), Some(c)) => Ok(Some((r, c))),
        _ => Err("SWE_SEED repo and commit must be configured together"@),
    }
}

pub fn swe_seed_config(env: &Vec<String>) -> (r: Result<Option<(String, String)>, String>)
    ensures
        (match r {
            Ok(Some(p)) => Ok(Some((p.0@, p.1@))),
            Ok(None) => Ok(None),
            Err(e) => Err(e@),
        }) == swe_seed_of(env@),
{
    let repo = configured(env, "SEA_FORGE_SWE_SEED_REPO");
    let commit = configured(env, "SEA_FORGE_SWE_SEED_COMMIT");
    match (repo, commit) {
        (None, None) => Ok(None),
        (Some(r), Some(c)) => Ok(Some((r, c))),
        _ => Err(owned("SWE_SEED repo and commit must be configured together")),
    }
}

/// A settlement entry of `run` whose basis names an ACP disconnect.
pub open spec fn disconnect_settles(e: crate::recovery::LedgerEntry, run: Seq<char>) -> bool {
    &&& e.record_kind@ == "settlement"@
    &&& crate::json::jstr(crate::json::jget(e.payload@, "run_id"@)) == Some(run)
    &&& match crate::json::jget(e.payload@, "basis"@) {
        Some(JsonView::Array(xs)) => xs.contains(JsonView::Str("acp_disconnect"@)),
        _ => false,
    }
}

/// An ACP session record of this item and endpoint whose run was settled
/// by a disconnect.
pub open spec fn resumable(entries: Seq<crate::recovery::LedgerEntry>, e: crate::recovery::LedgerEntry, item: Seq<char>, endpoint: Seq<char>) -> bool {
    &&& e.record_kind@ == "acp_session"@
    &&& crate::json::jstr(crate::json::jget(e.payload@, "plan_item_id"@)) == Some(item)
    &&& crate::json::jstr(crate::json::jget(e.payload@, "endpoint_ref"@)) == Some(endpoint)
    &&& match crate::json::jstr(crate::json::jget(e.payload@, "run_id"@)) {
        Some(r) => exists|i: int| 0 <= i < entries.len() && disconnect_settles(#[trigger] entries[i], r),
        None => false,
    }
}

/// Of the first `n` entries, the latest resumable session's continuation key.
pub open spec fn latest_resumable(entries: Seq<crate::recovery::LedgerEntry>, n: int, item: Seq<char>, endpoint: Seq<char>) -> Option<Option<Seq<char>>>
    decreases n,
{
    if n <= 0 {
        None
    } else if resumable(entries, entries[n - 1], item, endpoint) {
        Some(crate::json::jstr(crate::json::jget(entries[n - 1].payload@, "continuation_key"@)))
    } else {
        latest_resumable(entries, n - 1, item, endpoint)
    }
}

fn basis_names_disconnect(payload: &crate::json::Json) -> (r: bool)
    ensures
        r == (match crate::json::jget(payload@, "basis"@) {
            Some(JsonView::Array(xs)) => xs.contains(JsonView::Str("acp_disconnect"@)),
            _ => false,
        }),
{
    match crate::json::get(payload, "basis") {
        Some(crate::json::Json::Array(items)) => {
            proof {
                crate::json::lemma_items_view(items@, items@.len() as int);
            }
            let ghost xs = crate::json::items_view(items@, items@.len() as int);
            let mut i: usize = 0;
            while i < items.len()
                invariant
                    i <= items@.len(),
                    crate::json::jget(payload@, "basis"@) == Some(JsonView::Array(xs)),
                    xs == crate::json::items_view(items@, items@.len() as int),
                    xs.len() == items@.len(),
                    forall|k: int| 0 <= k < items@.len() ==> #[trigger] xs[k] == items@[k]@,
                    forall|k: int| 0 <= k < i ==> xs[k] != JsonView::Str("acp_disconnect"@),
                decreases items@.len() - i,
            {
                match &items[i] {
                    crate::json::Json::Str(s) => {
                        if str_eq(s.as_str(), "acp_disconnect") {
                            proof {
                                assert(xs[i as int] == JsonView::Str("acp_disconnect"@));
                            }
                            return true;
                        }
                    },
                    _ => {},
                }
                i += 1;
            }
            false
        },
        _ => false,
    }
}

fn any_disconnect(entries: &Vec<crate::recovery::LedgerEntry>, run: &str) -> (r: bool)
    ensures
        r == exists|i: int| 0 <= i < entries@.len() && disconnect_settles(#[trigger] entries@[i], run@),
{
    let mut i: usize = 0;
    while i < entries.len()
        invariant
            i <= entries@.len(),
            forall|k: int| 0 <= k < i ==> !disconnect_settles(#[trigger] entries@[k], run@),
        decreases entries@.len() - i,
    {
        let e = &entries[i];
        let same_run = match crate::json::get_str(&e.payload, "run_id") {
            Some(r) => str_eq(r, run),
            None => false,
        };
        if str_eq(e.record_kind.as_str(), "settlement") && same_run && basis_names_disconnect(&e.payload) {
            return true;
        }
        i += 1;
    }
    false
}

/// The continuation key of the latest ACP session of this item and endpoint
/// whose run ended in a disconnect: a successor episode resumes it.
pub fn latest_disconnected_continuation(entries: &Vec<crate::recovery::LedgerEntry>, item: &str, endpoint: &str) -> (r: Option<String>)
    ensures
        opt_string_view(r) == (match latest_resumable(entries@, entries@.len() as int, item@, endpoint@) {
            Some(k) => k,
            None => None,
        }),
{
    let mut n: usize = entries.len();
    while n > 0
        invariant
            n <= entries@.len(),
            latest_resumable(entries@, entries@.len() as int, item@, endpoint@) == latest_resumable(
                entries@,
                n as int,
                item@,
                endpoint@,
            ),
        decreases n,
    {
        let e = &entries[n - 1];
        let matches_item = match crate::json::get_str(&e.payload, "plan_item_id") {
            Some(x) => str_eq(x, item),
            None => false,
        };
        let matches_endpoint = match crate::json::get_str(&e.payload, "endpoint_ref") {
            Some(x) => str_eq(x, endpoint),
            None => false,
        };
        if str_eq(e.record_kind.as_str(), "acp_session") && matches_item && matches_endpoint {
            match crate::json::get_str(&e.payload, "run_id") {
                Some(run) => {
                    if any_disconnect(entries, run) {
                        return match crate::json::get_str(&e.payload, "continuation_key") {
                            Some(k) => Some(owned(k)),
                            None => None,
                        };
                    }
                },
                None => {},
            }
        }
        n -= 1;
    }
    None
}

// ---------------------------------------------------------------------------
// The permission mediator's decisions
// ---------------------------------------------------------------------------

/// An authority verdict.
#[derive(Clone, Copy, Debug, PartialEq, Eq, Structural)]
pub enum Verdict {
    Allow,
    Deny,
    Escalate,
}

/// The verdict a permission record carries: the authority's verdict for a
/// known tool kind, `deny_unmapped` for any other.
pub open spec fn permission_verdict_of(mapped: bool, v: Verdict) -> Seq<char> {
    if !mapped {
        "deny_unmapped"@
    } else {
        match v {
            Verdict::Allow => "allow"@,
            Verdict::Deny => "deny"@,
            Verdict::Escalate => "escalate"@,
        }
    }
}

pub fn permission_verdict_word(mapped: bool, v: Verdict) -> (r: &'static str)
    ensures
        r@ == permission_verdict_of(mapped, v),
{
    if !mapped {
        "deny_unmapped"
    } else {
        match v {
            Verdict::Allow => "allow",
            Verdict::Deny => "deny",
            Verdict::Escalate => "escalate",
        }
    }
}

/// What the mediator answers the agent.
pub enum PermissionDecision {
    /// Select this option.
    Allow { option_id: String },
    /// Reject this once.
    DenyOnce,
}

/// The first offered option (id, kind) whose kind begins with `allow`.
pub open spec fn first_allow(options: Seq<(String, String)>) -> Option<Seq<char>>
    decreases options.len(),
{
    if options.len() == 0 {
        None
    } else if starts_with(options[0].1@, "allow"@) {
        Some(options[0].0@)
    } else {
        first_allow(options.drop_first())
    }
}

/// The mediator's answer: only a known tool kind can be allowed; an allowed
/// verdict, or an escalation whose approval was granted, selects the first
/// `allow` option (denying if none is offered); anything else is denied.
pub open spec fn permission_answer(mapped: bool, v: Verdict, approval_granted: bool, options: Seq<(String, String)>) -> Option<Seq<char>> {
    if mapped && (v == Verdict::Allow || (v == Verdict::Escalate && approval_granted)) {
        first_allow(options)
    } else {
        None
    }
}

pub fn permission_decision(mapped: bool, v: Verdict, approval_granted: bool, options: &Vec<(String, String)>) -> (r: PermissionDecision)
    ensures
        match r {
            PermissionDecision::Allow { option_id } => permission_answer(mapped, v, approval_granted, options@) == Some(option_id@),
            PermissionDecision::DenyOnce => permission_answer(mapped, v, approval_granted, options@) is None,
        },
{
    let may_allow = match v {
        Verdict::Allow => true,
        Verdict::Escalate => approval_granted,
        Verdict::Deny => false,
    };
    if !mapped || !may_allow {
        return PermissionDecision::DenyOnce;
    }
    let mut i: usize = 0;
    proof {
        assert(options@.skip(0) =~= options@);
    }
    while i < options.len()
        invariant
            i <= options@.len(),
            permission_answer(mapped, v, approval_granted, options@) == first_allow(options@),
            first_allow(options@) == first_allow(options@.skip(i as int)),
        decreases options@.len() - i,
    {
        proof {
            assert(options@.skip(i as int).drop_first() =~= options@.skip(i + 1));
            assert(options@.skip(i as int)[0] == options@[i as int]);
        }
        if starts_with_exec(options[i].1.as_str(), "allow") {
            return PermissionDecision::Allow { option_id: options[i].0.clone() };
        }
        i += 1;
    }
    PermissionDecision::DenyOnce
}

/// The number of approval requests a case ledger already holds.
pub open spec fn approval_requests(entries: Seq<crate::recovery::LedgerEntry>) -> nat
    decreases entries.len(),
{
    if entries.len() == 0 {
        0
    } else {
        approval_requests(entries.drop_last()) + if entries.last().record_kind@ == "approval_request"@ {
            1nat
        } else {
            0nat
        }
    }
}

pub fn count_approval_requests(entries: &Vec<crate::recovery::LedgerEntry>) -> (r: usize)
    ensures
        r == approval_requests(entries@),
{
    let mut n: usize = 0;
    let mut i: usize = 0;
    while i < entries.len()
        invariant
            i <= entries@.len(),
            n == approval_requests(entries@.subrange(0, i as int)),
            n <= i,
        decreases entries@.len() - i,
    {
        proof {
            assert(entries@.subrange(0, i + 1).drop_last() =~= entries@.subrange(0, i as int));
        }
        if str_eq(entries[i].record_kind.as_str(), "approval_request") {
            n += 1;
        }
        i += 1;
    }
    proof {
        assert(entries@.subrange(0, entries@.len() as int) =~= entries@);
    }
    n
}

/// The identity allocated for one delegation episode.
pub struct DelegationEpisodeContext<'a> {
    pub case_id: &'a str,
    pub item_id: &'a str,
    pub run_id: &'a str,
}

impl<'a> DelegationEpisodeContext<'a> {
    /// A delegation of its own: the item is `item_agent_task`.
    pub fn standalone(case_id: &'a str, run_id: &'a str) -> (r: Self)
        ensures
            r.case_id == case_id,
            r.item_id@ == "item_agent_task"@,
            r.run_id == run_id,
    {
        DelegationEpisodeContext { case_id, item_id: "item_agent_task", run_id }
    }

    /// A delegation a case plan's item runs.
    pub fn planned(case_id: &'a str, item_id: &'a str, run_id: &'a str) -> (r: Self)
        ensures
            r.case_id == case_id,
            r.item_id == item_id,
            r.run_id == run_id,
    {
        DelegationEpisodeContext { case_id, item_id, run_id }
    }
}

// ---------------------------------------------------------------------------
// Laws
// ---------------------------------------------------------------------------

/// The preview and the command agree on what is runnable: against an
/// endpoint that snapshots, the command admits a request exactly when no
/// request rule is unmet, and then runs the model the rules resolve.
pub proof fn law_preview_agrees_with_admission(
    endpoint_id: Seq<char>,
    s: EndpointSnapshot,
    instruction: Seq<char>,
    model: Option<Seq<char>>,
    max_turns: u32,
)
    ensures
        (admission(endpoint_id, Some(Ok(s)), instruction, model, max_turns) is Ok) <==> unmet_rules(
            s,
            instruction,
            model,
            max_turns,
        ).len() == 0,
        admission(endpoint_id, Some(Ok(s)), instruction, model, max_turns) is Ok ==> admission(
            endpoint_id,
            Some(Ok(s)),
            instruction,
            model,
            max_turns,
        ) == Ok::<Seq<char>, RefusalView>(resolved_model(model, s)),
{
}

/// Only a completed dialogue is ever accepted; every other ending rejects.
pub proof fn law_only_completed_dialogues_accept(t: DelegationTermination, output_found: Option<bool>)
    ensures
        settlement_of(t, output_found).0 == SettlementStatus::Accepted <==> (t == DelegationTermination::Completed
            && output_found != Some(false)),
{
}

/// An unknown tool kind, or a denied request, is never allowed; an escalated
/// one only once its approval is granted.
pub proof fn law_permissions_need_a_known_kind_and_a_grant(
    mapped: bool,
    v: Verdict,
    approval_granted: bool,
    options: Seq<(String, String)>,
)
    ensures
        !mapped ==> permission_answer(mapped, v, approval_granted, options) is None,
        v == Verdict::Deny ==> permission_answer(mapped, v, approval_granted, options) is None,
        (v == Verdict::Escalate && !approval_granted) ==> permission_answer(mapped, v, approval_granted, options) is None,
{
}

} // verus!
