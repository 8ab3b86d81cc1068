//! The canonical v1 envelope family shared by the governed gates: producer
//! vocabulary, model-identity rules, correlation strings and causal lineage.
use vstd::prelude::*;
use sha2::Digest;
use crate::json::{Json, JsonView, get, get_str, get_opt, as_str, jget, jget_opt, jstr, opt_str_view};
use crate::text::{
    owned, push_char, str_eq, trim, trim_exec, to_ascii_lowercase, to_ascii_lowercase_exec,
    starts_with, strip_prefix_exec,
};
use vstd::string::StrSliceExecFns;

verus! {

/// Wire schema version of the canonical envelope family.
pub const SCHEMA_VERSION: &'static str = "v1";

/// Canonical namespace of the capability loop.
pub const NAMESPACE: &'static str = "agentic_capability_loop";

// ---------------------------------------------------------------------------
// Digests
// ---------------------------------------------------------------------------

/// Lower-case hex of the SHA-256 digest of `bytes`.
pub uninterp spec fn sha256_hex_of(bytes: Seq<u8>) -> Seq<char>;

/// Lower-case hex of the SHA-256 digest of the UTF-8 bytes of `text`.
pub open spec fn sha256_hex_of_text(text: Seq<char>) -> Seq<char> {
    sha256_hex_of(vstd::utf8::encode_utf8(text))
}

pub open spec fn is_lower_hex(c: char) -> bool {
    (48 <= (c as u32) <= 57) || (97 <= (c as u32) <= 102)
}

/// `sha2::Sha256::digest` of `bytes`, written with `{:x}`: the result is the
/// name applied to the bytes, and it is 64 lower-case hex digits (a 32-byte
/// digest).
#[verifier::external_body]
pub(crate) fn sha256_hex_bytes(bytes: &[u8]) -> (r: String)
    ensures
        r@ == sha256_hex_of(bytes@),
        r@.len() == 64,
        forall|i: int| 0 <= i < 64 ==> is_lower_hex(#[trigger] r@[i]),
{
    format!("{:x}", sha2::Sha256::digest(bytes))
}

/// The SHA-256 digest of the UTF-8 bytes of `text`, in lower-case hex.
pub fn sha256_hex(text: &str) -> (r: String)
    ensures
        r@ == sha256_hex_of_text(text@),
        r@.len() == 64,
        forall|i: int| 0 <= i < 64 ==> is_lower_hex(#[trigger] r@[i]),
{
    sha256_hex_bytes(text.as_bytes())
}

// ---------------------------------------------------------------------------
// Producer vocabulary
// ---------------------------------------------------------------------------

/// The canonical component id of a wire `source_agent` stamp; hyphenated
/// legacy stamps alias their underscored ids, anything else has none.
pub open spec fn canonical_agent_of(s: Seq<char>) -> Option<Seq<char>> {
    if s == "swe-seed"@ || s == "swe_seed"@ {
        Some("swe_seed"@)
    } else if s == "context-kernel"@ || s == "context_kernel"@ {
        Some("context_kernel"@)
    } else if s == "sea-forge"@ || s == "sea_forge"@ {
        Some("sea_forge"@)
    } else if s == "godspeed-agent"@ || s == "godspeed_agent"@ || s == "gsa"@ {
        Some("godspeed_agent"@)
    } else if s == "realitytrace"@ || s == "reality-trace"@ || s == "sxr"@ {
        Some("realitytrace"@)
    } else if s == "memory-ledger"@ || s == "memory_ledger"@ || s == "agent_memory_ledger"@ {
        Some("memory_ledger"@)
    } else if s == "execution-environment"@ || s == "execution_environment"@ {
        Some("execution_environment"@)
    } else if s == "external-environment"@ || s == "external_environment"@ {
        Some("external_environment"@)
    } else {
        None
    }
}

pub open spec fn opt_static_view(r: Option<&'static str>) -> Option<Seq<char>> {
    match r {
        Some(x) => Some(x@),
        None => None,
    }
}

/// Map a wire `source_agent` onto its canonical component id.
pub fn canonical_agent(source_agent: &str) -> (r: Option<&'static str>)
    ensures
        opt_static_view(r) == canonical_agent_of(source_agent@),
{
    if str_eq(source_agent, "swe-seed") || str_eq(source_agent, "swe_seed") {
        Some("swe_seed")
    } else if str_eq(source_agent, "context-kernel") || str_eq(source_agent, "context_kernel") {
        Some("context_kernel")
    } else if str_eq(source_agent, "sea-forge") || str_eq(source_agent, "sea_forge") {
        Some("sea_forge")
    } else if str_eq(source_agent, "godspeed-agent") || str_eq(source_agent, "godspeed_agent")
        || str_eq(source_agent, "gsa") {
        Some("godspeed_agent")
    } else if str_eq(source_agent, "realitytrace") || str_eq(source_agent, "reality-trace")
        || str_eq(source_agent, "sxr") {
        Some("realitytrace")
    } else if str_eq(source_agent, "memory-ledger") || str_eq(source_agent, "memory_ledger")
        || str_eq(source_agent, "agent_memory_ledger") {
        Some("memory_ledger")
    } else if str_eq(source_agent, "execution-environment") || str_eq(
        source_agent,
        "execution_environment",
    ) {
        Some("execution_environment")
    } else if str_eq(source_agent, "external-environment") || str_eq(
        source_agent,
        "external_environment",
    ) {
        Some("external_environment")
    } else {
        None
    }
}

// ---------------------------------------------------------------------------
// Model identity
// ---------------------------------------------------------------------------

/// Exactly 64 lower-case hex digits.
pub open spec fn is_sha256_hex_text(s: Seq<char>) -> bool {
    s.len() == 64 && forall|i: int| 0 <= i < 64 ==> is_lower_hex(#[trigger] s[i])
}

pub fn is_sha256_hex(s: &str) -> (r: bool)
    ensures
        r == is_sha256_hex_text(s@),
{
    let n = s.unicode_len();
    if n != 64 {
        return false;
    }
    let mut i: usize = 0;
    while i < n
        invariant
            n == s@.len(),
            n == 64,
            i <= n,
            forall|j: int| 0 <= j < i ==> is_lower_hex(#[trigger] s@[j]),
        decreases n - i,
    {
        let u = s.get_char(i) as u32;
        if !((48 <= u && u <= 57) || (97 <= u && u <= 102)) {
            return false;
        }
        i += 1;
    }
    true
}

/// The standalone-fallback pseudo-hash: `sha256("agentic_capability_loop")`.
pub open spec fn fallback_hash() -> Seq<char> {
    sha256_hex_of_text(NAMESPACE@)
}

/// The all-zero digest.
pub open spec fn zero_digest() -> Seq<char> {
    Seq::new(64, |i: int| '0')
}

pub(crate) fn fallback_pseudo_hash() -> (r: String)
    ensures
        r@ == fallback_hash(),
{
    sha256_hex(NAMESPACE)
}

fn zero_digest_exec() -> (r: String)
    ensures
        r@ == zero_digest(),
{
    let mut s = String::new();
    let mut i: usize = 0;
    while i < 64
        invariant
            i <= 64,
            s@ == Seq::new(i as nat, |j: int| '0'),
        decreases 64 - i,
    {
        push_char(&mut s, '0');
        proof {
            assert(s@ =~= Seq::new((i + 1) as nat, |j: int| '0'));
        }
        i += 1;
    }
    s
}

/// A declared model hash that cannot stand as a domain identity: malformed,
/// the fallback pseudo-hash, or the all-zero digest.
pub open spec fn is_pseudo_identity(declared: Seq<char>) -> bool {
    !is_sha256_hex_text(declared) || declared == fallback_hash() || declared == zero_digest()
}

/// Structural validity plus refusal of the known pseudo-identities.
pub fn verify_model_identity(declared: &str) -> (r: Result<(), String>)
    ensures
        r is Ok <==> !is_pseudo_identity(declared@),
        r matches Err(got) ==> got@ == declared@,
{
    let fallback = fallback_pseudo_hash();
    let zeros = zero_digest_exec();
    if !is_sha256_hex(declared) || str_eq(fallback.as_str(), declared) || str_eq(
        zeros.as_str(),
        declared,
    ) {
        return Err(owned(declared));
    }
    Ok(())
}

// ---------------------------------------------------------------------------
// Correlation strings
// ---------------------------------------------------------------------------

/// Non-empty after trimming.
pub open spec fn meaningful_text(s: Option<Seq<char>>) -> Option<Seq<char>> {
    match s {
        Some(x) => if trim(x).len() > 0 {
            Some(trim(x))
        } else {
            None
        },
        None => None,
    }
}

pub open spec fn opt_string_view(r: Option<String>) -> Option<Seq<char>> {
    match r {
        Some(x) => Some(x@),
        None => None,
    }
}

/// The trimmed string when it is not empty.
pub fn meaningful(s: Option<&str>) -> (r: Option<String>)
    ensures
        opt_string_view(r) == meaningful_text(opt_str_view(s)),
{
    match s {
        Some(x) => {
            let t = trim_exec(x);
            if t.as_str().unicode_len() > 0 {
                Some(t)
            } else {
                None
            }
        },
        None => None,
    }
}

/// Literal placeholder identities that never settle a binding.
pub open spec fn is_placeholder_id(lower: Seq<char>) -> bool {
    lower == "placeholder"@ || lower == "unknown"@ || lower == "none"@ || lower == "<missing>"@
        || lower == "tbd"@
}

/// The trimmed identity, or the field's name when it is blank or a
/// placeholder (compared ASCII-case-insensitively).
pub open spec fn identity_check(field: Seq<char>, value: Seq<char>) -> Result<Seq<char>, Seq<char>> {
    if trim(value).len() == 0 || is_placeholder_id(to_ascii_lowercase(trim(value))) {
        Err(field)
    } else {
        Ok(trim(value))
    }
}

pub open spec fn result_string_view(r: Result<String, String>) -> Result<Seq<char>, Seq<char>> {
    match r {
        Ok(x) => Ok(x@),
        Err(x) => Err(x@),
    }
}

pub fn check_identity_string(field: &'static str, value: &str) -> (r: Result<String, String>)
    ensures
        result_string_view(r) == identity_check(field@, value@),
{
    let trimmed = trim_exec(value);
    let lower = to_ascii_lowercase_exec(trimmed.as_str());
    let l = lower.as_str();
    if trimmed.as_str().unicode_len() == 0 || str_eq(l, "placeholder") || str_eq(l, "unknown")
        || str_eq(l, "none") || str_eq(l, "<missing>") || str_eq(l, "tbd") {
        return Err(owned(field));
    }
    Ok(trimmed)
}

// ---------------------------------------------------------------------------
// Causal lineage
// ---------------------------------------------------------------------------

/// The `caused_by:` entries of a provenance chain, prefix stripped, in order.
pub open spec fn caused_by_entries(chain: Seq<JsonView>) -> Seq<Seq<char>>
    decreases chain.len(),
{
    if chain.len() == 0 {
        Seq::empty()
    } else {
        let rest = caused_by_entries(chain.drop_last());
        match chain.last() {
            JsonView::Str(s) => if starts_with(s, "caused_by:"@) {
                rest.push(s.subrange("caused_by:"@.len() as int, s.len() as int))
            } else {
                rest
            },
            _ => rest,
        }
    }
}

/// The causal parents an envelope records in `provenance.chain`.
pub open spec fn causal_parents_of(env: JsonView) -> Seq<Seq<char>> {
    match jget_opt(jget(env, "provenance"@), "chain"@) {
        Some(JsonView::Array(chain)) => caused_by_entries(chain),
        _ => Seq::empty(),
    }
}

pub open spec fn strings_view(v: Seq<String>) -> Seq<Seq<char>> {
    v.map_values(|s: String| s@)
}

/// A copy of a list of strings.
pub fn clone_strings(v: &Vec<String>) -> (r: Vec<String>)
    ensures
        strings_view(r@) == strings_view(v@),
{
    let mut out: Vec<String> = Vec::new();
    let mut i: usize = 0;
    while i < v.len()
        invariant
            i <= v@.len(),
            out@.len() == i,
            forall|j: int| 0 <= j < i ==> (#[trigger] out@[j])@ == v@[j]@,
        decreases v@.len() - i,
    {
        out.push(v[i].clone());
        i += 1;
    }
    proof {
        assert(strings_view(out@) =~= strings_view(v@));
    }
    out
}

pub fn causal_parents(envelope: &Json) -> (r: Vec<String>)
    ensures
        strings_view(r@) == causal_parents_of(envelope@),
{
    let mut out: Vec<String> = Vec::new();
    let chain = get_opt(get(envelope, "provenance"), "chain");
    match chain {
        Some(Json::Array(items)) => {
            proof {
                crate::json::lemma_array_view(*items);
            }
            let ghost iv = match chain.unwrap()@ {
                JsonView::Array(v) => v,
                _ => Seq::empty(),
            };
            let mut i: usize = 0;
            while i < items.len()
                invariant
                    iv.len() == items@.len(),
                    forall|j: int| 0 <= j < iv.len() ==> #[trigger] iv[j] == items@[j]@,
                    i <= items@.len(),
                    strings_view(out@) == caused_by_entries(iv.subrange(0, i as int)),
                decreases items@.len() - i,
            {
                let ghost before = out@;
                proof {
                    assert(iv.subrange(0, i + 1).drop_last() =~= iv.subrange(0, i as int));
                    assert(iv.subrange(0, i + 1).last() == items@[i as int]@);
                }
                match &items[i] {
                    Json::Str(s) => {
                        match strip_prefix_exec(s.as_str(), "caused_by:") {
                            Some(rest) => {
                                out.push(rest);
                                proof {
                                    assert(strings_view(out@) =~= strings_view(before).push(
                                        out@.last()@,
                                    ));
                                }
                            },
                            None => {},
                        }
                    },
                    _ => {},
                }
                i += 1;
            }
            proof {
                assert(iv.subrange(0, items@.len() as int) =~= iv);
            }
        },
        _ => {},
    }
    out
}

/// Whether `parents` holds `id`.
pub fn contains_string(parents: &Vec<String>, id: &str) -> (r: bool)
    ensures
        r == strings_view(parents@).contains(id@),
{
    let mut i: usize = 0;
    while i < parents.len()
        invariant
            i <= parents@.len(),
            forall|j: int| 0 <= j < i ==> parents@[j]@ != id@,
        decreases parents@.len() - i,
    {
        if str_eq(parents[i].as_str(), id) {
            proof {
                assert(strings_view(parents@)[i as int] == id@);
            }
            return true;
        }
        i += 1;
    }
    proof {
        if strings_view(parents@).contains(id@) {
            let k = choose|k: int| 0 <= k < strings_view(parents@).len() && strings_view(parents@)[k] == id@;
            assert(parents@[k]@ == id@);
        }
    }
    false
}

// ---------------------------------------------------------------------------
// Producer authority
// ---------------------------------------------------------------------------

/// Why an envelope fails the producer gate.
pub enum ProducerFaultView {
    Malformed(Seq<char>),
    WrongEventType { expected: Seq<char>, got: Seq<char> },
    UnknownAgent { got: Seq<char> },
    NotAuthoritative { authoritative: Seq<char>, got: Seq<char> },
}

/// The producer gate: schema `v1`, the expected event type, and a stamp whose
/// canonical component is the event's exclusive producer.
pub open spec fn producer_fault(env: JsonView, expected: Seq<char>, authoritative: Seq<char>) -> Option<ProducerFaultView> {
    if jstr(jget(env, "schema_version"@)) != Some(SCHEMA_VERSION@) {
        Some(ProducerFaultView::Malformed("schema_version must be \"v1\""@))
    } else if jstr(jget(env, "event_type"@)) is None {
        Some(ProducerFaultView::Malformed("event_type missing"@))
    } else if jstr(jget(env, "event_type"@)) != Some(expected) {
        Some(ProducerFaultView::WrongEventType { expected, got: jstr(jget(env, "event_type"@))->0 })
    } else {
        match jstr(jget(env, "source_agent"@)) {
            None => Some(ProducerFaultView::UnknownAgent { got: "<missing>"@ }),
            Some(stamp) => match canonical_agent_of(stamp) {
                None => Some(ProducerFaultView::UnknownAgent { got: stamp }),
                Some(c) => if c == authoritative {
                    None
                } else {
                    Some(ProducerFaultView::NotAuthoritative { authoritative, got: stamp })
                },
            },
        }
    }
}

pub enum ProducerFault {
    Malformed(String),
    WrongEventType { expected: &'static str, got: String },
    UnknownAgent { got: String },
    NotAuthoritative { authoritative: &'static str, got: String },
}

impl View for ProducerFault {
    type V = ProducerFaultView;

    open spec fn view(&self) -> ProducerFaultView {
        match self {
            ProducerFault::Malformed(m) => ProducerFaultView::Malformed(m@),
            ProducerFault::WrongEventType { expected, got } => ProducerFaultView::WrongEventType {
                expected: expected@,
                got: got@,
            },
            ProducerFault::UnknownAgent { got } => ProducerFaultView::UnknownAgent { got: got@ },
            ProducerFault::NotAuthoritative { authoritative, got } =>
                ProducerFaultView::NotAuthoritative { authoritative: authoritative@, got: got@ },
        }
    }
}

pub open spec fn producer_result_view(r: Result<(), ProducerFault>) -> Option<ProducerFaultView> {
    match r {
        Ok(()) => None,
        Err(f) => Some(f@),
    }
}

/// The producer gate over a decoded envelope.
pub fn check_producer_fault(
    envelope: &Json,
    expected_event: &'static str,
    authoritative: &'static str,
) -> (r: Result<(), ProducerFault>)
    ensures
        producer_result_view(r) == producer_fault(envelope@, expected_event@, authoritative@),
{
    let sv = get_str(envelope, "schema_version");
    let schema_ok = match sv {
        Some(x) => str_eq(x, SCHEMA_VERSION),
        None => false,
    };
    if !schema_ok {
        return Err(ProducerFault::Malformed(owned("schema_version must be \"v1\"")));
    }
    match get_str(envelope, "event_type") {
        Some(got) => {
            if !str_eq(got, expected_event) {
                return Err(ProducerFault::WrongEventType { expected: expected_event, got: owned(got) });
            }
        },
        None => {
            return Err(ProducerFault::Malformed(owned("event_type missing")));
        },
    }
    match get_str(envelope, "source_agent") {
        None => Err(ProducerFault::UnknownAgent { got: owned("<missing>") }),
        Some(stamp) => match canonical_agent(stamp) {
            None => Err(ProducerFault::UnknownAgent { got: owned(stamp) }),
            Some(c) => if str_eq(c, authoritative) {
                Ok(())
            } else {
                Err(ProducerFault::NotAuthoritative { authoritative, got: owned(stamp) })
            },
        },
    }
}

/// The declared `payload.domain_model_hash` of an envelope.
pub open spec fn declared_model_hash(env: JsonView) -> Option<Seq<char>> {
    jstr(jget_opt(jget(env, "payload"@), "domain_model_hash"@))
}

pub fn get_declared_model_hash(envelope: &Json) -> (r: Option<&str>)
    ensures
        opt_str_view(r) == declared_model_hash(envelope@),
{
    as_str(get_opt(get(envelope, "payload"), "domain_model_hash"))
}

} // verus!
