//! The SFWP protocol surface: version negotiation and the method catalog.
use vstd::prelude::*;

pub mod correlation;
pub mod case_views;
pub mod run_views;
pub mod delegations;
pub mod assets;
pub mod readiness;
pub mod precondition;
pub mod approvals;
pub mod case;
pub mod events;
pub mod thoth;
pub mod delegation_preview;
use vstd::string::StringExecFns;
use crate::text::{before_first, concat3, owned, str_eq};

verus! {

/// The SFWP protocol major version this server speaks.
pub const SFWP_PROTOCOL_VERSION: &'static str = "1";

/// Interaction class of an SFWP method.
#[derive(Clone, Copy, Debug, PartialEq, Eq, Structural)]
pub enum InteractionClass {
    Inspect,
    Command,
    Subscribe,
}

pub open spec fn class_word(c: InteractionClass) -> Seq<char> {
    match c {
        InteractionClass::Inspect => "inspect"@,
        InteractionClass::Command => "command"@,
        InteractionClass::Subscribe => "subscribe"@,
    }
}

impl InteractionClass {
    /// The wire word of this class.
    pub fn as_str(self) -> (r: &'static str)
        ensures
            r@ == class_word(self),
    {
        match self {
            InteractionClass::Inspect => "inspect",
            InteractionClass::Command => "command",
            InteractionClass::Subscribe => "subscribe",
        }
    }
}

/// A method in the SFWP catalog.
#[derive(Clone, Copy, Debug)]
pub struct MethodDescriptor {
    pub method: &'static str,
    pub class: InteractionClass,
}

/// The implemented methods, in catalog order, with their classes.
pub open spec fn implemented_methods() -> Seq<(Seq<char>, InteractionClass)> {
    seq![
        ("system.hello"@, InteractionClass::Inspect),
        ("system.describe"@, InteractionClass::Inspect),
        ("system.get_schema"@, InteractionClass::Inspect),
        ("request.get_status"@, InteractionClass::Inspect),
        ("events.subscribe"@, InteractionClass::Subscribe),
        ("events.unsubscribe"@, InteractionClass::Command),
        ("events.get_range"@, InteractionClass::Inspect),
        ("readiness.get"@, InteractionClass::Inspect),
        ("identity.get"@, InteractionClass::Inspect),
        ("thoth.ask"@, InteractionClass::Command),
        ("case.entry_options"@, InteractionClass::Inspect),
        ("case.preflight"@, InteractionClass::Inspect),
        ("case.commit"@, InteractionClass::Command),
        ("case.list"@, InteractionClass::Inspect),
        ("case.get_overview"@, InteractionClass::Inspect),
        ("case.get_horizon"@, InteractionClass::Inspect),
        ("approval.list"@, InteractionClass::Inspect),
        ("approval.decide"@, InteractionClass::Command),
        ("run.list"@, InteractionClass::Inspect),
        ("run.get"@, InteractionClass::Inspect),
        ("asset.list"@, InteractionClass::Inspect),
        ("delegation.preview"@, InteractionClass::Inspect),
        ("delegation.list"@, InteractionClass::Inspect)
    ]
}

/// The method catalog: the single source of `system.hello`'s method list and
/// `system.describe`'s class table.
pub fn implemented_method_table() -> (v: Vec<MethodDescriptor>)
    ensures
        v@.len() == implemented_methods().len(),
        forall|i: int| 0 <= i < v@.len() ==> (#[trigger] v@[i]).method@ == implemented_methods()[i].0 && v@[i].class == implemented_methods()[i].1,
{
    let mut v: Vec<MethodDescriptor> = Vec::new();
    v.push(MethodDescriptor { method: "system.hello", class: InteractionClass::Inspect });
    v.push(MethodDescriptor { method: "system.describe", class: InteractionClass::Inspect });
    v.push(MethodDescriptor { method: "system.get_schema", class: InteractionClass::Inspect });
    v.push(MethodDescriptor { method: "request.get_status", class: InteractionClass::Inspect });
    v.push(MethodDescriptor { method: "events.subscribe", class: InteractionClass::Subscribe });
    v.push(MethodDescriptor { method: "events.unsubscribe", class: InteractionClass::Command });
    v.push(MethodDescriptor { method: "events.get_range", class: InteractionClass::Inspect });
    v.push(MethodDescriptor { method: "readiness.get", class: InteractionClass::Inspect });
    v.push(MethodDescriptor { method: "identity.get", class: InteractionClass::Inspect });
    v.push(MethodDescriptor { method: "thoth.ask", class: InteractionClass::Command });
    v.push(MethodDescriptor { method: "case.entry_options", class: InteractionClass::Inspect });
    v.push(MethodDescriptor { method: "case.preflight", class: InteractionClass::Inspect });
    v.push(MethodDescriptor { method: "case.commit", class: InteractionClass::Command });
    v.push(MethodDescriptor { method: "case.list", class: InteractionClass::Inspect });
    v.push(MethodDescriptor { method: "case.get_overview", class: InteractionClass::Inspect });
    v.push(MethodDescriptor { method: "case.get_horizon", class: InteractionClass::Inspect });
    v.push(MethodDescriptor { method: "approval.list", class: InteractionClass::Inspect });
    v.push(MethodDescriptor { method: "approval.decide", class: InteractionClass::Command });
    v.push(MethodDescriptor { method: "run.list", class: InteractionClass::Inspect });
    v.push(MethodDescriptor { method: "run.get", class: InteractionClass::Inspect });
    v.push(MethodDescriptor { method: "asset.list", class: InteractionClass::Inspect });
    v.push(MethodDescriptor { method: "delegation.preview", class: InteractionClass::Inspect });
    v.push(MethodDescriptor { method: "delegation.list", class: InteractionClass::Inspect });
    proof {
        assert(v@.len() == implemented_methods().len());
    }
    v
}

/// The names of the generated schema types.
pub open spec fn schema_types() -> Seq<Seq<char>> {
    seq![
        "EventFrame"@,
        "Precondition"@,
        "RecordDigest"@,
        "ChangedRecord"@,
        "RejectedAsStale"@,
        "RequestRecord"@,
        "HelloResult"@,
        "DescribeResult"@,
        "GetSchemaResult"@,
        "UnsupportedVersion"@,
        "MethodDescriptor"@,
        "ReadinessView"@,
        "ReadinessItem"@,
        "SourceRecordRef"@,
        "ReadinessGetParams"@,
        "IdentityView"@,
        "AvailableActor"@,
        "RefusalView"@,
        "ThothAnswerView"@,
        "ClaimView"@,
        "EntryOptionsResult"@,
        "TemplateOption"@,
        "TemplateParameter"@,
        "PreflightParams"@,
        "PreflightResult"@,
        "PlanItemSummary"@,
        "CaseListResult"@,
        "CaseSummary"@,
        "CaseOverview"@,
        "CaseHorizon"@,
        "HorizonItem"@,
        "RunSettlement"@,
        "ApprovalListResult"@,
        "PendingApproval"@,
        "ApprovalGovernanceContext"@,
        "RunListResult"@,
        "RunSummary"@,
        "RunRecord"@,
        "RunTermination"@,
        "AuthorityProjection"@,
        "CriterionCheck"@,
        "SettlementDetail"@,
        "DeclarationRow"@,
        "EvidenceRow"@,
        "TraceRow"@,
        "RecordPresence"@,
        "AssetListResult"@,
        "AssetRow"@,
        "AssetKind"@,
        "DelegationPreviewParams"@,
        "DelegationPreviewResult"@,
        "JobContractPreview"@,
        "ResolvedValue"@,
        "ValueSource"@,
        "DelegationListResult"@,
        "DelegationRow"@,
        "DelegationStanding"@
    ]
}

pub fn schema_type_table() -> (v: Vec<&'static str>)
    ensures
        v@.len() == schema_types().len(),
        forall|i: int| 0 <= i < v@.len() ==> (#[trigger] v@[i])@ == schema_types()[i],
{
    let mut v: Vec<&'static str> = Vec::new();
    v.push("EventFrame");
    v.push("Precondition");
    v.push("RecordDigest");
    v.push("ChangedRecord");
    v.push("RejectedAsStale");
    v.push("RequestRecord");
    v.push("HelloResult");
    v.push("DescribeResult");
    v.push("GetSchemaResult");
    v.push("UnsupportedVersion");
    v.push("MethodDescriptor");
    v.push("ReadinessView");
    v.push("ReadinessItem");
    v.push("SourceRecordRef");
    v.push("ReadinessGetParams");
    v.push("IdentityView");
    v.push("AvailableActor");
    v.push("RefusalView");
    v.push("ThothAnswerView");
    v.push("ClaimView");
    v.push("EntryOptionsResult");
    v.push("TemplateOption");
    v.push("TemplateParameter");
    v.push("PreflightParams");
    v.push("PreflightResult");
    v.push("PlanItemSummary");
    v.push("CaseListResult");
    v.push("CaseSummary");
    v.push("CaseOverview");
    v.push("CaseHorizon");
    v.push("HorizonItem");
    v.push("RunSettlement");
    v.push("ApprovalListResult");
    v.push("PendingApproval");
    v.push("ApprovalGovernanceContext");
    v.push("RunListResult");
    v.push("RunSummary");
    v.push("RunRecord");
    v.push("RunTermination");
    v.push("AuthorityProjection");
    v.push("CriterionCheck");
    v.push("SettlementDetail");
    v.push("DeclarationRow");
    v.push("EvidenceRow");
    v.push("TraceRow");
    v.push("RecordPresence");
    v.push("AssetListResult");
    v.push("AssetRow");
    v.push("AssetKind");
    v.push("DelegationPreviewParams");
    v.push("DelegationPreviewResult");
    v.push("JobContractPreview");
    v.push("ResolvedValue");
    v.push("ValueSource");
    v.push("DelegationListResult");
    v.push("DelegationRow");
    v.push("DelegationStanding");
    v
}

/// The major component of a requested version is `1`.
pub open spec fn version_supported_spec(requested: Seq<char>) -> bool {
    before_first(requested, '.') == SFWP_PROTOCOL_VERSION@
}

proof fn lemma_before_first_at(s: Seq<char>, c: char, k: int)
    requires
        0 <= k <= s.len(),
        forall|j: int| 0 <= j < k ==> s[j] != c,
        k == s.len() || s[k] == c,
    ensures
        before_first(s, c) == s.subrange(0, k),
    decreases k,
{
    if k == 0 {
        if s.len() == 0 {
            assert(s.subrange(0, 0) =~= s);
        } else {
            assert(s.subrange(0, 0) =~= Seq::<char>::empty());
        }
    } else {
        let t = s.drop_first();
        assert forall|j: int| 0 <= j < k - 1 implies t[j] != c by {
            assert(t[j] == s[j + 1]);
        }
        lemma_before_first_at(t, c, k - 1);
        assert(seq![s[0]] + t.subrange(0, k - 1) =~= s.subrange(0, k));
    }
}

/// True if `requested` names a supported protocol major version.
pub fn version_supported(requested: &str) -> (r: bool)
    ensures
        r == version_supported_spec(requested@),
{
    let n = requested.unicode_len();
    let mut k: usize = 0;
    while k < n && requested.get_char(k) != '.'
        invariant
            n == requested@.len(),
            k <= n,
            forall|j: int| 0 <= j < k ==> requested@[j] != '.',
        decreases n - k,
    {
        k += 1;
    }
    proof {
        lemma_before_first_at(requested@, '.', k as int);
    }
    let major = requested.substring_char(0, k);
    str_eq(major, SFWP_PROTOCOL_VERSION)
}

/// `system.hello` result body.
#[derive(Debug)]
pub struct HelloResult {
    pub protocol_version: String,
    pub server_protocol_version: String,
    pub implemented_methods: Vec<String>,
}

/// `system.describe` result body.
#[derive(Debug)]
pub struct DescribeResult {
    pub protocol_version: String,
    pub methods: Vec<MethodInfo>,
}

/// One described method.
#[derive(Debug)]
pub struct MethodInfo {
    pub method: String,
    pub class: String,
}

/// A generated schema reference.
#[derive(Debug)]
pub struct SchemaRef {
    pub name: String,
    pub path: String,
}

/// `system.get_schema` result body.
#[derive(Debug)]
pub struct GetSchemaResult {
    pub schemas: Vec<SchemaRef>,
}

/// The structured `unsupported_version` error body.
#[derive(Debug)]
pub struct UnsupportedVersion {
    pub error_class: String,
    pub requested: String,
    pub supported: String,
    pub error: String,
}

pub open spec fn unsupported_message(requested: Seq<char>) -> Seq<char> {
    "unsupported SFWP protocol version "@ + requested + "; server supports major "@
        + SFWP_PROTOCOL_VERSION@
}

/// Build the `system.hello` result, or the `unsupported_version` error when
/// the requested major is not supported.
pub fn hello(requested_version: &str) -> (r: Result<HelloResult, UnsupportedVersion>)
    ensures
        r is Ok <==> version_supported_spec(requested_version@),
        r matches Ok(h) ==> {
            &&& h.protocol_version@ == requested_version@
            &&& h.server_protocol_version@ == SFWP_PROTOCOL_VERSION@
            &&& h.implemented_methods@.len() == implemented_methods().len()
            &&& forall|i: int| 0 <= i < h.implemented_methods@.len() ==> (#[trigger] h.implemented_methods@[i])@ == implemented_methods()[i].0
        },
        r matches Err(e) ==> {
            &&& e.error_class@ == "unsupported_version"@
            &&& e.requested@ == requested_version@
            &&& e.supported@ == SFWP_PROTOCOL_VERSION@
            &&& e.error@ == unsupported_message(requested_version@)
        },
{
    if !version_supported(requested_version) {
        let mut error = owned("unsupported SFWP protocol version ");
        error.append(requested_version);
        error.append("; server supports major ");
        error.append(SFWP_PROTOCOL_VERSION);
        return Err(UnsupportedVersion {
            error_class: owned("unsupported_version"),
            requested: owned(requested_version),
            supported: owned(SFWP_PROTOCOL_VERSION),
            error,
        });
    }
    let table = implemented_method_table();
    let mut names: Vec<String> = Vec::new();
    let mut i: usize = 0;
    while i < table.len()
        invariant
            i <= table@.len(),
            table@.len() == implemented_methods().len(),
            forall|j: int| 0 <= j < table@.len() ==> (#[trigger] table@[j]).method@ == implemented_methods()[j].0,
            names@.len() == i,
            forall|j: int| 0 <= j < i ==> (#[trigger] names@[j])@ == implemented_methods()[j].0,
        decreases table@.len() - i,
    {
        names.push(owned(table[i].method));
        i += 1;
    }
    Ok(HelloResult {
        protocol_version: owned(requested_version),
        server_protocol_version: owned(SFWP_PROTOCOL_VERSION),
        implemented_methods: names,
    })
}

/// Build the `system.describe` result: every implemented method with its class word.
pub fn describe() -> (r: DescribeResult)
    ensures
        r.protocol_version@ == SFWP_PROTOCOL_VERSION@,
        r.methods@.len() == implemented_methods().len(),
        forall|i: int| 0 <= i < r.methods@.len() ==> (#[trigger] r.methods@[i]).method@ == implemented_methods()[i].0 && r.methods@[i].class@ == class_word(implemented_methods()[i].1),
{
    let table = implemented_method_table();
    let mut methods: Vec<MethodInfo> = Vec::new();
    let mut i: usize = 0;
    while i < table.len()
        invariant
            i <= table@.len(),
            table@.len() == implemented_methods().len(),
            forall|j: int| 0 <= j < table@.len() ==> (#[trigger] table@[j]).method@ == implemented_methods()[j].0 && table@[j].class == implemented_methods()[j].1,
            methods@.len() == i,
            forall|j: int| 0 <= j < i ==> (#[trigger] methods@[j]).method@ == implemented_methods()[j].0 && methods@[j].class@ == class_word(implemented_methods()[j].1),
        decreases table@.len() - i,
    {
        let d = table[i];
        methods.push(MethodInfo { method: owned(d.method), class: owned(d.class.as_str()) });
        i += 1;
    }
    DescribeResult { protocol_version: owned(SFWP_PROTOCOL_VERSION), methods }
}

/// `method` names an implemented method.
pub open spec fn is_implemented(method: Seq<char>) -> bool {
    exists|i: int| 0 <= i < implemented_methods().len() && implemented_methods()[i].0 == method
}

pub open spec fn schema_path(name: Seq<char>) -> Seq<char> {
    "workbench/packages/contracts/schema/"@ + name + ".schema.json"@
}

/// Build the `system.get_schema` result: every generated schema when `method`
/// is absent or implemented, none for an unknown method.
pub fn get_schema(method: Option<&str>) -> (r: GetSchemaResult)
    ensures
        (method is None || is_implemented(method->0@)) ==> {
            &&& r.schemas@.len() == schema_types().len()
            &&& forall|i: int| 0 <= i < r.schemas@.len() ==> (#[trigger] r.schemas@[i]).name@ == schema_types()[i] && r.schemas@[i].path@ == schema_path(schema_types()[i])
        },
        !(method is None || is_implemented(method->0@)) ==> r.schemas@.len() == 0,
{
    let known = match method {
        None => true,
        Some(m) => {
            let table = implemented_method_table();
            let mut found = false;
            let mut i: usize = 0;
            while i < table.len()
                invariant
                    i <= table@.len(),
                    table@.len() == implemented_methods().len(),
                    forall|j: int| 0 <= j < table@.len() ==> (#[trigger] table@[j]).method@ == implemented_methods()[j].0,
                    found == exists|j: int| 0 <= j < i && implemented_methods()[j].0 == m@,
                decreases table@.len() - i,
            {
                if str_eq(table[i].method, m) {
                    found = true;
                }
                i += 1;
            }
            found
        },
    };
    let mut schemas: Vec<SchemaRef> = Vec::new();
    if known {
        let names = schema_type_table();
        let mut i: usize = 0;
        while i < names.len()
            invariant
                i <= names@.len(),
                names@.len() == schema_types().len(),
                forall|j: int| 0 <= j < names@.len() ==> (#[trigger] names@[j])@ == schema_types()[j],
                schemas@.len() == i,
                forall|j: int| 0 <= j < i ==> (#[trigger] schemas@[j]).name@ == schema_types()[j] && schemas@[j].path@ == schema_path(schema_types()[j]),
            decreases names@.len() - i,
        {
            let name = names[i];
            schemas.push(SchemaRef {
                name: owned(name),
                path: concat3("workbench/packages/contracts/schema/", name, ".schema.json"),
            });
            i += 1;
        }
    }
    GetSchemaResult { schemas }
}

} // verus!
