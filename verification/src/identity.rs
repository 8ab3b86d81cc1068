//! Governed actor identity: a protected request's actor claim is checked
//! against the kernel-reported uid of its connection and the cell's bindings;
//! nothing is derived from the claim alone.
use vstd::prelude::*;
use crate::json::{Json, JsonView, get_str, get_opt, get, jget, jget_opt, jstr};
use crate::envelope::strings_view;
use crate::text::{owned, str_eq, concat2, concat3, decimal, decimal_exec};

verus! {

/// A role, by its wire spelling (`operator`, `R-SO`, ...) and its variant name.
pub struct ActorRole {
    pub wire_name: String,
    pub variant_name: String,
}

pub struct RoleView {
    pub wire_name: Seq<char>,
    pub variant_name: Seq<char>,
}

impl View for ActorRole {
    type V = RoleView;

    open spec fn view(&self) -> RoleView {
        RoleView { wire_name: self.wire_name@, variant_name: self.variant_name@ }
    }
}

impl ActorRole {
    /// The operator role.
    pub fn operator() -> (r: ActorRole)
        ensures
            r@ == (RoleView { wire_name: "operator"@, variant_name: "Operator"@ }),
    {
        ActorRole { wire_name: owned("operator"), variant_name: owned("Operator") }
    }

    /// The security-officer role.
    pub fn security_officer() -> (r: ActorRole)
        ensures
            r@ == (RoleView { wire_name: "R-SO"@, variant_name: "SecurityOfficer"@ }),
    {
        ActorRole { wire_name: owned("R-SO"), variant_name: owned("SecurityOfficer") }
    }

    pub fn duplicate(&self) -> (r: ActorRole)
        ensures
            r@ == self@,
    {
        ActorRole { wire_name: self.wire_name.clone(), variant_name: self.variant_name.clone() }
    }

    /// Two roles are the same role when they are the same variant.
    pub fn same_as(&self, other: &ActorRole) -> (r: bool)
        ensures
            r == (self@.variant_name == other@.variant_name),
    {
        str_eq(self.variant_name.as_str(), other.variant_name.as_str())
    }
}

/// The wire spelling of a role.
pub fn role_wire_name(role: &ActorRole) -> (r: String)
    ensures
        r@ == role@.wire_name,
{
    role.wire_name.clone()
}

/// The OS identity of the peer of a connection, as the kernel reports it.
#[derive(Clone, Copy, Debug, PartialEq, Eq, Structural)]
pub struct PeerIdentity {
    pub uid: u32,
}

/// The actor block a client attaches to a protected request.
pub struct ActorClaim {
    pub actor_id: String,
    pub role: ActorRole,
}

pub struct ClaimView {
    pub actor_id: Seq<char>,
    pub role: RoleView,
}

impl View for ActorClaim {
    type V = ClaimView;

    open spec fn view(&self) -> ClaimView {
        ClaimView { actor_id: self.actor_id@, role: self.role@ }
    }
}

/// An actor claim checked against the peer's uid; only `resolve` makes one.
pub struct ResolvedActor {
    actor_id: String,
    role: ActorRole,
    uid: u32,
}

pub struct ResolvedView {
    pub actor_id: Seq<char>,
    pub role: RoleView,
    pub uid: u32,
}

impl View for ResolvedActor {
    type V = ResolvedView;

    closed spec fn view(&self) -> ResolvedView {
        ResolvedView { actor_id: self.actor_id@, role: self.role@, uid: self.uid }
    }
}

impl ResolvedActor {
    pub fn actor_id(&self) -> (r: &str)
        ensures
            r@ == self@.actor_id,
    {
        self.actor_id.as_str()
    }

    pub fn role(&self) -> (r: &ActorRole)
        ensures
            r@ == self@.role,
    {
        &self.role
    }

    pub fn uid(&self) -> (r: u32)
        ensures
            r == self@.uid,
    {
        self.uid
    }
}

/// Why a protected request was refused.
pub enum IdentityRefusal {
    /// The verb is protected and the request carried no usable actor block.
    Missing,
    /// The peer credential could not be read.
    UnknownPeer,
    /// The cell configures no identity bindings at all.
    Unconfigured,
    /// The claimed actor is not bound to this uid.
    NotBound { actor_id: String, uid: u32 },
    /// The actor is bound to this uid but not in the role it claimed.
    RoleNotHeld { actor_id: String, role: ActorRole },
    /// The request attributes its work to another actor than it verified.
    EntityMismatch { actor_id: String, entity: String },
    /// The actor resolving an approval is the one whose work it gates.
    SelfApproval { actor_id: String, approval_id: String },
}

pub enum RefusalKind {
    Missing,
    UnknownPeer,
    Unconfigured,
    NotBound { actor_id: Seq<char>, uid: u32 },
    RoleNotHeld { actor_id: Seq<char>, role: RoleView },
    EntityMismatch { actor_id: Seq<char>, entity: Seq<char> },
    SelfApproval { actor_id: Seq<char>, approval_id: Seq<char> },
}

impl View for IdentityRefusal {
    type V = RefusalKind;

    open spec fn view(&self) -> RefusalKind {
        match self {
            IdentityRefusal::Missing => RefusalKind::Missing,
            IdentityRefusal::UnknownPeer => RefusalKind::UnknownPeer,
            IdentityRefusal::Unconfigured => RefusalKind::Unconfigured,
            IdentityRefusal::NotBound { actor_id, uid } => RefusalKind::NotBound {
                actor_id: actor_id@,
                uid: *uid,
            },
            IdentityRefusal::RoleNotHeld { actor_id, role } => RefusalKind::RoleNotHeld {
                actor_id: actor_id@,
                role: role@,
            },
            IdentityRefusal::EntityMismatch { actor_id, entity } => RefusalKind::EntityMismatch {
                actor_id: actor_id@,
                entity: entity@,
            },
            IdentityRefusal::SelfApproval { actor_id, approval_id } => RefusalKind::SelfApproval {
                actor_id: actor_id@,
                approval_id: approval_id@,
            },
        }
    }
}

pub open spec fn refusal_class(r: RefusalKind) -> Seq<char> {
    match r {
        RefusalKind::Missing => "identity_required"@,
        RefusalKind::UnknownPeer => "identity_unverifiable"@,
        RefusalKind::Unconfigured => "identity_unconfigured"@,
        RefusalKind::NotBound { .. } => "identity_not_bound"@,
        RefusalKind::RoleNotHeld { .. } => "identity_role_not_held"@,
        RefusalKind::EntityMismatch { .. } => "identity_entity_mismatch"@,
        RefusalKind::SelfApproval { .. } => "separation_of_duty"@,
    }
}

pub open spec fn refusal_message(r: RefusalKind) -> Seq<char> {
    match r {
        RefusalKind::Missing =>
            "this verb causes a side effect and requires an `actor` block {\"actor_id\":…,\"role\":…}; inspect verbs do not"@,
        RefusalKind::UnknownPeer =>
            "the peer credential for this connection could not be read, so no actor claim on it can be verified"@,
        RefusalKind::Unconfigured =>
            "this cell configures no identity bindings; add `identity.bindings` to server.yaml mapping a uid to an actor before running protected verbs"@,
        RefusalKind::NotBound { actor_id, uid } => "actor `"@ + actor_id + "` is not bound to uid "@
            + decimal(uid as nat) + " in this cell"@,
        RefusalKind::RoleNotHeld { actor_id, role } => "actor `"@ + actor_id
            + "` does not hold the role "@ + role.variant_name + " it claimed"@,
        RefusalKind::EntityMismatch { actor_id, entity } => "this request verified actor `"@
            + actor_id + "` but attributes its work to `"@ + entity
            + "`; the two must name the same actor"@,
        RefusalKind::SelfApproval { actor_id, approval_id } => "actor `"@ + actor_id
            + "` requested the work approval `"@ + approval_id
            + "` gates and cannot resolve it; approval requires a different actor"@,
    }
}

impl IdentityRefusal {
    pub fn error_class(&self) -> (r: &'static str)
        ensures
            r@ == refusal_class(self@),
    {
        match self {
            IdentityRefusal::Missing => "identity_required",
            IdentityRefusal::UnknownPeer => "identity_unverifiable",
            IdentityRefusal::Unconfigured => "identity_unconfigured",
            IdentityRefusal::NotBound { .. } => "identity_not_bound",
            IdentityRefusal::RoleNotHeld { .. } => "identity_role_not_held",
            IdentityRefusal::EntityMismatch { .. } => "identity_entity_mismatch",
            IdentityRefusal::SelfApproval { .. } => "separation_of_duty",
        }
    }

    pub fn message(&self) -> (r: String)
        ensures
            r@ == refusal_message(self@),
    {
        let r = match self {
            IdentityRefusal::Missing => owned(
                "this verb causes a side effect and requires an `actor` block {\"actor_id\":…,\"role\":…}; inspect verbs do not",
            ),
            IdentityRefusal::UnknownPeer => owned(
                "the peer credential for this connection could not be read, so no actor claim on it can be verified",
            ),
            IdentityRefusal::Unconfigured => owned(
                "this cell configures no identity bindings; add `identity.bindings` to server.yaml mapping a uid to an actor before running protected verbs",
            ),
            IdentityRefusal::NotBound { actor_id, uid } => {
                let mut m = concat3("actor `", actor_id.as_str(), "` is not bound to uid ");
                let d = decimal_exec(*uid as u64);
                m.append(d.as_str());
                m.append(" in this cell");
                m
            },
            IdentityRefusal::RoleNotHeld { actor_id, role } => {
                let mut m = concat3("actor `", actor_id.as_str(), "` does not hold the role ");
                m.append(role.variant_name.as_str());
                m.append(" it claimed");
                m
            },
            IdentityRefusal::EntityMismatch { actor_id, entity } => {
                let mut m = concat3(
                    "this request verified actor `",
                    actor_id.as_str(),
                    "` but attributes its work to `",
                );
                m.append(entity.as_str());
                m.append("`; the two must name the same actor");
                m
            },
            IdentityRefusal::SelfApproval { actor_id, approval_id } => {
                let mut m = concat3("actor `", actor_id.as_str(), "` requested the work approval `");
                m.append(approval_id.as_str());
                m.append("` gates and cannot resolve it; approval requires a different actor");
                m
            },
        };
        proof {
            assert(r@ =~= refusal_message(self@));
        }
        r
    }

    /// The error body of a refused request; it states that nothing happened.
    pub fn response(&self) -> (r: Json)
        ensures
            r@ == JsonView::Object(
                seq![
                    ("error"@, JsonView::Str(refusal_message(self@))),
                    ("error_class"@, JsonView::Str(refusal_class(self@))),
                    ("no_side_effect"@, JsonView::Bool(true)),
                ],
            ),
    {
        let mut m: Vec<(String, Json)> = Vec::new();
        proof {
            assert(crate::json::members_view(m@) =~= Seq::<(Seq<char>, JsonView)>::empty());
        }
        crate::json::push_member(&mut m, "error", Json::Str(self.message()));
        crate::json::push_member(&mut m, "error_class", Json::Str(owned(self.error_class())));
        crate::json::push_member(&mut m, "no_side_effect", Json::Bool(true));
        proof {
            assert(crate::json::members_view(m@) =~= seq![
                ("error"@, JsonView::Str(refusal_message(self@))),
                ("error_class"@, JsonView::Str(refusal_class(self@))),
                ("no_side_effect"@, JsonView::Bool(true)),
            ]);
        }
        crate::json::object_of(m)
    }
}

/// One uid, and the actor and roles it may claim.
pub struct IdentityBinding {
    pub uid: u32,
    pub actor_id: String,
    /// Every role the actor may claim; none suspends the actor.
    pub roles: Vec<ActorRole>,
}

pub struct BindingView {
    pub uid: u32,
    pub actor_id: Seq<char>,
    pub roles: Seq<RoleView>,
}

impl View for IdentityBinding {
    type V = BindingView;

    open spec fn view(&self) -> BindingView {
        BindingView {
            uid: self.uid,
            actor_id: self.actor_id@,
            roles: self.roles@.map_values(|r: ActorRole| r@),
        }
    }
}

/// The cell's uid-to-actor mapping; empty means unconfigured.
pub struct IdentityBindings {
    pub bindings: Vec<IdentityBinding>,
}

pub open spec fn bindings_view(b: &IdentityBindings) -> Seq<BindingView> {
    b.bindings@.map_values(|x: IdentityBinding| x@)
}

/// The first binding of `uid` to `actor`.
pub open spec fn find_bound(bs: Seq<BindingView>, uid: u32, actor: Seq<char>) -> Option<int>
    decreases bs.len(),
{
    if bs.len() == 0 {
        None
    } else {
        match find_bound(bs.drop_last(), uid, actor) {
            Some(i) => Some(i),
            None => if bs.last().uid == uid && bs.last().actor_id == actor {
                Some(bs.len() - 1)
            } else {
                None
            },
        }
    }
}

pub open spec fn holds_role(roles: Seq<RoleView>, role: RoleView) -> bool {
    exists|i: int| 0 <= i < roles.len() && (#[trigger] roles[i]).variant_name == role.variant_name
}

/// The check of a claim against the peer's uid and the cell's bindings.
pub open spec fn resolution(bs: Seq<BindingView>, claim: Option<ClaimView>, peer: Option<PeerIdentity>) -> Result<ResolvedView, RefusalKind> {
    match claim {
        None => Err(RefusalKind::Missing),
        Some(c) => match peer {
            None => Err(RefusalKind::UnknownPeer),
            Some(p) => if bs.len() == 0 {
                Err(RefusalKind::Unconfigured)
            } else {
                match find_bound(bs, p.uid, c.actor_id) {
                    None => Err(RefusalKind::NotBound { actor_id: c.actor_id, uid: p.uid }),
                    Some(i) => if !holds_role(bs[i].roles, c.role) {
                        Err(RefusalKind::RoleNotHeld { actor_id: c.actor_id, role: c.role })
                    } else {
                        Ok(ResolvedView { actor_id: bs[i].actor_id, role: c.role, uid: p.uid })
                    },
                }
            },
        },
    }
}

pub open spec fn opt_claim_view(c: Option<&ActorClaim>) -> Option<ClaimView> {
    match c {
        Some(x) => Some(x@),
        None => None,
    }
}

pub open spec fn resolution_view(r: Result<ResolvedActor, IdentityRefusal>) -> Result<ResolvedView, RefusalKind> {
    match r {
        Ok(a) => Ok(a@),
        Err(e) => Err(e@),
    }
}

proof fn lemma_find_bound(bs: Seq<BindingView>, uid: u32, actor: Seq<char>)
    ensures
        find_bound(bs, uid, actor) matches Some(i) ==> 0 <= i < bs.len() && bs[i].uid == uid && bs[i].actor_id
            == actor && forall|j: int| 0 <= j < i ==> !((#[trigger] bs[j]).uid == uid && bs[j].actor_id == actor),
        find_bound(bs, uid, actor) is None ==> forall|j: int|
            0 <= j < bs.len() ==> !((#[trigger] bs[j]).uid == uid && bs[j].actor_id == actor),
    decreases bs.len(),
{
    if bs.len() > 0 {
        lemma_find_bound(bs.drop_last(), uid, actor);
        assert forall|j: int| 0 <= j < bs.len() - 1 implies bs.drop_last()[j] == #[trigger] bs[j] by {}
    }
}

/// An available actor: one the connection may claim, with its roles' wire
/// spellings in configuration order.
pub struct AvailableActor {
    pub actor_id: String,
    pub roles: Vec<String>,
}

/// Why nothing can be claimed on a connection.
pub struct RefusalView {
    pub error_class: String,
    pub message: String,
}

/// What the cell believes about the identity of a connection.
pub struct IdentityView {
    pub uid: Option<u32>,
    pub configured: bool,
    pub available: Vec<AvailableActor>,
    /// Present exactly when `available` is empty.
    pub refusal: Option<RefusalView>,
}

pub struct AvailableView {
    pub actor_id: Seq<char>,
    pub roles: Seq<Seq<char>>,
}

pub struct DescriptionView {
    pub uid: Option<u32>,
    pub configured: bool,
    pub available: Seq<AvailableView>,
    pub refusal: Option<(Seq<char>, Seq<char>)>,
}

impl View for IdentityView {
    type V = DescriptionView;

    open spec fn view(&self) -> DescriptionView {
        DescriptionView {
            uid: self.uid,
            configured: self.configured,
            available: self.available@.map_values(|a: AvailableActor| AvailableView { actor_id: a.actor_id@, roles: strings_view(a.roles@) }),
            refusal: match self.refusal {
                Some(r) => Some((r.error_class@, r.message@)),
                None => None,
            },
        }
    }
}

/// The actors bound to `uid`, in configuration order.
pub open spec fn available_for(bs: Seq<BindingView>, uid: u32) -> Seq<AvailableView>
    decreases bs.len(),
{
    if bs.len() == 0 {
        Seq::empty()
    } else {
        let rest = available_for(bs.drop_last(), uid);
        if bs.last().uid == uid {
            rest.push(AvailableView {
                actor_id: bs.last().actor_id,
                roles: bs.last().roles.map_values(|r: RoleView| r.wire_name),
            })
        } else {
            rest
        }
    }
}

/// What a connection from `peer` may claim.
pub open spec fn description(bs: Seq<BindingView>, peer: Option<PeerIdentity>) -> DescriptionView {
    match peer {
        None => DescriptionView {
            uid: None,
            configured: bs.len() > 0,
            available: Seq::empty(),
            refusal: Some((refusal_class(RefusalKind::UnknownPeer), refusal_message(RefusalKind::UnknownPeer))),
        },
        Some(p) => if bs.len() == 0 {
            DescriptionView {
                uid: Some(p.uid),
                configured: false,
                available: Seq::empty(),
                refusal: Some((refusal_class(RefusalKind::Unconfigured), refusal_message(RefusalKind::Unconfigured))),
            }
        } else {
            let available = available_for(bs, p.uid);
            DescriptionView {
                uid: Some(p.uid),
                configured: true,
                available,
                refusal: if available.len() == 0 {
                    Some(("identity_not_bound"@, "no actor is bound to uid "@ + decimal(p.uid as nat) + " in this cell"@))
                } else {
                    None
                },
            }
        },
    }
}

impl IdentityBindings {
    pub fn is_empty(&self) -> (r: bool)
        ensures
            r == (bindings_view(self).len() == 0),
    {
        self.bindings.len() == 0
    }

    /// Bind `actor_id`, as an operator, to `uid` (no bindings when the uid is
    /// unknown).
    pub fn local_operator_for(actor_id: &str, uid: Option<u32>) -> (r: IdentityBindings)
        ensures
            match uid {
                Some(u) => bindings_view(&r) == seq![BindingView { uid: u, actor_id: actor_id@, roles: seq![RoleView { wire_name: "operator"@, variant_name: "Operator"@ }] }],
                None => bindings_view(&r).len() == 0,
            },
    {
        let mut bindings: Vec<IdentityBinding> = Vec::new();
        match uid {
            Some(u) => {
                let mut roles: Vec<ActorRole> = Vec::new();
                roles.push(ActorRole::operator());
                bindings.push(IdentityBinding { uid: u, actor_id: owned(actor_id), roles });
                proof {
                    assert(bindings@[0]@.roles =~= seq![RoleView { wire_name: "operator"@, variant_name: "Operator"@ }]);
                }
            },
            None => {},
        }
        let r = IdentityBindings { bindings };
        proof {
            if uid is Some {
                assert(bindings_view(&r) =~= seq![BindingView { uid: uid->0, actor_id: actor_id@, roles: seq![RoleView { wire_name: "operator"@, variant_name: "Operator"@ }] }]);
            }
        }
        r
    }

    /// Check a claim against the peer's uid and this cell's bindings.
    pub fn resolve(&self, claim: Option<&ActorClaim>, peer: Option<PeerIdentity>) -> (r: Result<
        ResolvedActor,
        IdentityRefusal,
    >)
        ensures
            resolution_view(r) == resolution(bindings_view(self), opt_claim_view(claim), peer),
    {
        let c = match claim {
            Some(c) => c,
            None => {
                return Err(IdentityRefusal::Missing);
            },
        };
        let p = match peer {
            Some(p) => p,
            None => {
                return Err(IdentityRefusal::UnknownPeer);
            },
        };
        if self.is_empty() {
            return Err(IdentityRefusal::Unconfigured);
        }
        let ghost bs = bindings_view(self);
        proof {
            lemma_find_bound(bs, p.uid, c.actor_id@);
        }
        let mut i: usize = 0;
        while i < self.bindings.len()
            invariant
                claim == Some(c),
                peer == Some(p),
                bs.len() > 0,
                bs == bindings_view(self),
                i <= bs.len(),
                forall|j: int| 0 <= j < i ==> !((#[trigger] bs[j]).uid == p.uid && bs[j].actor_id == c.actor_id@),
                find_bound(bs, p.uid, c.actor_id@) matches Some(k) ==> k >= i,
            decreases bs.len() - i,
        {
            let b = &self.bindings[i];
            proof {
                assert(bs[i as int] == b@);
            }
            if b.uid == p.uid && str_eq(b.actor_id.as_str(), c.actor_id.as_str()) {
                proof {
                    lemma_find_bound(bs, p.uid, c.actor_id@);
                    assert(find_bound(bs, p.uid, c.actor_id@) == Some(i as int));
                }
                let mut k: usize = 0;
                while k < b.roles.len()
                    invariant
                        claim == Some(c),
                        peer == Some(p),
                        bs == bindings_view(self),
                        i < bs.len(),
                        bs.len() > 0,
                        b@ == bs[i as int],
                        find_bound(bs, p.uid, c.actor_id@) == Some(i as int),
                        k <= b.roles@.len(),
                        forall|j: int| 0 <= j < k ==> (#[trigger] b.roles@[j])@.variant_name != c.role@.variant_name,
                    decreases b.roles@.len() - k,
                {
                    if b.roles[k].same_as(&c.role) {
                        proof {
                            assert(bs[i as int].roles[k as int] == b.roles@[k as int]@);
                            assert(bs[i as int].roles[k as int].variant_name == c.role@.variant_name);
                            assert(holds_role(bs[i as int].roles, c.role@));
                        }
                        let resolved = ResolvedActor { actor_id: b.actor_id.clone(), role: c.role.duplicate(), uid: p.uid };
                        proof {
                            assert(resolved@.actor_id == bs[i as int].actor_id);
                            assert(resolved@ == (ResolvedView { actor_id: bs[i as int].actor_id, role: c.role@, uid: p.uid }));
                        }
                        return Ok(resolved);
                    }
                    k += 1;
                }
                proof {
                    assert forall|j: int| 0 <= j < bs[i as int].roles.len() implies (#[trigger] bs[i as int].roles[j]).variant_name != c.role@.variant_name by {
                        assert(bs[i as int].roles[j] == b.roles@[j]@);
                    }
                }
                return Err(IdentityRefusal::RoleNotHeld { actor_id: c.actor_id.clone(), role: c.role.duplicate() });
            }
            proof {
                lemma_find_bound(bs, p.uid, c.actor_id@);
            }
            i += 1;
        }
        Err(IdentityRefusal::NotBound { actor_id: c.actor_id.clone(), uid: p.uid })
    }
}


fn roles_wire(roles: &Vec<ActorRole>) -> (r: Vec<String>)
    ensures
        strings_view(r@) == roles@.map_values(|x: ActorRole| x@).map_values(|x: RoleView| x.wire_name),
{
    let mut out: Vec<String> = Vec::new();
    let mut i: usize = 0;
    while i < roles.len()
        invariant
            i <= roles@.len(),
            out@.len() == i,
            forall|j: int| 0 <= j < i ==> (#[trigger] out@[j])@ == roles@[j]@.wire_name,
        decreases roles@.len() - i,
    {
        out.push(role_wire_name(&roles[i]));
        i += 1;
    }
    proof {
        assert(strings_view(out@) =~= roles@.map_values(|x: ActorRole| x@).map_values(|x: RoleView| x.wire_name));
    }
    out
}

pub open spec fn refusal_pair(r: Option<RefusalView>) -> Option<(Seq<char>, Seq<char>)> {
    match r {
        Some(x) => Some((x.error_class@, x.message@)),
        None => None,
    }
}

fn refusal_of(r: IdentityRefusal) -> (v: Option<RefusalView>)
    ensures
        refusal_pair(v) == Some((refusal_class(r@), refusal_message(r@))),
{
    Some(RefusalView { error_class: owned(r.error_class()), message: r.message() })
}

impl IdentityBindings {
    /// What a connection from `peer` may claim; the refusal is present
    /// exactly when nothing is available.
    pub fn describe(&self, peer: Option<PeerIdentity>) -> (r: IdentityView)
        ensures
            r@ == description(bindings_view(self), peer),
    {
        let p = match peer {
            None => {
                let available: Vec<AvailableActor> = Vec::new();
                let r = IdentityView {
                    uid: None,
                    configured: !self.is_empty(),
                    available,
                    refusal: refusal_of(IdentityRefusal::UnknownPeer),
                };
                proof {
                    assert(r@.available =~= Seq::<AvailableView>::empty());
                }
                return r;
            },
            Some(p) => p,
        };
        if self.is_empty() {
            let available: Vec<AvailableActor> = Vec::new();
            let r = IdentityView {
                uid: Some(p.uid),
                configured: false,
                available,
                refusal: refusal_of(IdentityRefusal::Unconfigured),
            };
            proof {
                assert(r@.available =~= Seq::<AvailableView>::empty());
            }
            return r;
        }
        let ghost bs = bindings_view(self);
        let mut available: Vec<AvailableActor> = Vec::new();
        let mut i: usize = 0;
        while i < self.bindings.len()
            invariant
                bs == bindings_view(self),
                i <= bs.len(),
                available@.map_values(|a: AvailableActor| AvailableView { actor_id: a.actor_id@, roles: strings_view(a.roles@) })
                    == available_for(bs.subrange(0, i as int), p.uid),
            decreases bs.len() - i,
        {
            let ghost before = available@.map_values(|a: AvailableActor| AvailableView { actor_id: a.actor_id@, roles: strings_view(a.roles@) });
            proof {
                assert(bs.subrange(0, i + 1).drop_last() =~= bs.subrange(0, i as int));
                assert(bs.subrange(0, i + 1).last() == self.bindings@[i as int]@);
            }
            let b = &self.bindings[i];
            if b.uid == p.uid {
                let roles = roles_wire(&b.roles);
                available.push(AvailableActor { actor_id: b.actor_id.clone(), roles });
                proof {
                    assert(available@.map_values(|a: AvailableActor| AvailableView { actor_id: a.actor_id@, roles: strings_view(a.roles@) })
                        =~= before.push(AvailableView { actor_id: b.actor_id@, roles: b@.roles.map_values(|r: RoleView| r.wire_name) }));
                }
            }
            i += 1;
        }
        proof {
            assert(bs.subrange(0, bs.len() as int) =~= bs);
        }
        let refusal = if available.len() == 0 {
            let d = decimal_exec(p.uid as u64);
            let mut m = concat2("no actor is bound to uid ", d.as_str());
            m.append(" in this cell");
            Some(RefusalView { error_class: owned("identity_not_bound"), message: m })
        } else {
            None
        };
        IdentityView { uid: Some(p.uid), configured: true, available, refusal }
    }
}

proof fn lemma_available_for(bs: Seq<BindingView>, uid: u32, i: int)
    requires
        0 <= i < bs.len(),
        bs[i].uid == uid,
    ensures
        available_for(bs, uid).len() > 0,
        exists|j: int| 0 <= j < available_for(bs, uid).len() && (#[trigger] available_for(bs, uid)[j]).actor_id == bs[i].actor_id
            && available_for(bs, uid)[j].roles == bs[i].roles.map_values(|r: RoleView| r.wire_name),
    decreases bs.len(),
{
    if i == bs.len() - 1 {
        let j = available_for(bs, uid).len() - 1;
        assert(available_for(bs, uid)[j].actor_id == bs[i].actor_id);
    } else {
        lemma_available_for(bs.drop_last(), uid, i);
        let rest = available_for(bs.drop_last(), uid);
        let j = choose|j: int| 0 <= j < rest.len() && (#[trigger] rest[j]).actor_id == bs.drop_last()[i].actor_id
            && rest[j].roles == bs.drop_last()[i].roles.map_values(|r: RoleView| r.wire_name);
        assert(available_for(bs, uid)[j] == rest[j]);
    }
}

/// What `identity.get` reports agrees with what a protected request would
/// meet: an actor resolves only if the connection's description lists it,
/// and then without a refusal.
pub proof fn law_description_agrees_with_resolution(bs: Seq<BindingView>, claim: ClaimView, peer: Option<PeerIdentity>)
    ensures
        resolution(bs, Some(claim), peer) matches Ok(a) ==> {
            &&& description(bs, peer).refusal is None
            &&& exists|j: int| 0 <= j < description(bs, peer).available.len()
                && (#[trigger] description(bs, peer).available[j]).actor_id == a.actor_id
        },
        description(bs, peer).available.len() == 0 ==> resolution(bs, Some(claim), peer) is Err,
{
    if let Some(p) = peer {
        if bs.len() > 0 {
            lemma_find_bound(bs, p.uid, claim.actor_id);
            if let Some(i) = find_bound(bs, p.uid, claim.actor_id) {
                lemma_available_for(bs, p.uid, i);
                let av = available_for(bs, p.uid);
                let j = choose|j: int| 0 <= j < av.len() && (#[trigger] av[j]).actor_id == bs[i].actor_id
                    && av[j].roles == bs[i].roles.map_values(|r: RoleView| r.wire_name);
                assert(description(bs, peer).available == av);
                assert(description(bs, peer).available[j].actor_id == bs[i].actor_id);
            }
        }
    }
}


/// The first entry of kind `kind` whose `key` field is `value`.
pub open spec fn find_entry(es: Seq<crate::recovery::EntryView>, kind: Seq<char>, key: Seq<char>, value: Seq<char>) -> Option<int>
    decreases es.len(),
{
    if es.len() == 0 {
        None
    } else {
        match find_entry(es.drop_last(), kind, key, value) {
            Some(i) => Some(i),
            None => if es.last().record_kind == kind && crate::recovery::field(es.last(), key) == Some(value) {
                Some(es.len() - 1)
            } else {
                None
            },
        }
    }
}

/// The actor who requested the work an approval gates, per the ledger:
/// the approval request's decision, and that decision's bound principal.
pub open spec fn submitter_of(es: Seq<crate::recovery::EntryView>, approval_id: Seq<char>) -> Option<Seq<char>> {
    match find_entry(es, "approval_request"@, "approval_id"@, approval_id) {
        None => None,
        Some(i) => match crate::recovery::field(es[i], "decision_id"@) {
            None => None,
            Some(d) => match find_entry(es, "authority_decision"@, "decision_id"@, d) {
                None => None,
                Some(k) => jstr(jget_opt(jget(es[k].payload, "identity_binding"@), "principal"@)),
            },
        },
    }
}

proof fn lemma_find_entry(es: Seq<crate::recovery::EntryView>, kind: Seq<char>, key: Seq<char>, value: Seq<char>)
    ensures
        forall|i: int| 0 <= i < es.len() && (#[trigger] es[i]).record_kind == kind && crate::recovery::field(es[i], key) == Some(value)
            && (forall|j: int| 0 <= j < i ==> !((#[trigger] es[j]).record_kind == kind && crate::recovery::field(es[j], key) == Some(value)))
            ==> find_entry(es, kind, key, value) == Some(i),
        (forall|j: int| 0 <= j < es.len() ==> !((#[trigger] es[j]).record_kind == kind && crate::recovery::field(es[j], key) == Some(value)))
            ==> find_entry(es, kind, key, value) is None,
    decreases es.len(),
{
    if es.len() > 0 {
        lemma_find_entry(es.drop_last(), kind, key, value);
        assert forall|j: int| 0 <= j < es.len() - 1 implies es.drop_last()[j] == #[trigger] es[j] by {}
    }
}

fn find_entry_exec(entries: &Vec<crate::recovery::LedgerEntry>, kind: &str, key: &str, value: &str) -> (r: Option<usize>)
    ensures
        r matches Some(i) ==> i < entries@.len(),
        match r {
            Some(i) => find_entry(crate::recovery::entries_view(entries@), kind@, key@, value@) == Some(i as int),
            None => find_entry(crate::recovery::entries_view(entries@), kind@, key@, value@) is None,
        },
{
    let ghost ev = crate::recovery::entries_view(entries@);
    proof {
        lemma_find_entry(ev, kind@, key@, value@);
    }
    let mut i: usize = 0;
    while i < entries.len()
        invariant
            ev == crate::recovery::entries_view(entries@),
            i <= ev.len(),
            forall|j: int| 0 <= j < i ==> !((#[trigger] ev[j]).record_kind == kind@ && crate::recovery::field(ev[j], key@) == Some(value@)),
            forall|m: int| 0 <= m < ev.len() && (#[trigger] ev[m]).record_kind == kind@ && crate::recovery::field(ev[m], key@) == Some(value@)
                && (forall|j: int| 0 <= j < m ==> !((#[trigger] ev[j]).record_kind == kind@ && crate::recovery::field(ev[j], key@) == Some(value@)))
                ==> find_entry(ev, kind@, key@, value@) == Some(m),
            (forall|j: int| 0 <= j < ev.len() ==> !((#[trigger] ev[j]).record_kind == kind@ && crate::recovery::field(ev[j], key@) == Some(value@)))
                ==> find_entry(ev, kind@, key@, value@) is None,
        decreases ev.len() - i,
    {
        let e = &entries[i];
        proof {
            assert(ev[i as int] == e@);
        }
        let hit = str_eq(e.record_kind.as_str(), kind) && match get_str(&e.payload, key) {
            Some(v) => str_eq(v, value),
            None => false,
        };
        if hit {
            return Some(i);
        }
        i += 1;
    }
    None
}

/// The actor who requested the work approval `approval_id` gates, per the
/// ledger's entries; none when the chain cannot be completed.
pub fn approval_submitter_in(entries: &Vec<crate::recovery::LedgerEntry>, approval_id: &str) -> (r: Option<String>)
    ensures
        crate::envelope::opt_string_view(r) == submitter_of(crate::recovery::entries_view(entries@), approval_id@),
{
    let ghost ev = crate::recovery::entries_view(entries@);
    let i = match find_entry_exec(entries, "approval_request", "approval_id", approval_id) {
        Some(i) => i,
        None => {
            return None;
        },
    };
    proof {
        assert(ev[i as int] == entries@[i as int]@);
    }
    let d = match get_str(&entries[i].payload, "decision_id") {
        Some(d) => d,
        None => {
            return None;
        },
    };
    let k = match find_entry_exec(entries, "authority_decision", "decision_id", d) {
        Some(k) => k,
        None => {
            return None;
        },
    };
    proof {
        assert(ev[k as int] == entries@[k as int]@);
    }
    match as_str_opt(get_opt(get(&entries[k].payload, "identity_binding"), "principal")) {
        Some(p) => Some(owned(p)),
        None => None,
    }
}

fn as_str_opt<'a>(v: Option<&'a Json>) -> (r: Option<&'a str>)
    ensures
        crate::json::opt_str_view(r) == jstr(crate::json::opt_view(v)),
{
    crate::json::as_str(v)
}


/// The bindings of `uid`, in configuration order.
pub open spec fn bound_to(bs: Seq<BindingView>, uid: u32) -> Seq<BindingView>
    decreases bs.len(),
{
    if bs.len() == 0 {
        Seq::empty()
    } else if bs.last().uid == uid {
        bound_to(bs.drop_last(), uid).push(bs.last())
    } else {
        bound_to(bs.drop_last(), uid)
    }
}

proof fn lemma_available_reads_only_its_uid(bs: Seq<BindingView>, uid: u32)
    ensures
        available_for(bs, uid) == available_for(bound_to(bs, uid), uid),
    decreases bs.len(),
{
    if bs.len() > 0 {
        lemma_available_reads_only_its_uid(bs.drop_last(), uid);
        let b = bound_to(bs.drop_last(), uid);
        if bs.last().uid == uid {
            assert(b.push(bs.last()).drop_last() =~= b);
        }
    }
}

/// A peer's description reads only its own uid's bindings: two non-empty
/// configurations that bind that uid alike describe it alike, whatever they
/// bind to other uids.
pub proof fn law_description_ignores_other_uids(bs1: Seq<BindingView>, bs2: Seq<BindingView>, p: PeerIdentity)
    requires
        bs1.len() > 0,
        bs2.len() > 0,
        bound_to(bs1, p.uid) == bound_to(bs2, p.uid),
    ensures
        description(bs1, Some(p)) == description(bs2, Some(p)),
{
    lemma_available_reads_only_its_uid(bs1, p.uid);
    lemma_available_reads_only_its_uid(bs2, p.uid);
}

/// A description refuses exactly when nothing is available to claim; an
/// unknown peer is unverifiable, and a known peer of an empty configuration
/// is unconfigured.
pub proof fn law_description_refuses_exactly_when_nothing_is_available(bs: Seq<BindingView>, peer: Option<PeerIdentity>)
    ensures
        (description(bs, peer).refusal is Some) == (description(bs, peer).available.len() == 0),
        peer is None ==> (description(bs, peer).refusal matches Some(r) && r.0 == refusal_class(RefusalKind::UnknownPeer)),
        peer is Some && bs.len() == 0 ==> !description(bs, peer).configured,
        peer is Some && bs.len() == 0 ==> (description(bs, peer).refusal matches Some(r) && r.0 == refusal_class(
            RefusalKind::Unconfigured,
        )),
{
}

} // verus!
