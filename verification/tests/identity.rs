use sea_forge_server::identity::{
    ActorClaim, ActorRole, IdentityBinding, IdentityBindings, IdentityRefusal, PeerIdentity, ResolvedActor,
};
use sea_forge_server::json::render_exec;

fn bindings() -> IdentityBindings {
    IdentityBindings {
        bindings: vec![
            IdentityBinding { uid: 1000, actor_id: "operator_local".into(), roles: vec![ActorRole::operator()] },
            IdentityBinding { uid: 1001, actor_id: "reviewer_local".into(), roles: vec![ActorRole::operator()] },
        ],
    }
}

fn claim(actor_id: &str, role: ActorRole) -> ActorClaim {
    ActorClaim { actor_id: actor_id.into(), role }
}

fn resolved(r: Result<ResolvedActor, IdentityRefusal>, why: &str) -> ResolvedActor {
    match r {
        Ok(a) => a,
        Err(e) => panic!("{why}: refused with {}", e.error_class()),
    }
}

fn refused(r: Result<ResolvedActor, IdentityRefusal>, why: &str) -> IdentityRefusal {
    match r {
        Ok(a) => panic!("{why}: resolved {}", a.actor_id()),
        Err(e) => e,
    }
}

#[test]
fn a_bound_actor_on_its_own_uid_resolves() {
    let resolved = resolved(
        bindings().resolve(Some(&claim("operator_local", ActorRole::operator())), Some(PeerIdentity { uid: 1000 })),
        "bound actor must resolve",
    );
    assert_eq!(resolved.actor_id(), "operator_local");
    assert_eq!(resolved.uid(), 1000);
}

#[test]
fn a_claim_for_another_uids_actor_is_refused() {
    let refusal = refused(
        bindings().resolve(Some(&claim("reviewer_local", ActorRole::operator())), Some(PeerIdentity { uid: 1000 })),
        "uid 1000 must not be able to act as reviewer_local",
    );
    assert_eq!(refusal.error_class(), "identity_not_bound");
}

#[test]
fn a_role_the_actor_does_not_hold_is_refused() {
    let refusal = refused(
        bindings()
            .resolve(Some(&claim("operator_local", ActorRole::security_officer())), Some(PeerIdentity { uid: 1000 })),
        "operator_local holds only operator",
    );
    assert_eq!(refusal.error_class(), "identity_role_not_held");
}

#[test]
fn a_missing_claim_is_refused_before_anything_else() {
    let refusal = refused(bindings().resolve(None, Some(PeerIdentity { uid: 1000 })), "no claim, no protected work");
    assert_eq!(refusal.error_class(), "identity_required");
}

#[test]
fn an_unverifiable_peer_is_refused_even_with_a_valid_claim() {
    let refusal = refused(
        bindings().resolve(Some(&claim("operator_local", ActorRole::operator())), None),
        "nothing to check the claim against",
    );
    assert_eq!(refusal.error_class(), "identity_unverifiable");
}

#[test]
fn an_unconfigured_cell_refuses_every_protected_verb() {
    let refusal = refused(
        IdentityBindings { bindings: Vec::new() }
            .resolve(Some(&claim("operator_local", ActorRole::operator())), Some(PeerIdentity { uid: 1000 })),
        "an unconfigured cell must not authorize",
    );
    assert_eq!(refusal.error_class(), "identity_unconfigured");
}

#[test]
fn a_binding_with_no_roles_authorizes_nothing() {
    let suspended = IdentityBindings {
        bindings: vec![IdentityBinding { uid: 1000, actor_id: "operator_local".into(), roles: vec![] }],
    };
    let refusal = refused(
        suspended.resolve(Some(&claim("operator_local", ActorRole::operator())), Some(PeerIdentity { uid: 1000 })),
        "a suspended actor holds no role",
    );
    assert_eq!(refusal.error_class(), "identity_role_not_held");
}

// ---------------------------------------------------------------------------
// further cases
// ---------------------------------------------------------------------------

#[test]
fn refusal_messages_name_the_actor_and_the_fix() {
    let not_bound = IdentityRefusal::NotBound { actor_id: "reviewer_local".into(), uid: 1000 };
    assert_eq!(not_bound.message(), "actor `reviewer_local` is not bound to uid 1000 in this cell");
    let role = IdentityRefusal::RoleNotHeld { actor_id: "operator_local".into(), role: ActorRole::security_officer() };
    assert_eq!(role.message(), "actor `operator_local` does not hold the role SecurityOfficer it claimed");
    let self_approval =
        IdentityRefusal::SelfApproval { actor_id: "operator_local".into(), approval_id: "apr_0001".into() };
    assert_eq!(self_approval.error_class(), "separation_of_duty");
    let mismatch = IdentityRefusal::EntityMismatch { actor_id: "a".into(), entity: "b".into() };
    assert_eq!(mismatch.error_class(), "identity_entity_mismatch");
}

#[test]
fn a_refusal_response_states_that_nothing_happened() {
    let body = IdentityRefusal::Unconfigured.response();
    let text = render_exec(&body, false);
    assert!(text.contains(r#""error_class":"identity_unconfigured""#));
    assert!(text.contains(r#""no_side_effect":true"#));
}

#[test]
fn the_first_binding_of_a_uid_and_actor_decides() {
    let b = IdentityBindings {
        bindings: vec![
            IdentityBinding { uid: 7, actor_id: "a".into(), roles: vec![] },
            IdentityBinding { uid: 7, actor_id: "a".into(), roles: vec![ActorRole::operator()] },
        ],
    };
    let refusal =
        refused(b.resolve(Some(&claim("a", ActorRole::operator())), Some(PeerIdentity { uid: 7 })), "first binding");
    assert_eq!(refusal.error_class(), "identity_role_not_held");
}

#[test]
fn a_local_operator_binding_exists_only_for_a_known_uid() {
    assert!(IdentityBindings::local_operator_for("me", None).is_empty());
    let b = IdentityBindings::local_operator_for("me", Some(42));
    let r = resolved(b.resolve(Some(&claim("me", ActorRole::operator())), Some(PeerIdentity { uid: 42 })), "local");
    assert_eq!(r.role().wire_name, "operator");
}

#[test]
fn describing_a_connection_lists_what_it_may_claim() {
    let view = bindings().describe(Some(PeerIdentity { uid: 1001 }));
    assert_eq!(view.uid, Some(1001));
    assert!(view.configured);
    assert_eq!(view.available.len(), 1);
    assert_eq!(view.available[0].actor_id, "reviewer_local");
    assert_eq!(view.available[0].roles, vec!["operator".to_string()]);
    assert!(view.refusal.is_none());
    let unknown = bindings().describe(None);
    assert_eq!(unknown.refusal.map(|r| r.error_class), Some("identity_unverifiable".to_string()));
}

#[test]
fn a_description_reads_only_its_own_uids_bindings() {
    let other = IdentityBindings {
        bindings: vec![
            IdentityBinding { uid: 7, actor_id: "someone_else".into(), roles: vec![ActorRole::operator()] },
            IdentityBinding { uid: 1001, actor_id: "reviewer_local".into(), roles: vec![ActorRole::operator()] },
        ],
    };
    let a = bindings().describe(Some(PeerIdentity { uid: 1001 }));
    let b = other.describe(Some(PeerIdentity { uid: 1001 }));
    assert_eq!(a.available.len(), b.available.len());
    assert_eq!(a.available[0].actor_id, b.available[0].actor_id);
    assert_eq!(a.configured, b.configured);
    assert_eq!(a.refusal.is_none(), b.refusal.is_none());
    let empty = IdentityBindings { bindings: Vec::new() };
    let unconfigured = empty.describe(Some(PeerIdentity { uid: 1001 }));
    assert!(!unconfigured.configured);
    assert_eq!(unconfigured.refusal.map(|r| r.error_class), Some("identity_unconfigured".to_string()));
}
