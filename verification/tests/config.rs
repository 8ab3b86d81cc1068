use sea_forge_server::config::{
    check_socket_path_length, notify_not_found, reject_command_line_arguments, NO_ARGUMENTS_MESSAGE, notify_program, resolve_cell_root, resolve_socket_override,
    ServerConfig,
};

fn config_at(root: &str) -> ServerConfig {
    let mut config = ServerConfig::default_config();
    config.root = root.into();
    config
}

#[test]
fn relative_socket_path_composes_under_root() {
    let config = config_at("/tmp/cell");
    assert_eq!(
        config.resolved_socket_path(Some("/home/op")),
        "/tmp/cell/server.sock",
        "relocating the root must relocate the socket with it"
    );
}

#[test]
fn absolute_socket_path_is_honored_verbatim() {
    let mut config = config_at("/tmp/cell");
    config.socket_path = "/run/user/1000/sea-forge.sock".into();
    assert_eq!(config.resolved_socket_path(Some("/home/op")), "/run/user/1000/sea-forge.sock");
}

#[test]
fn resolved_socket_path_is_always_absolute() {
    let config = ServerConfig::default_config();
    assert!(
        config.resolved_socket_path(Some("/home/op")).starts_with('/'),
        "every surface must name the same socket regardless of its CWD"
    );
}

#[test]
fn default_layout_matches_the_conventional_cell() {
    let config = ServerConfig::default_config();
    assert_eq!(config.resolved_socket_path(Some("/home/op/project")), "/home/op/project/.sea-forge/server.sock");
}

#[test]
fn a_bindable_socket_path_is_accepted() {
    assert!(check_socket_path_length("/tmp/cell/server.sock").is_ok());
}

#[test]
fn an_overlong_socket_path_is_rejected_with_the_fix_named() {
    let long = format!("/tmp/{}/server.sock", "x".repeat(120));
    let message = check_socket_path_length(&long).unwrap_err();
    assert!(message.contains("SEA_FORGE_ROOT"), "{message}");
    assert!(message.contains("SEA_FORGE_SOCKET"), "{message}");
}

#[test]
fn the_budget_leaves_room_for_the_binding_suffix() {
    // `.binding` is the longest suffix appended before bind().
    let budget = 104 - 1 - ".binding".len();

    let at_budget = format!("/{}", "y".repeat(budget - 1));
    assert_eq!(at_budget.len(), budget);
    assert!(check_socket_path_length(&at_budget).is_ok());

    let over = format!("/{}", "y".repeat(budget));
    assert_eq!(over.len(), budget + 1);
    assert!(check_socket_path_length(&over).is_err());
}

// ---------------------------------------------------------------------------
// further cases
// ---------------------------------------------------------------------------

#[test]
fn the_default_configuration_is_the_documented_one() {
    let config = ServerConfig::default_config();
    assert_eq!(config.max_concurrent_runs, 4);
    assert_eq!(config.approval_ttl_hours, 24);
    assert_eq!(config.socket_path, "server.sock");
    assert_eq!(config.root, ".sea-forge");
    assert!(config.notify_command.is_none());
    assert!(config.identity.bindings.is_empty());
}

#[test]
fn an_overlong_socket_message_gives_the_length_and_the_limit() {
    let path = format!("/{}", "z".repeat(99));
    let message = check_socket_path_length(&path).unwrap_err();
    assert!(message.starts_with("socket path is 100 bytes but a Unix socket allows at most 95: /zzz"), "{message}");
}

#[test]
fn the_cell_root_and_socket_override_are_made_absolute() {
    assert_eq!(resolve_cell_root(None, Some("/w")), "/w/.sea-forge");
    assert_eq!(resolve_cell_root(Some("/abs/cell"), Some("/w")), "/abs/cell");
    assert_eq!(resolve_cell_root(Some("rel"), None), "rel");
    assert_eq!(resolve_socket_override(Some("s.sock"), Some("/w")), Some("/w/s.sock".to_string()));
    assert_eq!(resolve_socket_override(None, Some("/w")), None);
}

#[test]
fn the_notify_program_is_the_first_argument() {
    assert_eq!(notify_program(None), None);
    assert_eq!(notify_program(Some(&Vec::new())), None);
    assert_eq!(notify_program(Some(&vec!["notify-send".to_string(), "x".to_string()])), Some("notify-send".to_string()));
    assert!(notify_not_found("nope").starts_with("notify_command argv0 not found: nope\n"));
}

#[test]
fn accepts_program_name_only() {
    assert_eq!(reject_command_line_arguments(&vec!["sea-forge-server".to_string()]), Ok(()));
}

#[test]
fn rejects_extra_command_line_arguments() {
    let arguments = vec!["sea-forge-server".to_string(), "--version".to_string()];
    assert_eq!(reject_command_line_arguments(&arguments), Err(NO_ARGUMENTS_MESSAGE));
}
