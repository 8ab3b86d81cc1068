//! The server's configuration: its defaults, and where its socket lives.
//! A relative socket path composes under the cell root, so one root names
//! one socket; an absolute one is an explicit override.
use vstd::prelude::*;
use crate::agent_probe::{path_join, path_join_exec};
use crate::identity::IdentityBindings;
use crate::text::{owned, concat2, concat3, decimal, decimal_exec};
use vstd::string::StrSliceExecFns;

verus! {

/// The socket file name inside a cell root.
pub const SOCKET_FILE_NAME: &'static str = "server.sock";

/// Why a command line with arguments is refused.
pub const NO_ARGUMENTS_MESSAGE: &'static str = "sea-forge-server takes no arguments";

/// The server has no command-line contract (configuration comes from the
/// environment and `server.yaml`): a command line is accepted when it holds
/// at most the program name.
pub fn reject_command_line_arguments(arguments: &Vec<String>) -> (r: Result<(), &'static str>)
    ensures
        r is Ok <==> arguments@.len() <= 1,
        r matches Err(m) ==> m@ == "sea-forge-server takes no arguments"@,
{
    if arguments.len() > 1 {
        proof {
            reveal_strlit("sea-forge-server takes no arguments");
        }
        Err(NO_ARGUMENTS_MESSAGE)
    } else {
        Ok(())
    }
}

/// The conventional cell root, relative to the current directory.
pub const DEFAULT_ROOT_DIR: &'static str = ".sea-forge";

pub fn default_max_concurrent() -> (r: usize)
    ensures
        r == 4,
{
    4
}

pub fn default_socket_path() -> (r: String)
    ensures
        r@ == "server.sock"@,
{
    owned(SOCKET_FILE_NAME)
}

pub fn default_approval_ttl() -> (r: u64)
    ensures
        r == 24,
{
    24
}

pub fn default_root() -> (r: String)
    ensures
        r@ == ".sea-forge"@,
{
    owned(DEFAULT_ROOT_DIR)
}

/// The server configuration, as far as the library reads it (the agent
/// endpoint configuration is read where the endpoints are used).
pub struct ServerConfig {
    pub max_concurrent_runs: usize,
    pub socket_path: String,
    pub notify_command: Option<Vec<String>>,
    pub approval_ttl_hours: u64,
    pub root: String,
    /// uid-to-actor bindings for protected verbs; none refuses every one.
    pub identity: IdentityBindings,
}

impl ServerConfig {
    /// The default configuration: four concurrent runs, `server.sock` under
    /// the `.sea-forge` root, a 24-hour approval window, no notify command
    /// and no identity bindings.
    pub fn default_config() -> (r: ServerConfig)
        ensures
            r.max_concurrent_runs == 4,
            r.socket_path@ == "server.sock"@,
            r.notify_command is None,
            r.approval_ttl_hours == 24,
            r.root@ == ".sea-forge"@,
            r.identity.bindings@.len() == 0,
    {
        ServerConfig {
            max_concurrent_runs: default_max_concurrent(),
            socket_path: default_socket_path(),
            notify_command: None,
            approval_ttl_hours: default_approval_ttl(),
            root: default_root(),
            identity: IdentityBindings { bindings: Vec::new() },
        }
    }
}

pub open spec fn is_absolute(p: Seq<char>) -> bool {
    p.len() > 0 && p[0] == '/'
}

/// A path made absolute against the working directory, when one is known.
pub open spec fn absolutized(p: Seq<char>, cwd: Option<Seq<char>>) -> Seq<char> {
    if is_absolute(p) {
        p
    } else {
        match cwd {
            Some(c) => path_join(c, p),
            None => p,
        }
    }
}

/// The one socket path a configuration names: an absolute `socket_path` as
/// given, else `socket_path` under the root, made absolute against the
/// working directory (`cwd`, none when it cannot be read).
pub open spec fn socket_path_of(root: Seq<char>, socket_path: Seq<char>, cwd: Option<Seq<char>>) -> Seq<char> {
    if is_absolute(socket_path) {
        socket_path
    } else {
        absolutized(path_join(root, socket_path), cwd)
    }
}

fn absolutize(p: String, cwd: Option<&str>) -> (r: String)
    ensures
        r@ == absolutized(p@, crate::json::opt_str_view(cwd)),
{
    if p.unicode_len() > 0 && p.as_str().get_char(0) == '/' {
        return p;
    }
    match cwd {
        Some(c) => path_join_exec(c, p.as_str()),
        None => p,
    }
}

impl ServerConfig {
    pub fn resolved_socket_path(&self, cwd: Option<&str>) -> (r: String)
        ensures
            r@ == socket_path_of(self.root@, self.socket_path@, crate::json::opt_str_view(cwd)),
    {
        if self.socket_path.unicode_len() > 0 && self.socket_path.as_str().get_char(0) == '/' {
            return self.socket_path.clone();
        }
        absolutize(path_join_exec(self.root.as_str(), self.socket_path.as_str()), cwd)
    }
}

/// The cell root: `SEA_FORGE_ROOT` when set, else `.sea-forge`, made
/// absolute against the working directory.
pub fn resolve_cell_root(env_root: Option<&str>, cwd: Option<&str>) -> (r: String)
    ensures
        r@ == absolutized(
            match env_root {
                Some(x) => x@,
                None => ".sea-forge"@,
            },
            crate::json::opt_str_view(cwd),
        ),
{
    let root = match env_root {
        Some(x) => owned(x),
        None => default_root(),
    };
    absolutize(root, cwd)
}

/// The `SEA_FORGE_SOCKET` override, made absolute, when one is set.
pub fn resolve_socket_override(env_socket: Option<&str>, cwd: Option<&str>) -> (r: Option<String>)
    ensures
        match env_socket {
            Some(x) => r matches Some(p) && p@ == absolutized(x@, crate::json::opt_str_view(cwd)),
            None => r is None,
        },
{
    match env_socket {
        Some(x) => Some(absolutize(owned(x), cwd)),
        None => None,
    }
}

/// The socket-path budget: the smaller platform `sun_path` capacity (104),
/// less the NUL terminator, less the longest suffix (`.binding`) appended
/// before binding.
pub open spec fn socket_budget() -> int {
    104 - 1 - 8
}

pub open spec fn socket_too_long_message(path: Seq<char>, length: nat) -> Seq<char> {
    "socket path is "@ + decimal(length) + " bytes but a Unix socket allows at most 95: "@ + path
        + "\nChoose a shorter cell root (SEA_FORGE_ROOT), or point SEA_FORGE_SOCKET at a short path such as /run/user/$UID/sea-forge.sock while keeping records where they are."@
}

/// Refuse, before any side effect, a socket path that cannot fit a Unix
/// socket address with its longest suffix.
pub fn check_socket_path_length(socket_path: &str) -> (r: Result<(), String>)
    ensures
        match r {
            Ok(()) => crate::delegation::byte_len(socket_path@) <= socket_budget(),
            Err(m) => crate::delegation::byte_len(socket_path@) > socket_budget() && m@ == socket_too_long_message(
                socket_path@,
                crate::delegation::byte_len(socket_path@) as nat,
            ),
        },
{
    let length = socket_path.as_bytes().len();
    if length <= 95 {
        return Ok(());
    }
    let n = decimal_exec(length as u64);
    let mut m = concat3("socket path is ", n.as_str(), " bytes but a Unix socket allows at most 95: ");
    m.append(socket_path);
    m.append(
        "\nChoose a shorter cell root (SEA_FORGE_ROOT), or point SEA_FORGE_SOCKET at a short path such as /run/user/$UID/sea-forge.sock while keeping records where they are.",
    );
    Err(m)
}

/// The program a notify command runs: its first argument, if any.
pub fn notify_program(argv: Option<&Vec<String>>) -> (r: Option<String>)
    ensures
        match argv {
            Some(v) if v@.len() > 0 => r matches Some(p) && p@ == v@[0]@,
            _ => r is None,
        },
{
    match argv {
        Some(v) => if v.len() > 0 {
            Some(v[0].clone())
        } else {
            None
        },
        None => None,
    }
}

/// The refusal of a notify command whose program cannot be found.
pub fn notify_not_found(program: &str) -> (r: String)
    ensures
        r@ == "notify_command argv0 not found: "@ + program@
            + "\nFix or remove `notify_command` in server.yaml. A relative name is resolved against PATH; use an absolute path to pin it."@,
{
    let mut m = concat2("notify_command argv0 not found: ", program);
    m.append(
        "\nFix or remove `notify_command` in server.yaml. A relative name is resolved against PATH; use an absolute path to pin it.",
    );
    m
}

/// Every surface names the same socket whatever its working directory: with
/// an absolute working directory, the resolved socket path is absolute.
pub proof fn law_resolved_socket_path_is_absolute(root: Seq<char>, socket_path: Seq<char>, cwd: Seq<char>)
    requires
        is_absolute(cwd),
    ensures
        is_absolute(socket_path_of(root, socket_path, Some(cwd))),
{
    let joined = path_join(root, socket_path);
    if !is_absolute(socket_path) && !is_absolute(joined) {
        let r = path_join(cwd, joined);
        if cwd.last() == '/' {
            assert(r == cwd + joined);
            assert(r[0] == cwd[0]);
        } else {
            assert(r == cwd + "/"@ + joined);
            assert(r[0] == cwd[0]);
        }
    }
}

/// Relocating the root relocates the socket: a relative socket path
/// composes under the root.
pub proof fn law_relative_socket_composes_under_root(root: Seq<char>, socket_path: Seq<char>)
    requires
        is_absolute(root),
        !is_absolute(socket_path),
        root.last() != '/',
    ensures
        socket_path_of(root, socket_path, None) == root + "/"@ + socket_path,
{
    let j = root + "/"@ + socket_path;
    assert(j[0] == root[0]);
}

} // verus!
