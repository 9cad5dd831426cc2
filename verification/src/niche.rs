//! Self-knowledge of the composition: identity, the capabilities it
//! exposes, family scoping and the naming of its sockets.

use vstd::prelude::*;
use vstd::string::*;

use crate::text::str_eq;

verus! {

/// Primal identity name (socket naming, registration, logging).
pub const NICHE_NAME: &'static str = "esotericwebb";

/// Capability domain: the composition's own methods live under this.
pub const NICHE_DOMAIN: &'static str = "narrative";

/// Conventional directory name for ecosystem IPC sockets.
pub const ECOSYSTEM_SOCKET_DIR: &'static str = "biomeos";

/// All capabilities this composition exposes.
pub const CAPABILITIES: [&'static str; 24] = [
    "health.liveness",
    "health.readiness",
    "health.check",
    "health.version",
    "health.drain",
    "identity.get",
    "capabilities.list",
    "primal.announce",
    "primal.info",
    "webb.health",
    "webb.liveness",
    "webb.readiness",
    "webb.scene.current",
    "webb.narrative.status",
    "webb.content.list",
    "session.start",
    "session.state",
    "session.actions",
    "session.act",
    "session.history",
    "session.narrate",
    "session.graph",
    "tools.list",
    "tools.call",
];

/// `name` under the directory `base`: `name` alone when `base` is empty,
/// one separator between them otherwise.
pub open spec fn path_join(base: Seq<char>, name: Seq<char>) -> Seq<char> {
    if base.len() == 0 {
        name
    } else if base.last() == '/' {
        base + name
    } else {
        base + "/"@ + name
    }
}

/// The family ID: the first setting present, else `default`.
pub open spec fn family_id_of(family: Option<&str>, biomeos_family: Option<&str>) -> Seq<char> {
    match family {
        Some(f) => f@,
        None => match biomeos_family {
            Some(b) => b@,
            None => "default"@,
        },
    }
}

/// The socket file name for a family: `esotericwebb.sock` for the default
/// family, `esotericwebb-<family>.sock` otherwise.
pub open spec fn server_socket_name_of(fid: Seq<char>) -> Seq<char> {
    if fid == "default"@ {
        "esotericwebb.sock"@
    } else {
        "esotericwebb-"@ + fid + ".sock"@
    }
}

/// The socket directories in priority order: the explicit ecosystem
/// directory, the runtime directory's `biomeos`, the user-scoped
/// directory under the temporary directory, the temporary directory.
pub open spec fn socket_dirs_of(
    socket_dir: Option<&str>,
    runtime_dir: Option<&str>,
    user: Option<&str>,
    temp_dir: Seq<char>,
) -> Seq<Seq<char>> {
    let a: Seq<Seq<char>> = match socket_dir {
        Some(d) => seq![d@],
        None => Seq::empty(),
    };
    let b: Seq<Seq<char>> = match runtime_dir {
        Some(x) => seq![path_join(x@, "biomeos"@)],
        None => Seq::empty(),
    };
    let u = match user {
        Some(u) => u@,
        None => "unknown"@,
    };
    a + b + seq![path_join(temp_dir, "biomeos-"@ + u), temp_dir]
}

/// The server socket path: the explicit override, else the family's
/// socket name in the first usable directory, else in the temporary
/// directory.
pub open spec fn server_socket_of(
    explicit: Option<&str>,
    fid: Seq<char>,
    usable_dir: Option<&str>,
    temp_dir: Seq<char>,
) -> Seq<char> {
    match explicit {
        Some(e) => e@,
        None => match usable_dir {
            Some(d) => path_join(d@, server_socket_name_of(fid)),
            None => path_join(temp_dir, server_socket_name_of(fid)),
        },
    }
}

/// `name` under the directory `base`.
pub fn join_path(base: &str, name: &str) -> (r: String)
    ensures
        r@ == path_join(base@, name@),
{
    let n = base.unicode_len();
    if n == 0 {
        return name.to_owned();
    }
    let mut s = base.to_owned();
    if base.get_char(n - 1) != '/' {
        s.append("/");
    }
    s.append(name);
    s
}

/// The biomeOS family ID: the first of the two settings present, else
/// `default`.
pub fn family_id(family: Option<&str>, biomeos_family: Option<&str>) -> (r: String)
    ensures
        r@ == family_id_of(family, biomeos_family),
{
    match family {
        Some(f) => f.to_owned(),
        None => match biomeos_family {
            Some(b) => b.to_owned(),
            None => String::from_str("default"),
        },
    }
}

/// The server socket file name for a family.
pub fn server_socket_name(fid: &str) -> (r: String)
    ensures
        r@ == server_socket_name_of(fid@),
{
    if str_eq(fid, "default") {
        String::from_str("esotericwebb.sock")
    } else {
        let mut s = String::from_str("esotericwebb-");
        s.append(fid);
        s.append(".sock");
        s
    }
}

/// Socket directories in priority order, from the settings that name
/// them and the temporary directory.
pub fn socket_dirs(
    socket_dir: Option<&str>,
    runtime_dir: Option<&str>,
    user: Option<&str>,
    temp_dir: &str,
) -> (r: Vec<String>)
    ensures
        r@.map_values(|s: String| s@) == socket_dirs_of(socket_dir, runtime_dir, user, temp_dir@),
{
    let mut dirs: Vec<String> = Vec::new();
    match socket_dir {
        Some(d) => dirs.push(d.to_owned()),
        None => {},
    }
    match runtime_dir {
        Some(x) => dirs.push(join_path(x, "biomeos")),
        None => {},
    }
    let mut scoped = String::from_str("biomeos-");
    match user {
        Some(u) => scoped.append(u),
        None => scoped.append("unknown"),
    }
    dirs.push(join_path(temp_dir, scoped.as_str()));
    dirs.push(temp_dir.to_owned());
    proof {
        assert(dirs@.map_values(|s: String| s@) =~= socket_dirs_of(socket_dir, runtime_dir, user, temp_dir@));
    }
    dirs
}

/// Resolve the server socket path: the explicit override, else the
/// family's socket name in the first usable socket directory, else in the
/// temporary directory.
pub fn resolve_server_socket(
    explicit: Option<&str>,
    fid: &str,
    usable_dir: Option<&str>,
    temp_dir: &str,
) -> (r: String)
    ensures
        r@ == server_socket_of(explicit, fid@, usable_dir, temp_dir@),
{
    match explicit {
        Some(e) => e.to_owned(),
        None => {
            let name = server_socket_name(fid);
            match usable_dir {
                Some(d) => join_path(d, name.as_str()),
                None => join_path(temp_dir, name.as_str()),
            }
        },
    }
}

/// The Neural API socket file name for a family: `neural-api-<family>.sock`.
pub fn neural_api_socket_name(fid: &str) -> (r: String)
    ensures
        r@ == "neural-api-"@ + fid@ + ".sock"@,
{
    let mut s = String::from_str("neural-api-");
    s.append(fid);
    s.append(".sock");
    s
}

} // verus!
