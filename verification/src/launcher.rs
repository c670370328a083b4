//! Launch orchestration: platform resolution, script path construction, port
//! acquisition, and the human-readable outcome of a launch.
//!
//! Starting the child process itself is operating-system work and is left to
//! the (unverified) shell around this library; everything the shell needs is
//! computed here, handed over as a [`LaunchPlan`], and the spawn's outcome is
//! handed back to [`finish_launch`].

use vstd::prelude::*;
use crate::allocator::find_free_port;
use crate::allocator::PORT_RANGE_END;
use crate::allocator::PORT_RANGE_START;
use crate::table::PortTable;
use crate::text::dec_str;
use crate::text::decimal_string;

verus! {

/// The host platform, as resolved by the shell around the library.
#[derive(Clone, Copy, Debug, PartialEq, Eq)]
pub enum Platform {
    Windows,
    MacOs,
    Linux,
    /// Any other operating system; launching is refused there.
    Unsupported,
}

/// Why a launch failed.
#[derive(Debug, PartialEq, Eq)]
pub enum LaunchError {
    /// The host operating system is neither Windows, macOS nor Linux.
    UnsupportedPlatform,
    /// Every port in the range is already assigned.
    NoFreePorts,
    /// The operating system rejected process creation; carries the OS error
    /// text.
    SpawnFailed(String),
}

/// Whether launching is possible on `p`.
pub open spec fn supported(p: Platform) -> bool {
    !(p is Unsupported)
}

/// The command interpreter used on `p`.
pub open spec fn interpreter_spec(p: Platform) -> Seq<char> {
    match p {
        Platform::Windows => "cmd"@,
        _ => "sh"@,
    }
}

/// The script file extension used on `p`.
pub open spec fn extension_spec(p: Platform) -> Seq<char> {
    match p {
        Platform::Windows => ".bat"@,
        _ => ".sh"@,
    }
}

/// The script path for an application: `apps/<name>/run<extension>`.
pub open spec fn script_path_spec(name: Seq<char>, p: Platform) -> Seq<char> {
    "apps/"@ + name + "/run"@ + extension_spec(p)
}

/// The success text handed to the caller: `<name> launched on port <port>`.
pub open spec fn success_message_spec(name: Seq<char>, port: nat) -> Seq<char> {
    name + " launched on port "@ + dec_str(port)
}

/// The failure text handed to the caller.
pub open spec fn error_message_spec(e: LaunchError, name: Seq<char>) -> Seq<char> {
    match e {
        LaunchError::UnsupportedPlatform => "Unsupported operating system"@,
        LaunchError::NoFreePorts => "No free ports available"@,
        LaunchError::SpawnFailed(t) => "Failed to launch "@ + name + ": "@ + t@,
    }
}

/// The command interpreter for a supported platform.
pub fn interpreter_for(p: Platform) -> (r: &'static str)
    requires
        supported(p),
    ensures
        r@ == interpreter_spec(p),
{
    match p {
        Platform::Windows => "cmd",
        _ => "sh",
    }
}

/// Builds the script path `apps/<name>/run<extension>`.
pub fn script_path(app_name: &str, platform: Platform) -> (r: String)
    requires
        supported(platform),
    ensures
        r@ == script_path_spec(app_name@, platform),
{
    let mut s = String::from_str("apps/");
    s.append(app_name);
    s.append("/run");
    match platform {
        Platform::Windows => s.append(".bat"),
        _ => s.append(".sh"),
    }
    proof {
        assert(s@ =~= script_path_spec(app_name@, platform));
    }
    s
}

/// Builds the success text `<name> launched on port <port>`.
pub fn success_message(app_name: &str, port: u16) -> (r: String)
    ensures
        r@ == success_message_spec(app_name@, port as nat),
{
    let mut s = String::from_str(app_name);
    s.append(" launched on port ");
    let digits = decimal_string(port);
    s.append(digits.as_str());
    proof {
        assert(s@ =~= success_message_spec(app_name@, port as nat));
    }
    s
}

impl LaunchError {
    /// The failure text handed to the caller; `app_name` appears only in the
    /// spawn-failure text.
    pub fn message(&self, app_name: &str) -> (r: String)
        ensures
            r@ == error_message_spec(*self, app_name@),
    {
        match self {
            LaunchError::UnsupportedPlatform => String::from_str("Unsupported operating system"),
            LaunchError::NoFreePorts => String::from_str("No free ports available"),
            LaunchError::SpawnFailed(t) => {
                let mut s = String::from_str("Failed to launch ");
                s.append(app_name);
                s.append(": ");
                s.append(t.as_str());
                proof {
                    assert(s@ =~= error_message_spec(*self, app_name@));
                }
                s
            },
        }
    }
}

/// Everything the shell needs to start one application.
#[derive(Debug)]
pub struct LaunchPlan {
    /// The command interpreter to start.
    pub interpreter: String,
    /// Whether the interpreter needs its execute-and-exit flag (Windows
    /// `cmd`).
    pub needs_execute_flag: bool,
    /// The script path handed to the interpreter.
    pub script_path: String,
    /// The allocated port.
    pub port: u16,
    /// The decimal text of the port, for the child's `PORT` variable.
    pub port_text: String,
}

/// One successful port acquisition: `port` lies in the range, was free in
/// `pre`, and `post` records it under `name`.
pub open spec fn launch_step(
    pre: Map<Seq<char>, u16>,
    name: Seq<char>,
    port: u16,
    post: Map<Seq<char>, u16>,
) -> bool {
    &&& PORT_RANGE_START <= port < PORT_RANGE_END
    &&& !pre.contains_value(port)
    &&& post == pre.insert(name, port)
}

/// Resolves the platform, builds the script path, allocates the lowest free
/// port and records it under `app_name` — everything of a launch except the
/// spawn itself.
///
/// On an unsupported platform or with no free port the table is left
/// untouched and nothing must be spawned.
pub fn prepare_launch(app_name: &str, platform: Platform, table: &mut PortTable) -> (r: Result<
    LaunchPlan,
    LaunchError,
>)
    requires
        old(table).wf(),
    ensures
        final(table).wf(),
        match r {
            Ok(plan) => {
                &&& supported(platform)
                &&& launch_step(old(table)@, app_name@, plan.port, final(table)@)
                &&& forall|q: u16|
                    PORT_RANGE_START <= q < plan.port ==> old(table)@.contains_value(q)
                &&& plan.interpreter@ == interpreter_spec(platform)
                &&& plan.needs_execute_flag == (platform is Windows)
                &&& plan.script_path@ == script_path_spec(app_name@, platform)
                &&& plan.port_text@ == dec_str(plan.port as nat)
            },
            Err(e) => {
                &&& *final(table) == *old(table)
                &&& match e {
                    LaunchError::UnsupportedPlatform => !supported(platform),
                    LaunchError::NoFreePorts => supported(platform) && forall|q: u16|
                        PORT_RANGE_START <= q < PORT_RANGE_END ==> old(table)@.contains_value(q),
                    LaunchError::SpawnFailed(_) => false,
                }
            },
        },
{
    let needs_execute_flag = match platform {
        Platform::Windows => true,
        _ => false,
    };
    match platform {
        Platform::Unsupported => {
            return Err(LaunchError::UnsupportedPlatform);
        },
        _ => {},
    }
    let path = script_path(app_name, platform);
    let interpreter = String::from_str(interpreter_for(platform));
    let port = match find_free_port(PORT_RANGE_START, table) {
        Ok(p) => p,
        Err(e) => {
            return Err(e);
        },
    };
    proof {
        assert forall|k: Seq<char>|
            table@.contains_key(k) && k != app_name@ implies table@[k] != port by {
            if table@.contains_key(k) && table@[k] == port {
                assert(table@.dom().contains(k));
                assert(table@.contains_value(port));
            }
        }
    }
    table.insert(String::from_str(app_name), port);
    let port_text = decimal_string(port);
    Ok(LaunchPlan { interpreter, needs_execute_flag, script_path: path, port, port_text })
}

/// Turns the outcome of the spawn into the launch's result: the success text
/// when the spawn went through, and a spawn failure carrying the OS error
/// text otherwise.
pub fn finish_launch(app_name: &str, port: u16, spawn_error: Option<String>) -> (r: Result<
    String,
    LaunchError,
>)
    ensures
        r is Ok <==> spawn_error is None,
        r matches Ok(m) ==> m@ == success_message_spec(app_name@, port as nat),
        r matches Err(e) ==> (e matches LaunchError::SpawnFailed(t) && spawn_error == Some(t)),
{
    match spawn_error {
        None => Ok(success_message(app_name, port)),
        Some(t) => Err(LaunchError::SpawnFailed(t)),
    }
}

/// A sequence of successful launches, each step taken from the table the
/// previous one left behind.
pub open spec fn launch_trace(
    t0: Map<Seq<char>, u16>,
    names: Seq<Seq<char>>,
    ports: Seq<u16>,
    tn: Map<Seq<char>, u16>,
) -> bool
    decreases names.len(),
{
    if names.len() == 0 {
        ports.len() == 0 && tn == t0
    } else {
        &&& ports.len() == names.len()
        &&& exists|mid: Map<Seq<char>, u16>|
            launch_trace(t0, names.drop_last(), ports.drop_last(), mid) && launch_step(
                mid,
                names.last(),
                ports.last(),
                tn,
            )
    }
}

/// After a trace of launches with pairwise-distinct names, the final table
/// still holds every launch's port under its name.
proof fn lemma_trace_binds(
    t0: Map<Seq<char>, u16>,
    names: Seq<Seq<char>>,
    ports: Seq<u16>,
    tn: Map<Seq<char>, u16>,
)
    requires
        launch_trace(t0, names, ports, tn),
        forall|i: int, j: int| 0 <= i < j < names.len() ==> names[i] != names[j],
    ensures
        ports.len() == names.len(),
        forall|i: int|
            0 <= i < names.len() ==> tn.contains_key(#[trigger] names[i]) && tn[names[i]]
                == ports[i],
    decreases names.len(),
{
    if names.len() > 0 {
        let mid = choose|mid: Map<Seq<char>, u16>|
            launch_trace(t0, names.drop_last(), ports.drop_last(), mid) && launch_step(
                mid,
                names.last(),
                ports.last(),
                tn,
            );
        lemma_trace_binds(t0, names.drop_last(), ports.drop_last(), mid);
        assert forall|i: int|
            0 <= i < names.len() implies tn.contains_key(#[trigger] names[i]) && tn[names[i]]
            == ports[i] by {
            if i < names.len() - 1 {
                assert(mid.contains_key(names.drop_last()[i]));
                assert(names[i] != names[names.len() - 1]);
            }
        }
    }
}

/// Law (uniqueness): every sequence of successful launches with
/// pairwise-distinct application names yields pairwise-distinct ports.
pub proof fn lemma_distinct_launches_distinct_ports(
    t0: Map<Seq<char>, u16>,
    names: Seq<Seq<char>>,
    ports: Seq<u16>,
    tn: Map<Seq<char>, u16>,
)
    requires
        launch_trace(t0, names, ports, tn),
        forall|i: int, j: int| 0 <= i < j < names.len() ==> names[i] != names[j],
    ensures
        forall|i: int, j: int| 0 <= i < j < ports.len() ==> ports[i] != ports[j],
    decreases names.len(),
{
    if names.len() > 0 {
        let mid = choose|mid: Map<Seq<char>, u16>|
            launch_trace(t0, names.drop_last(), ports.drop_last(), mid) && launch_step(
                mid,
                names.last(),
                ports.last(),
                tn,
            );
        lemma_distinct_launches_distinct_ports(t0, names.drop_last(), ports.drop_last(), mid);
        lemma_trace_binds(t0, names.drop_last(), ports.drop_last(), mid);
        assert forall|i: int, j: int| 0 <= i < j < ports.len() implies ports[i] != ports[j] by {
            if j == ports.len() - 1 {
                assert(mid.contains_key(names.drop_last()[i]));
                assert(mid.dom().contains(names[i]) && mid[names[i]] == ports[i]);
                assert(mid.contains_value(ports[i]));
            } else {
                assert(ports.drop_last()[i] != ports.drop_last()[j]);
            }
        }
    }
}

/// Law (repeated launch): launching the same name twice yields two distinct
/// ports; afterwards the table holds the name once, mapped to the second
/// port, and no application was forgotten.
pub proof fn lemma_relaunch_fresh_port(
    t0: Map<Seq<char>, u16>,
    name: Seq<char>,
    p1: u16,
    t1: Map<Seq<char>, u16>,
    p2: u16,
    t2: Map<Seq<char>, u16>,
)
    requires
        launch_step(t0, name, p1, t1),
        launch_step(t1, name, p2, t2),
    ensures
        p1 != p2,
        t2.contains_key(name) && t2[name] == p2,
        t2.dom() == t1.dom(),
{
    assert(t1.dom().contains(name) && t1[name] == p1);
    assert(t1.contains_value(p1));
    assert(t2.dom() =~= t1.dom());
}

} // verus!
