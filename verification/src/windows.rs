//! Planning for instances managed inside a WSL container.
//!
//! Everything here computes: command lines to run, file paths and contents
//! to write, and the decisions taken on the results.  Launching processes,
//! touching the filesystem and talking to the WSL service are left to the
//! surrounding binary, which hands the outcomes back as plain values.

use vstd::prelude::*;

use crate::branding::BRANDING_WSL;
use crate::text::has_substring;
use crate::text::contains_str;
use crate::text::lower_ascii;
use crate::text::to_lower_char;
use crate::print::style::str_chars;
use crate::text::chars_to_string;

verus! {

/// The WSL distribution holding the server is not installed.
#[derive(Clone, Copy, PartialEq, Eq, Structural, Debug)]
pub struct NoDistribution;

impl NoDistribution {
    /// The message shown for this condition.
    pub fn message(&self) -> (r: &'static str)
        ensures
            r@ == "WSL distribution is not installed"@,
    {
        "WSL distribution is not installed"
    }
}

/// A registered WSL distribution that hosts the server.
pub struct Wsl {
    pub distribution: String,
}

/// A command to launch, fully planned.  `command` is the executable (the
/// `wsl` launcher for every in-container invocation), `marker` the tag the
/// launch is logged under, and `no_proxy` asks for the proxy environment
/// to be suppressed.
pub struct Native {
    pub description: String,
    pub command: String,
    pub marker: String,
    pub args: Vec<String>,
    pub no_proxy: bool,
}

/// The argument list as character sequences.
pub open spec fn args_view(args: Seq<String>) -> Seq<Seq<char>> {
    Seq::new(args.len(), |i: int| args[i]@)
}

/// The fixed arguments every in-container invocation starts with.
pub open spec fn wsl_base_args(distribution: Seq<char>, log_env: Option<Seq<char>>) -> Seq<
    Seq<char>,
> {
    let head = seq!["--user"@, "edgedb"@, "--distribution"@, distribution, "_EDGEDB_FROM_WINDOWS=1"@];
    match log_env {
        Some(v) => head + seq!["RUST_LOG="@ + v],
        None => head,
    }
}

impl Wsl {
    /// Plan an invocation of the in-container CLI.
    pub fn edgedb(&self, log_env: Option<&String>) -> (r: Native)
        ensures
            r.command@ == "wsl"@,
            r.description@ == "edgedb"@,
            r.marker@ == "edgedb"@,
            r.no_proxy,
            args_view(r.args@) == wsl_base_args(
                self.distribution@,
                match log_env {
                    Some(v) => Some(v@),
                    None => None,
                },
            ) + seq!["/usr/bin/edgedb"@],
    {
        let mut args: Vec<String> = Vec::new();
        args.push("--user".to_owned());
        args.push("edgedb".to_owned());
        args.push("--distribution".to_owned());
        args.push(self.distribution.clone());
        args.push("_EDGEDB_FROM_WINDOWS=1".to_owned());
        match log_env {
            Option::Some(v) => {
                args.push("RUST_LOG=".to_owned().concat(v.as_str()));
            },
            Option::None => {},
        }
        args.push("/usr/bin/edgedb".to_owned());
        let r = Native {
            description: "edgedb".to_owned(),
            command: "wsl".to_owned(),
            marker: "edgedb".to_owned(),
            args,
            no_proxy: true,
        };
        proof {
            assert(args_view(r.args@) =~~= wsl_base_args(
                self.distribution@,
                match log_env {
                    Some(v) => Some(v@),
                    None => None,
                },
            ) + seq!["/usr/bin/edgedb"@]);
        }
        r
    }

    /// Plan an invocation of a shell inside the container.
    pub fn sh(&self, log_env: Option<&String>) -> (r: Native)
        ensures
            r.command@ == "wsl"@,
            r.marker@ == "sh"@,
            !r.no_proxy,
            args_view(r.args@) == wsl_base_args(
                self.distribution@,
                match log_env {
                    Some(v) => Some(v@),
                    None => None,
                },
            ) + seq!["/bin/sh"@],
    {
        let mut args: Vec<String> = Vec::new();
        args.push("--user".to_owned());
        args.push("edgedb".to_owned());
        args.push("--distribution".to_owned());
        args.push(self.distribution.clone());
        args.push("_EDGEDB_FROM_WINDOWS=1".to_owned());
        match log_env {
            Option::Some(v) => {
                args.push("RUST_LOG=".to_owned().concat(v.as_str()));
            },
            Option::None => {},
        }
        args.push("/bin/sh".to_owned());
        let r = Native {
            description: "sh".to_owned(),
            command: "wsl".to_owned(),
            marker: "sh".to_owned(),
            args,
            no_proxy: false,
        };
        proof {
            assert(args_view(r.args@) =~~= wsl_base_args(
                self.distribution@,
                match log_env {
                    Some(v) => Some(v@),
                    None => None,
                },
            ) + seq!["/bin/sh"@]);
        }
        r
    }

    /// The in-container shell command that copies a file out to a
    /// windows-mounted destination, both paths escaped for the shell.
    pub fn copy_out_command(&self, src: &str, dest_linux: &str) -> (r: String)
        ensures
            r@ == "cp "@ + sh_escaped(src@) + " "@ + sh_escaped(dest_linux@),
    {
        let e1 = shell_escape_unix(src);
        let e2 = shell_escape_unix(dest_linux);
        "cp ".to_owned().concat(e1.as_str()).concat(" ").concat(e2.as_str())
    }
}

/// Whether a character needs no shell quoting.
pub open spec fn sh_safe(c: char) -> bool {
    ('a' <= c && c <= 'z') || ('A' <= c && c <= 'Z') || ('0' <= c && c <= '9') || c == '-' || c
        == '_' || c == '=' || c == '/' || c == ',' || c == '.' || c == '+'
}

/// The body of a single-quoted shell word, one source character at a time.
pub open spec fn sh_quoted_body(s: Seq<char>) -> Seq<char>
    decreases s.len(),
{
    if s.len() == 0 {
        Seq::empty()
    } else {
        (if s[0] == '\'' || s[0] == '!' {
            seq!['\'', '\\', s[0], '\'']
        } else {
            seq![s[0]]
        }) + sh_quoted_body(s.drop_first())
    }
}

/// How the unix shell escaper renders a word: unchanged when non-empty and
/// wholly safe, otherwise single-quoted with embedded quotes broken out.
pub open spec fn sh_escaped(s: Seq<char>) -> Seq<char> {
    if s.len() > 0 && (forall|i: int| 0 <= i < s.len() ==> sh_safe(s[i])) {
        s
    } else {
        seq!['\''] + sh_quoted_body(s) + seq!['\'']
    }
}

/// Relies on `shell_escape::unix::escape`: a non-empty word of safe
/// characters passes through unchanged; anything else is single-quoted,
/// with `'` and `!` each closed out as `'\'` and reopened.
#[verifier::external_body]
pub fn shell_escape_unix(s: &str) -> (r: String)
    ensures
        r@ == sh_escaped(s@),
{
    shell_escape::unix::escape(std::borrow::Cow::from(s)).into_owned()
}

/// The in-container path of an instance's credentials file.
pub fn credentials_linux(instance: &str) -> (r: String)
    ensures
        r@ == "/home/edgedb/.config/edgedb/credentials/"@ + instance@ + ".json"@,
{
    "/home/edgedb/.config/edgedb/credentials/".to_owned().concat(instance).concat(".json")
}

/// The startup-folder script that launches an instance at login.
pub fn service_file(startup_dir: &str, instance: &str) -> (r: String)
    ensures
        r@ == startup_dir@ + "\\"@ + "edgedb-server-"@ + instance@ + ".cmd"@,
{
    startup_dir.to_owned().concat("\\").concat("edgedb-server-").concat(instance).concat(".cmd")
}

/// Every file that running an instance as a service would create.
pub fn service_files(startup_dir: &str, name: &str) -> (r: Vec<String>)
    ensures
        r@.len() == 1,
        r@[0]@ == startup_dir@ + "\\"@ + "edgedb-server-"@ + name@ + ".cmd"@,
{
    let mut v: Vec<String> = Vec::new();
    v.push(service_file(startup_dir, name));
    v
}

/// Everything needed to start an instance and register it for startup: the
/// command to run now and the startup script to write.
pub struct ServicePlan {
    pub start: Native,
    pub file_path: String,
    pub file_contents: String,
}

/// The contents of the startup script for an instance.
pub open spec fn service_file_contents(distribution: Seq<char>, name: Seq<char>) -> Seq<char> {
    "wsl --distribution "@ + distribution + " --user edgedb /usr/bin/edgedb instance start -I "@
        + name
}

/// Plan starting an instance now and registering it for startup.
pub fn create_service(wsl: &Wsl, name: &str, startup_dir: &str, log_env: Option<&String>) -> (r:
    ServicePlan)
    ensures
        args_view(r.start.args@) == wsl_base_args(
            wsl.distribution@,
            match log_env {
                Some(v) => Some(v@),
                None => None,
            },
        ) + seq!["/usr/bin/edgedb"@, "instance"@, "start"@, "-I"@, name@],
        r.file_path@ == startup_dir@ + "\\"@ + "edgedb-server-"@ + name@ + ".cmd"@,
        r.file_contents@ == service_file_contents(wsl.distribution@, name@),
{
    let start = daemon_start(wsl, name, log_env);
    let file_contents = "wsl --distribution ".to_owned().concat(wsl.distribution.as_str()).concat(
        " --user edgedb /usr/bin/edgedb instance start -I ",
    ).concat(name);
    ServicePlan { start, file_path: service_file(startup_dir, name), file_contents }
}

/// Plan starting an instance in the background.
pub fn daemon_start(wsl: &Wsl, instance: &str, log_env: Option<&String>) -> (r: Native)
    ensures
        r.no_proxy,
        args_view(r.args@) == wsl_base_args(
            wsl.distribution@,
            match log_env {
                Some(v) => Some(v@),
                None => None,
            },
        ) + seq!["/usr/bin/edgedb"@, "instance"@, "start"@, "-I"@, instance@],
{
    let mut tail: Vec<String> = Vec::new();
    tail.push("-I".to_owned());
    tail.push(instance.to_owned());
    let r = passthrough(wsl, log_env, "instance", "start", &tail);
    proof {
        assert(wsl_base_args(
            wsl.distribution@,
            match log_env {
                Some(v) => Some(v@),
                None => None,
            },
        ) + seq!["/usr/bin/edgedb"@, "instance"@, "start"@] + args_view(tail@)
            =~~= wsl_base_args(
            wsl.distribution@,
            match log_env {
                Some(v) => Some(v@),
                None => None,
            },
        ) + seq!["/usr/bin/edgedb"@, "instance"@, "start"@, "-I"@, instance@]);
    }
    r
}

/// The refusal reported for every true-service operation on this platform.
pub fn service_unsupported() -> (r: String)
    ensures
        r@ == "running as a service is not yet supported on Windows"@,
{
    "running as a service is not yet supported on Windows".to_owned()
}

/// Stopping and disabling a true service always fails on this platform.
pub fn stop_and_disable(name: &str) -> (r: Result<bool, String>)
    ensures
        r matches Err(e) && e@ == "running as a service is not yet supported on Windows"@,
{
    Err(service_unsupported())
}

/// Starting a true service always fails on this platform.
pub fn start_service(instance: &str) -> (r: Result<(), String>)
    ensures
        r matches Err(e) && e@ == "running as a service is not yet supported on Windows"@,
{
    Err(service_unsupported())
}

/// Stopping a true service always fails on this platform.
pub fn stop_service(name: &str) -> (r: Result<(), String>)
    ensures
        r matches Err(e) && e@ == "running as a service is not yet supported on Windows"@,
{
    Err(service_unsupported())
}

/// Restarting a true service always fails on this platform.
pub fn restart_service(name: &str) -> (r: Result<(), String>)
    ensures
        r matches Err(e) && e@ == "running as a service is not yet supported on Windows"@,
{
    Err(service_unsupported())
}

/// How a supervised service process reports its state.
pub enum Service {
    /// No service is running; the string carries the reason.
    Inactive(String),
}

/// The service status of an instance: never active on this platform.
pub fn service_status(inst: &str) -> (r: Service)
    ensures
        r matches Service::Inactive(e) && e@
            == "running as a service is not yet supported on Windows"@,
{
    Service::Inactive(service_unsupported())
}

/// Querying an externally managed service always fails on this platform.
pub fn external_status(inst: &str) -> (r: Result<(), String>)
    ensures
        r matches Err(e) && e@ == "running as a service is not yet supported on Windows"@,
{
    Err(service_unsupported())
}

/// Whether this process was itself launched from the windows wrapper, read
/// from the marker variable's parsed value (unset or unreadable counts as
/// not wrapped).
pub fn is_wrapped(from_windows: Option<Option<bool>>) -> (r: bool)
    ensures
        r == (match from_windows {
            Some(Some(b)) => b,
            _ => false,
        }),
{
    match from_windows {
        Option::Some(Option::Some(b)) => b,
        _ => false,
    }
}

/// Whether this process is running inside a WSL container, judged from the
/// kernel version string (absent when unreadable).
pub fn is_in_wsl(proc_version: Option<&String>) -> (r: bool)
    ensures
        r == (match proc_version {
            Some(v) => has_substring(v@, "Microsoft"@),
            None => false,
        }),
{
    match proc_version {
        Option::Some(v) => contains_str(v.as_str(), "Microsoft"),
        Option::None => false,
    }
}

/// The missing-distribution message used by instance operations.
pub fn no_instances_message() -> (r: String)
    ensures
        r@ == "WSL distribution is not installed, so no EdgeDB instances are present."@,
{
    "WSL distribution is not installed, so no EdgeDB instances are present.".to_owned()
}

/// The missing-distribution message used by server operations.
pub fn no_server_message() -> (r: String)
    ensures
        r@ == "WSL distribution is not installed, so no EdgeDB server versions are present."@,
{
    "WSL distribution is not installed, so no EdgeDB server versions are present.".to_owned()
}

/// Plan a pass-through invocation of the in-container CLI: the fixed
/// subcommand words, then the caller's remaining arguments.
fn passthrough(
    wsl: &Wsl,
    log_env: Option<&String>,
    word1: &str,
    word2: &str,
    rest: &Vec<String>,
) -> (r: Native)
    ensures
        r.no_proxy,
        r.command@ == "wsl"@,
        args_view(r.args@) == wsl_base_args(
            wsl.distribution@,
            match log_env {
                Some(v) => Some(v@),
                None => None,
            },
        ) + seq!["/usr/bin/edgedb"@, word1@, word2@] + args_view(rest@),
{
    let ghost lev: Option<Seq<char>> = match log_env {
        Some(v) => Some(v@),
        None => None,
    };
    let mut args: Vec<String> = Vec::new();
    args.push("--user".to_owned());
    args.push("edgedb".to_owned());
    args.push("--distribution".to_owned());
    args.push(wsl.distribution.clone());
    args.push("_EDGEDB_FROM_WINDOWS=1".to_owned());
    match log_env {
        Option::Some(v) => {
            args.push("RUST_LOG=".to_owned().concat(v.as_str()));
        },
        Option::None => {},
    }
    args.push("/usr/bin/edgedb".to_owned());
    args.push(word1.to_owned());
    args.push(word2.to_owned());
    let ghost prefix = wsl_base_args(wsl.distribution@, lev) + seq![
        "/usr/bin/edgedb"@,
        word1@,
        word2@,
    ];
    proof {
        assert(args_view(args@) =~~= prefix);
    }
    let mut i: usize = 0;
    while i < rest.len()
        invariant
            i <= rest@.len(),
            args_view(args@) == prefix + args_view(rest@.take(i as int)),
        decreases rest@.len() - i,
    {
        let ghost a0 = args@;
        args.push(rest[i].clone());
        proof {
            assert(rest@.take(i as int + 1)[i as int] == rest@[i as int]);
            assert(args_view(args@) =~~= args_view(a0).push(rest@[i as int]@));
            assert(args_view(rest@.take(i as int + 1)) =~~= args_view(rest@.take(i as int)).push(
                rest@[i as int]@,
            ));
            assert((prefix + args_view(rest@.take(i as int))).push(rest@[i as int]@) =~= prefix
                + args_view(rest@.take(i as int)).push(rest@[i as int]@));
            assert(args_view(args@) == prefix + args_view(rest@.take(i as int + 1)));
        }
        i = i + 1;
    }
    proof {
        assert(rest@.take(rest@.len() as int) =~= rest@);
        assert(args_view(rest@.take(rest@.len() as int)) =~~= args_view(rest@));
    }
    Native {
        description: "edgedb".to_owned(),
        command: "wsl".to_owned(),
        marker: "edgedb".to_owned(),
        args,
        no_proxy: true,
    }
}

/// Plan a server install inside the container.
pub fn install(wsl: &Wsl, options: &Vec<String>, log_env: Option<&String>) -> (r: Native)
    ensures
        args_view(r.args@) == wsl_base_args(
            wsl.distribution@,
            match log_env {
                Some(v) => Some(v@),
                None => None,
            },
        ) + seq!["/usr/bin/edgedb"@, "server"@, "install"@] + args_view(options@),
{
    passthrough(wsl, log_env, "server", "install", options)
}

/// What a server uninstall should do.
pub enum UninstallAction {
    /// Run the in-container uninstall.
    Run(Native),
    /// No distribution, so no server versions exist: warn and succeed
    /// without running anything.
    WarnMissing,
}

/// Plan a server uninstall: with no distribution there is nothing to
/// remove, which is a success with a warning, not a failure.
pub fn uninstall(wsl: Option<&Wsl>, options: &Vec<String>, log_env: Option<&String>) -> (r:
    UninstallAction)
    ensures
        wsl matches Some(w) ==> (r matches UninstallAction::Run(n) && args_view(n.args@)
            == wsl_base_args(
            w.distribution@,
            match log_env {
                Some(v) => Some(v@),
                None => None,
            },
        ) + seq!["/usr/bin/edgedb"@, "server"@, "uninstall"@] + args_view(options@)),
        wsl is None ==> r is WarnMissing,
{
    match wsl {
        Option::Some(w) => UninstallAction::Run(
            passthrough(w, log_env, "server", "uninstall", options),
        ),
        Option::None => UninstallAction::WarnMissing,
    }
}

/// Plan a server info query; with no distribution the operation fails.
pub fn info(wsl: Option<&Wsl>, options: &Vec<String>, log_env: Option<&String>) -> (r: Result<
    Native,
    String,
>)
    ensures
        match r {
            Ok(n) => wsl is Some && args_view(n.args@) == wsl_base_args(
                wsl->0.distribution@,
                match log_env {
                    Some(v) => Some(v@),
                    None => None,
                },
            ) + seq!["/usr/bin/edgedb"@, "server"@, "info"@] + args_view(options@),
            Err(e) => wsl is None && e@
                == "WSL distribution is not installed, so no EdgeDB server versions are present."@,
        },
{
    match wsl {
        Option::Some(w) => Ok(passthrough(w, log_env, "server", "info", options)),
        Option::None => Err(no_server_message()),
    }
}

/// Plan a password reset: run the in-container command, then copy the
/// refreshed credentials file out.
pub fn reset_password(
    wsl: Option<&Wsl>,
    options: &Vec<String>,
    name: &str,
    log_env: Option<&String>,
) -> (r: Result<(Native, String), String>)
    ensures
        match r {
            Ok(p) => wsl is Some && args_view(p.0.args@) == wsl_base_args(
                wsl->0.distribution@,
                match log_env {
                    Some(v) => Some(v@),
                    None => None,
                },
            ) + seq!["/usr/bin/edgedb"@, "instance"@, "reset-password"@] + args_view(options@)
                && p.1@ == "/home/edgedb/.config/edgedb/credentials/"@ + name@ + ".json"@,
            Err(e) => wsl is None && e@
                == "WSL distribution is not installed, so no EdgeDB instances are present."@,
        },
{
    match wsl {
        Option::Some(w) => Ok(
            (passthrough(w, log_env, "instance", "reset-password", options), credentials_linux(
                name,
            )),
        ),
        Option::None => Err(no_instances_message()),
    }
}

/// Plan starting an instance: in the foreground it is a direct run, else
/// the instance is started and registered for startup.
pub enum StartAction {
    Foreground(Native),
    Background(ServicePlan),
}

/// Plan an instance start; with no distribution the operation fails.
pub fn start(
    wsl: Option<&Wsl>,
    options: &Vec<String>,
    name: &str,
    foreground: bool,
    startup_dir: &str,
    log_env: Option<&String>,
) -> (r: Result<StartAction, String>)
    ensures
        match r {
            Ok(a) => wsl is Some && (match a {
                StartAction::Foreground(n) => foreground && args_view(n.args@) == wsl_base_args(
                    wsl->0.distribution@,
                    match log_env {
                        Some(v) => Some(v@),
                        None => None,
                    },
                ) + seq!["/usr/bin/edgedb"@, "instance"@, "start"@] + args_view(options@),
                StartAction::Background(p) => !foreground && p.file_contents@
                    == service_file_contents(wsl->0.distribution@, name@) && p.file_path@
                    == startup_dir@ + "\\"@ + "edgedb-server-"@ + name@ + ".cmd"@,
            }),
            Err(e) => wsl is None && e@
                == "WSL distribution is not installed, so no EdgeDB instances are present."@,
        },
{
    match wsl {
        Option::Some(w) => {
            if foreground {
                Ok(StartAction::Foreground(passthrough(w, log_env, "instance", "start", options)))
            } else {
                Ok(StartAction::Background(create_service(w, name, startup_dir, log_env)))
            }
        },
        Option::None => Err(no_instances_message()),
    }
}

/// Plan an instance stop: the startup script is removed, then the
/// in-container stop runs.
pub fn stop(wsl: Option<&Wsl>, options: &Vec<String>, name: &str, startup_dir: &str, log_env:
    Option<&String>) -> (r: Result<(String, Native), String>)
    ensures
        match r {
            Ok(p) => wsl is Some && p.0@ == startup_dir@ + "\\"@ + "edgedb-server-"@ + name@
                + ".cmd"@ && args_view(p.1.args@) == wsl_base_args(
                wsl->0.distribution@,
                match log_env {
                    Some(v) => Some(v@),
                    None => None,
                },
            ) + seq!["/usr/bin/edgedb"@, "instance"@, "stop"@] + args_view(options@),
            Err(e) => wsl is None && e@
                == "WSL distribution is not installed, so no EdgeDB instances are present."@,
        },
{
    match wsl {
        Option::Some(w) => Ok(
            (service_file(startup_dir, name), passthrough(w, log_env, "instance", "stop",
            options)),
        ),
        Option::None => Err(no_instances_message()),
    }
}

/// Plan an instance restart; with no distribution the operation fails.
pub fn restart(wsl: Option<&Wsl>, options: &Vec<String>, log_env: Option<&String>) -> (r: Result<
    Native,
    String,
>)
    ensures
        match r {
            Ok(n) => wsl is Some && args_view(n.args@) == wsl_base_args(
                wsl->0.distribution@,
                match log_env {
                    Some(v) => Some(v@),
                    None => None,
                },
            ) + seq!["/usr/bin/edgedb"@, "instance"@, "restart"@] + args_view(options@),
            Err(e) => wsl is None && e@
                == "WSL distribution is not installed, so no EdgeDB instances are present."@,
        },
{
    match wsl {
        Option::Some(w) => Ok(passthrough(w, log_env, "instance", "restart", options)),
        Option::None => Err(no_instances_message()),
    }
}

/// Plan fetching instance logs; with no distribution the operation fails.
pub fn logs(wsl: Option<&Wsl>, options: &Vec<String>, log_env: Option<&String>) -> (r: Result<
    Native,
    String,
>)
    ensures
        match r {
            Ok(n) => wsl is Some && args_view(n.args@) == wsl_base_args(
                wsl->0.distribution@,
                match log_env {
                    Some(v) => Some(v@),
                    None => None,
                },
            ) + seq!["/usr/bin/edgedb"@, "instance"@, "logs"@] + args_view(options@),
            Err(e) => wsl is None && e@
                == "WSL distribution is not installed, so no EdgeDB instances are present."@,
        },
{
    match wsl {
        Option::Some(w) => Ok(passthrough(w, log_env, "instance", "logs", options)),
        Option::None => Err(no_instances_message()),
    }
}

/// What an instance status query should do next.
pub enum StatusAction {
    /// Run the in-container status command and report its outcome.
    Run(Native),
    /// No local distribution: report and fail with instance-not-found (in
    /// service mode), or fall through to remote-only status.
    NoDistribution,
}

/// Plan an instance status query.
pub fn status(wsl: Option<&Wsl>, options: &Vec<String>, log_env: Option<&String>) -> (r:
    StatusAction)
    ensures
        match r {
            StatusAction::Run(n) => wsl is Some && args_view(n.args@) == wsl_base_args(
                wsl->0.distribution@,
                match log_env {
                    Some(v) => Some(v@),
                    None => None,
                },
            ) + seq!["/usr/bin/edgedb"@, "instance"@, "status"@] + args_view(options@),
            StatusAction::NoDistribution => wsl is None,
        },
{
    match wsl {
        Option::Some(w) => StatusAction::Run(passthrough(w, log_env, "instance", "status",
        options)),
        Option::None => StatusAction::NoDistribution,
    }
}

/// Plan an instance upgrade: run it, then copy the possibly rewritten
/// credentials back out.
pub fn upgrade(wsl: &Wsl, options: &Vec<String>, name: &str, log_env: Option<&String>) -> (r: (
    Native,
    String,
))
    ensures
        args_view(r.0.args@) == wsl_base_args(
            wsl.distribution@,
            match log_env {
                Some(v) => Some(v@),
                None => None,
            },
        ) + seq!["/usr/bin/edgedb"@, "instance"@, "upgrade"@] + args_view(options@),
        r.1@ == "/home/edgedb/.config/edgedb/credentials/"@ + name@ + ".json"@,
{
    (passthrough(wsl, log_env, "instance", "upgrade", options), credentials_linux(name))
}

/// Plan an instance revert: run it, then copy the possibly rewritten
/// credentials back out.
pub fn revert(wsl: &Wsl, options: &Vec<String>, name: &str, log_env: Option<&String>) -> (r: (
    Native,
    String,
))
    ensures
        args_view(r.0.args@) == wsl_base_args(
            wsl.distribution@,
            match log_env {
                Some(v) => Some(v@),
                None => None,
            },
        ) + seq!["/usr/bin/edgedb"@, "instance"@, "revert"@] + args_view(options@),
        r.1@ == "/home/edgedb/.config/edgedb/credentials/"@ + name@ + ".json"@,
{
    (passthrough(wsl, log_env, "instance", "revert", options), credentials_linux(name))
}

/// Plan an extension install inside the container.
pub fn extension_install(wsl: &Wsl, options: &Vec<String>, log_env: Option<&String>) -> (r:
    Native)
    ensures
        args_view(r.args@) == wsl_base_args(
            wsl.distribution@,
            match log_env {
                Some(v) => Some(v@),
                None => None,
            },
        ) + seq!["/usr/bin/edgedb"@, "instance"@, "install"@] + args_view(options@),
{
    passthrough(wsl, log_env, "instance", "install", options)
}

/// Plan an extension uninstall inside the container.
pub fn extension_uninstall(wsl: &Wsl, options: &Vec<String>, log_env: Option<&String>) -> (r:
    Native)
    ensures
        args_view(r.args@) == wsl_base_args(
            wsl.distribution@,
            match log_env {
                Some(v) => Some(v@),
                None => None,
            },
        ) + seq!["/usr/bin/edgedb"@, "instance"@, "uninstall"@] + args_view(options@),
{
    passthrough(wsl, log_env, "instance", "uninstall", options)
}

/// The in-container data directory of an instance.
pub fn get_instance_data_dir(name: &str, is_localdev: bool, dev_dir: Option<&String>) -> (r:
    String)
    ensures
        is_localdev && dev_dir is Some ==> r@ == dev_dir->0@,
        is_localdev && dev_dir is None ==> r@
            == "/home/edgedb/.local/share/edgedb/_localdev/"@,
        !is_localdev ==> r@ == "/home/edgedb/.local/share/edgedb/data/"@ + name@ + "/"@,
{
    if is_localdev {
        match dev_dir {
            Option::Some(d) => d.clone(),
            Option::None => "/home/edgedb/.local/share/edgedb/_localdev/".to_owned(),
        }
    } else {
        "/home/edgedb/.local/share/edgedb/data/".to_owned().concat(name).concat("/")
    }
}

/// Choose which key file to read for an instance's JSON web signature
/// keys: the PEM file when present, else the JSON file, else none.
pub fn read_jws_key(data_dir: &str, pem_exists: bool, json_exists: bool) -> (r: Option<String>)
    ensures
        pem_exists ==> (r matches Some(p) && p@ == data_dir@ + "edbjwskeys.pem"@),
        (!pem_exists && json_exists) ==> (r matches Some(p) && p@ == data_dir@
            + "edbjwskeys.json"@),
        (!pem_exists && !json_exists) ==> r is None,
{
    if pem_exists {
        Option::Some(data_dir.to_owned().concat("edbjwskeys.pem"))
    } else if json_exists {
        Option::Some(data_dir.to_owned().concat("edbjwskeys.json"))
    } else {
        Option::None
    }
}

/// The in-container path of an instance's metadata file.
pub fn get_instance_info(name: &str) -> (r: String)
    ensures
        r@ == "/home/edgedb/.local/share/edgedb/data/"@ + name@ + "/instance_info.json"@,
{
    "/home/edgedb/.local/share/edgedb/data/".to_owned().concat(name).concat(
        "/instance_info.json",
    )
}

/// A component of a windows path, as the standard library classifies them.
pub enum WinComponent {
    /// A drive prefix with its letter.
    Disk(char),
    /// A prefix other than a plain or verbatim drive.
    OtherPrefix,
    /// The root directory.
    Root,
    /// The current directory.
    Cur,
    /// The parent directory.
    Parent,
    /// A normal path segment.
    Normal(String),
}

/// Why a path cannot be converted.
#[derive(Clone, Copy, PartialEq, Eq, Structural, Debug)]
pub enum PathError {
    /// Conversion needs an absolute path.
    NotAbsolute,
    /// A prefix other than a drive letter.
    UnsupportedPrefix,
    /// A drive letter outside the ASCII alphabet.
    NonAlphabeticDisk,
    /// A current-directory component in a canonical path.
    CurDir,
    /// A parent-directory component in a canonical path.
    ParentDir,
    /// A prefix in a unix path.
    PrefixInUnixPath,
}

/// The mount point a drive letter maps to, with the letter lowercased.
pub open spec fn linux_of_components(comps: Seq<WinComponent>) -> Seq<char>
    decreases comps.len(),
{
    if comps.len() == 0 {
        Seq::empty()
    } else {
        (match comps[0] {
            WinComponent::Disk(c) => seq!['/', lower_ascii(c)],
            WinComponent::Normal(s) => seq!['/'] + s@,
            _ => Seq::<char>::empty(),
        }) + linux_of_components(comps.drop_first())
    }
}

/// Whether a windows path converts cleanly: only drive, root and normal
/// components, the drive alphabetic.
pub open spec fn win_path_ok(comps: Seq<WinComponent>) -> Option<PathError>
    decreases comps.len(),
{
    if comps.len() == 0 {
        None
    } else {
        match comps[0] {
            WinComponent::Disk(c) => if ('a' <= c && c <= 'z') || ('A' <= c && c <= 'Z') {
                win_path_ok(comps.drop_first())
            } else {
                Some(PathError::NonAlphabeticDisk)
            },
            WinComponent::OtherPrefix => Some(PathError::UnsupportedPrefix),
            WinComponent::Cur => Some(PathError::CurDir),
            WinComponent::Parent => Some(PathError::ParentDir),
            _ => win_path_ok(comps.drop_first()),
        }
    }
}

/// Convert an absolute windows path to its location under the WSL mount
/// root: `/mnt`, the lowercased drive letter, then each segment.
pub fn path_to_linux(comps: &Vec<WinComponent>, absolute: bool) -> (r: Result<String, PathError>)
    ensures
        !absolute ==> (r matches Err(e) && e == PathError::NotAbsolute),
        (absolute && win_path_ok(comps@) is Some) ==> (r matches Err(e) && Some(e) == win_path_ok(
            comps@,
        )),
        (absolute && win_path_ok(comps@) is None) ==> (r matches Ok(p) && p@ == "/mnt"@
            + linux_of_components(comps@)),
{
    if !absolute {
        return Err(PathError::NotAbsolute);
    }
    let mut out: Vec<char> = str_chars("/mnt");
    let n = comps.len();
    proof {
        assert(comps@.skip(0) =~= comps@);
    }
    let mut i: usize = 0;
    while i < n
        invariant
            absolute,
            i <= n,
            n == comps@.len(),
            win_path_ok(comps@.skip(i as int)) == win_path_ok(comps@),
            out@ + linux_of_components(comps@.skip(i as int)) == "/mnt"@ + linux_of_components(
                comps@,
            ),
        decreases n - i,
    {
        proof {
            assert(comps@.skip(i as int)[0] == comps@[i as int]);
            assert(comps@.skip(i as int).drop_first() =~= comps@.skip(i as int + 1));
        }
        match &comps[i] {
            WinComponent::Disk(c) => {
                let cc = *c;
                let lower_ok = ('a' <= cc && cc <= 'z') || ('A' <= cc && cc <= 'Z');
                if !lower_ok {
                    proof {
                        assert(win_path_ok(comps@) == Some(PathError::NonAlphabeticDisk));
                    }
                    return Err(PathError::NonAlphabeticDisk);
                }
                out.push('/');
                out.push(to_lower_char(cc));
                proof {
                    assert(out@ + linux_of_components(comps@.skip(i as int + 1)) =~= "/mnt"@
                        + linux_of_components(comps@));
                }
            },
            WinComponent::OtherPrefix => {
                proof {
                    assert(win_path_ok(comps@) == Some(PathError::UnsupportedPrefix));
                }
                return Err(PathError::UnsupportedPrefix);
            },
            WinComponent::Root => {
                proof {
                    assert(out@ + linux_of_components(comps@.skip(i as int + 1)) =~= "/mnt"@
                        + linux_of_components(comps@));
                }
            },
            WinComponent::Cur => {
                proof {
                    assert(win_path_ok(comps@) == Some(PathError::CurDir));
                }
                return Err(PathError::CurDir);
            },
            WinComponent::Parent => {
                proof {
                    assert(win_path_ok(comps@) == Some(PathError::ParentDir));
                }
                return Err(PathError::ParentDir);
            },
            WinComponent::Normal(s) => {
                out.push('/');
                let cs = str_chars(s.as_str());
                let mut j: usize = 0;
                let ghost out_before = out@;
                while j < cs.len()
                    invariant
                        j <= cs@.len(),
                        cs@ == s@,
                        out@ == out_before + s@.take(j as int),
                    decreases cs@.len() - j,
                {
                    out.push(cs[j]);
                    proof {
                        assert(out@ =~= out_before + s@.take(j as int + 1));
                    }
                    j = j + 1;
                }
                proof {
                    assert(s@.take(s@.len() as int) =~= s@);
                    assert(out@ + linux_of_components(comps@.skip(i as int + 1)) =~= "/mnt"@
                        + linux_of_components(comps@));
                }
            },
        }
        i = i + 1;
    }
    proof {
        lemma_linux_empty();
        assert(comps@.skip(n as int) =~= Seq::<WinComponent>::empty());
        assert(out@ + Seq::<char>::empty() =~= out@);
    }
    Ok(chars_to_string(&out))
}

/// An empty component list contributes nothing.
proof fn lemma_linux_empty()
    ensures
        linux_of_components(Seq::<WinComponent>::empty()) == Seq::<char>::empty(),
{
}

/// A release version: major, minor, patch.
#[derive(Clone, Copy, PartialEq, Eq, Structural, Debug)]
pub struct Semver {
    pub major: u64,
    pub minor: u64,
    pub patch: u64,
}

/// Ordering of release versions, most significant part first.
pub open spec fn semver_lt(a: Semver, b: Semver) -> bool {
    a.major < b.major || (a.major == b.major && (a.minor < b.minor || (a.minor == b.minor
        && a.patch < b.patch)))
}

impl Semver {
    /// Whether this version precedes another.
    pub fn lt(&self, other: &Semver) -> (r: bool)
        ensures
            r == semver_lt(*self, *other),
    {
        if self.major != other.major {
            self.major < other.major
        } else if self.minor != other.minor {
            self.minor < other.minor
        } else {
            self.patch < other.patch
        }
    }
}

/// The cached distribution metadata kept between runs.
pub struct WslInfo {
    pub distribution: String,
    pub last_checked_version: Option<Semver>,
    pub cli_version: Semver,
    pub certs_timestamp: u64,
}

/// Whether the in-container CLI must be refreshed: yes unless the cache
/// records a check against exactly this version.
pub fn wsl_check_cli(info: &WslInfo, self_ver: &Semver) -> (r: bool)
    ensures
        r == (match info.last_checked_version {
            Some(v) => v != *self_ver,
            None => true,
        }),
{
    match &info.last_checked_version {
        Option::Some(v) => !(v.major == self_ver.major && v.minor == self_ver.minor && v.patch
            == self_ver.patch),
        Option::None => true,
    }
}

/// Whether the container certificates are due for refresh: the recorded
/// time plus the interval has passed (saturating far-future records).
pub fn certs_expired(certs_timestamp: u64, interval: u64, now: u64) -> (r: bool)
    ensures
        r == (if certs_timestamp + interval <= u64::MAX {
            certs_timestamp + interval < now
        } else {
            false
        }),
{
    if certs_timestamp <= u64::MAX - interval {
        certs_timestamp + interval < now
    } else {
        false
    }
}

/// What to do with the cached distribution metadata.
pub enum CachePlan {
    /// The cache is fresh: use the recorded distribution as is.
    UseCached(String),
    /// Refresh: update the CLI and/or the certificates, keeping the
    /// recorded certificate time when only the CLI is stale.
    Refresh { distribution: String, update_cli: bool, certs_timestamp: Option<u64> },
    /// The cache is unusable: set the distribution up from scratch.
    Rebuild,
}

/// Decide how far the cached distribution metadata can be trusted: an
/// unregistered or unreadable record rebuilds; a record checked against
/// this CLI version with fresh certificates is used as is; otherwise the
/// stale parts refresh.
pub fn plan_cached_distro(
    info: Option<&WslInfo>,
    registered: bool,
    self_ver: &Semver,
    cert_interval: u64,
    now: u64,
) -> (r: CachePlan)
    ensures
        info is None ==> r is Rebuild,
        info matches Some(i) ==> !registered ==> r is Rebuild,
        info matches Some(i) ==> registered ==> {
            let cli_stale = match i.last_checked_version {
                Some(v) => v != *self_ver,
                None => true,
            };
            let certs_stale = (if i.certs_timestamp + cert_interval <= u64::MAX {
                i.certs_timestamp + cert_interval < now
            } else {
                false
            });
            if !cli_stale && !certs_stale {
                r matches CachePlan::UseCached(d) && d@ == i.distribution@
            } else {
                r matches CachePlan::Refresh { distribution, update_cli, certs_timestamp }
                    && distribution@ == i.distribution@ && update_cli == cli_stale
                    && certs_timestamp == (if certs_stale {
                    Option::<u64>::None
                } else {
                    Option::<u64>::Some(i.certs_timestamp)
                })
            }
        },
{
    match info {
        Option::None => CachePlan::Rebuild,
        Option::Some(i) => {
            if !registered {
                return CachePlan::Rebuild;
            }
            let cli_stale = wsl_check_cli(i, self_ver);
            let certs_stale = certs_expired(i.certs_timestamp, cert_interval, now);
            if !cli_stale && !certs_stale {
                CachePlan::UseCached(i.distribution.clone())
            } else {
                CachePlan::Refresh {
                    distribution: i.distribution.clone(),
                    update_cli: cli_stale,
                    certs_timestamp: if certs_stale {
                        Option::None
                    } else {
                        Option::Some(i.certs_timestamp)
                    },
                }
            }
        },
    }
}

/// A downloadable CLI package: its version and where it lives.
pub struct CliPackage {
    pub version: Semver,
    pub url: String,
}

/// Why no CLI package can be used.
#[derive(Clone, Copy, PartialEq, Eq, Structural, Debug)]
pub enum PickError {
    /// The repository listed nothing.
    NoPackages,
    /// The newest available package is older than this CLI.
    NewestTooOld,
}

/// Choose the container CLI package to download: the first one matching
/// this CLI's version, else the newest available, which must not be older
/// than this CLI.
pub fn pick_cli_package(pkgs: &Vec<CliPackage>, my_ver: &Semver) -> (r: Result<usize, PickError>)
    ensures
        (exists|j: int| 0 <= j < pkgs@.len() && pkgs@[j].version == *my_ver) ==> (
        r matches Ok(ix) && (ix as int) < pkgs@.len() && pkgs@[ix as int].version == *my_ver && (
        forall|j: int| 0 <= j < ix ==> pkgs@[j].version != *my_ver)),
        (!(exists|j: int| 0 <= j < pkgs@.len() && pkgs@[j].version == *my_ver) && pkgs@.len()
            == 0) ==> r == Result::<usize, PickError>::Err(PickError::NoPackages),
        (!(exists|j: int| 0 <= j < pkgs@.len() && pkgs@[j].version == *my_ver) && pkgs@.len()
            > 0) ==> (match r {
            Ok(ix) => {
                &&& (ix as int) < pkgs@.len()
                &&& !semver_lt(pkgs@[ix as int].version, *my_ver)
                &&& forall|j: int|
                    0 <= j < pkgs@.len() ==> !semver_lt(
                        pkgs@[ix as int].version,
                        pkgs@[j].version,
                    )
            },
            Err(e) => {
                &&& e == PickError::NewestTooOld
                &&& forall|j: int|
                    0 <= j < pkgs@.len() ==> (semver_lt(pkgs@[j].version, *my_ver) || pkgs@[
                        j].version == *my_ver)
            },
        }),
{
    let n = pkgs.len();
    let mut i: usize = 0;
    while i < n
        invariant
            i <= n,
            n == pkgs@.len(),
            forall|j: int| 0 <= j < i ==> pkgs@[j].version != *my_ver,
        decreases n - i,
    {
        let v = &pkgs[i].version;
        if v.major == my_ver.major && v.minor == my_ver.minor && v.patch == my_ver.patch {
            return Ok(i);
        }
        i = i + 1;
    }
    if n == 0 {
        return Err(PickError::NoPackages);
    }
    let mut best: usize = 0;
    let mut k: usize = 1;
    while k < n
        invariant
            1 <= k <= n,
            n == pkgs@.len(),
            (best as int) < k as int,
            forall|j: int| 0 <= j < k ==> !semver_lt(pkgs@[best as int].version, pkgs@[j].version),
        decreases n - k,
    {
        if pkgs[best].version.lt(&pkgs[k].version) {
            best = k;
        } else {
            proof {
                assert(!semver_lt(pkgs@[best as int].version, pkgs@[k as int].version));
            }
        }
        k = k + 1;
    }
    if pkgs[best].version.lt(my_ver) {
        proof {
            assert forall|j: int|
                0 <= j < pkgs@.len() implies (semver_lt(pkgs@[j].version, *my_ver) || pkgs@[
                j].version == *my_ver) by {
                assert(!semver_lt(pkgs@[best as int].version, pkgs@[j].version));
                assert(pkgs@[j].version != *my_ver);
            }
        }
        return Err(PickError::NewestTooOld);
    }
    Ok(best)
}

/// The target triple of the container CLI binary for a windows CLI of the
/// given architecture.
pub fn linux_cli_platform(arch: &str) -> (r: String)
    ensures
        r@ == arch@ + "-unknown-linux-musl"@,
{
    arch.to_owned().concat("-unknown-linux-musl")
}

/// What tearing an instance down found and must do next.
pub enum DestroyStep {
    /// The in-container destroy reported the instance missing.
    NotFound,
    /// The in-container destroy removed it.
    Destroyed,
    /// The in-container destroy failed with this exit code.
    Exit(i32),
    /// The in-container destroy was interrupted.
    Interrupted,
}

/// Interpret the in-container destroy's exit status, given the status
/// code that marks a missing instance.
pub fn destroy_status(code: Option<i32>, not_found_code: i32) -> (r: DestroyStep)
    ensures
        code is None ==> r is Interrupted,
        code matches Some(c) ==> (c == not_found_code ==> r is NotFound),
        code matches Some(c) ==> (c == 0 && c != not_found_code ==> r is Destroyed),
        code matches Some(c) ==> (c != 0 && c != not_found_code ==> (r matches DestroyStep::Exit(
            x,
        ) && x == c)),
{
    match code {
        Option::None => DestroyStep::Interrupted,
        Option::Some(c) => {
            if c == not_found_code {
                DestroyStep::NotFound
            } else if c == 0 {
                DestroyStep::Destroyed
            } else {
                DestroyStep::Exit(c)
            }
        },
    }
}

/// Whether tearing an instance down found anything at all: the container
/// knew it, or credentials or service files were present on disk.
pub fn destroy_found(container_found: bool, credentials_existed: bool, service_files_removed:
    usize) -> (r: bool)
    ensures
        r == (container_found || credentials_existed || service_files_removed > 0),
{
    container_found || credentials_existed || service_files_removed > 0
}

/// The 16-bit units of a little-endian byte stream; a trailing odd byte
/// is dropped.
pub open spec fn utf16_units(bytes: Seq<u8>) -> Seq<u16> {
    Seq::new((bytes.len() / 2) as nat, |i: int| (bytes[2 * i] + bytes[2 * i + 1] * 0x100) as u16)
}

/// The replacement code point for unpaired surrogates.
pub open spec fn replacement() -> u32 {
    0xFFFD
}

/// The code points a UTF-16 unit stream decodes to: surrogate pairs
/// combine, unpaired surrogates become the replacement code point.
pub open spec fn utf16_code_points(units: Seq<u16>) -> Seq<u32>
    decreases units.len(),
{
    if units.len() == 0 {
        Seq::empty()
    } else {
        let u = units[0] as nat;
        if 0xD800 <= u && u < 0xDC00 {
            if units.len() >= 2 && 0xDC00 <= units[1] as nat && (units[1] as nat) < 0xE000 {
                seq![(0x10000 + (u - 0xD800) * 0x400 + (units[1] as nat - 0xDC00)) as u32]
                    + utf16_code_points(units.skip(2))
            } else {
                seq![replacement()] + utf16_code_points(units.drop_first())
            }
        } else if 0xDC00 <= u && u < 0xE000 {
            seq![replacement()] + utf16_code_points(units.drop_first())
        } else {
            seq![u as u32] + utf16_code_points(units.drop_first())
        }
    }
}

/// The code points of a character sequence.
pub open spec fn code_points_of(s: Seq<char>) -> Seq<u32> {
    Seq::new(s.len(), |i: int| s[i] as u32)
}

/// Whether `n` occurs in `h` starting at offset `i`.
pub open spec fn matches_points_at(h: Seq<u32>, n: Seq<u32>, i: int) -> bool {
    0 <= i && i + n.len() <= h.len() && h.subrange(i, i + n.len() as int) == n
}

/// Whether `n` occurs anywhere in `h`.
pub open spec fn has_point_substring(h: Seq<u32>, n: Seq<u32>) -> bool {
    exists|i: int| matches_points_at(h, n, i)
}

/// Decode a little-endian UTF-16 byte stream to code points.
pub fn decode_utf16_points(bytes: &Vec<u8>) -> (r: Vec<u32>)
    ensures
        r@ == utf16_code_points(utf16_units(bytes@)),
{
    let ghost units = utf16_units(bytes@);
    let blen = bytes.len();
    let m = blen / 2;
    proof {
        assert(m as nat == units.len());
    }
    let mut out: Vec<u32> = Vec::new();
    let mut i: usize = 0;
    proof {
        assert(units.skip(0) =~= units);
        assert(out@ + utf16_code_points(units.skip(0)) =~= utf16_code_points(units));
    }
    while i < m
        invariant
            i <= m,
            m as nat == units.len(),
            units == utf16_units(bytes@),
            2 * m <= bytes@.len(),
            bytes@.len() <= usize::MAX,
            out@ + utf16_code_points(units.skip(i as int)) == utf16_code_points(units),
        decreases m - i,
    {
        proof {
            assert(units.skip(i as int)[0] == units[i as int]);
            assert(units.skip(i as int).drop_first() =~= units.skip(i as int + 1));
            assert(units[i as int] == (bytes@[2 * i] + bytes@[2 * i + 1] * 0x100) as u16);
        }
        let u: u32 = (bytes[2 * i] as u32) + (bytes[2 * i + 1] as u32) * 0x100;
        let ghost o0 = out@;
        if 0xD800 <= u && u < 0xDC00 {
            let mut paired = false;
            let mut v: u32 = 0;
            if i + 1 < m {
                proof {
                    assert(units.skip(i as int)[1] == units[i as int + 1]);
                    assert(units[i as int + 1] == (bytes@[2 * (i + 1)] + bytes@[2 * (i + 1) + 1]
                        * 0x100) as u16);
                }
                v = (bytes[2 * (i + 1)] as u32) + (bytes[2 * (i + 1) + 1] as u32) * 0x100;
                if 0xDC00 <= v && v < 0xE000 {
                    paired = true;
                }
            }
            if paired {
                out.push(0x10000 + (u - 0xD800) * 0x400 + (v - 0xDC00));
                proof {
                    assert(units.skip(i as int).skip(2) =~= units.skip(i as int + 2));
                    assert(out@ =~= o0 + seq![
                        (0x10000 + ((units[i as int] as nat) - 0xD800) * 0x400 + ((units[
                            i as int + 1] as nat) - 0xDC00)) as u32,
                    ]);
                    assert(out@ + utf16_code_points(units.skip(i as int + 2))
                        =~= utf16_code_points(units));
                }
                i = i + 2;
            } else {
                out.push(0xFFFD);
                proof {
                    assert(out@ =~= o0 + seq![replacement()]);
                    assert(out@ + utf16_code_points(units.skip(i as int + 1))
                        =~= utf16_code_points(units));
                }
                i = i + 1;
            }
        } else if 0xDC00 <= u && u < 0xE000 {
            out.push(0xFFFD);
            proof {
                assert(out@ =~= o0 + seq![replacement()]);
                assert(out@ + utf16_code_points(units.skip(i as int + 1)) =~= utf16_code_points(
                    units,
                ));
            }
            i = i + 1;
        } else {
            out.push(u);
            proof {
                assert(u == units[i as int] as u32);
                assert(out@ =~= o0 + seq![(units[i as int] as nat) as u32]);
                assert(out@ + utf16_code_points(units.skip(i as int + 1)) =~= utf16_code_points(
                    units,
                ));
            }
            i = i + 1;
        }
    }
    proof {
        assert(units.skip(m as int) =~= Seq::<u16>::empty());
        assert(utf16_code_points(Seq::<u16>::empty()) == Seq::<u32>::empty());
        assert(out@ + Seq::<u32>::empty() =~= out@);
    }
    out
}

/// Whether the needle occurs in the haystack of code points.
fn contains_points(h: &Vec<u32>, n: &Vec<u32>) -> (r: bool)
    ensures
        r == has_point_substring(h@, n@),
{
    let hn = h.len();
    let nn = n.len();
    if nn > hn {
        proof {
            assert(forall|i: int| !matches_points_at(h@, n@, i));
        }
        return false;
    }
    let mut i: usize = 0;
    while i <= hn - nn
        invariant
            nn <= hn,
            hn == h@.len(),
            nn == n@.len(),
            i <= hn - nn + 1,
            forall|j: int| 0 <= j < i ==> !matches_points_at(h@, n@, j),
        decreases hn + 1 - nn - i,
    {
        let mut k: usize = 0;
        let mut all = true;
        while k < nn
            invariant
                i + nn <= hn,
                hn == h@.len(),
                nn == n@.len(),
                k <= nn,
                all == (forall|j: int| 0 <= j < k ==> h@[i + j] == n@[j]),
                !all ==> k == nn,
            decreases nn - k,
        {
            if h[i + k] != n[k] {
                all = false;
                proof {
                    assert(h@[i + k] != n@[k as int]);
                }
                k = nn;
            } else {
                proof {
                    assert forall|j: int| 0 <= j < k + 1 implies h@[i + j] == #[trigger] n@[j]
                        by {
                        if j < k {
                            assert(h@[i + j] == n@[j]);
                        }
                    }
                }
                k = k + 1;
            }
        }
        if all {
            proof {
                assert(h@.subrange(i as int, i + nn) =~= n@);
                assert(matches_points_at(h@, n@, i as int));
            }
            return true;
        }
        proof {
            if matches_points_at(h@, n@, i as int) {
                assert(h@.subrange(i as int, i + nn) == n@);
                assert forall|j: int| 0 <= j < nn implies h@[i + j] == #[trigger] n@[j] by {
                    assert(h@.subrange(i as int, i + nn)[j] == h@[i + j]);
                }
                assert(false);
            }
        }
        i = i + 1;
    }
    proof {
        assert forall|j: int| !(#[trigger] matches_points_at(h@, n@, j)) by {
            if 0 <= j && j + n@.len() <= h@.len() {
                assert(j < i);
            }
        }
    }
    false
}

/// Whether a little-endian UTF-16 byte stream, decoded with unpaired
/// surrogates replaced, contains the needle.
pub fn utf16_contains(bytes: &Vec<u8>, needle: &str) -> (r: bool)
    ensures
        r == has_point_substring(
            utf16_code_points(utf16_units(bytes@)),
            code_points_of(needle@),
        ),
{
    let h = decode_utf16_points(bytes);
    let cs = str_chars(needle);
    let mut n: Vec<u32> = Vec::new();
    let mut i: usize = 0;
    while i < cs.len()
        invariant
            i <= cs@.len(),
            cs@ == needle@,
            n@ == code_points_of(needle@).take(i as int),
        decreases cs@.len() - i,
    {
        n.push(cs[i] as u32);
        proof {
            assert(n@ =~= code_points_of(needle@).take(i as int + 1));
        }
        i = i + 1;
    }
    proof {
        assert(code_points_of(needle@).take(needle@.len() as int) =~= code_points_of(needle@));
    }
    contains_points(&h, &n)
}


/// Where a unix path maps under the distribution's network share.
pub open spec fn windows_of_components(comps: Seq<WinComponent>) -> Seq<char>
    decreases comps.len(),
{
    if comps.len() == 0 {
        Seq::empty()
    } else {
        (match comps[0] {
            WinComponent::Normal(s) => seq!['\\'] + s@,
            _ => Seq::<char>::empty(),
        }) + windows_of_components(comps.drop_first())
    }
}

/// Whether a unix path converts cleanly: only root and normal components.
pub open spec fn unix_path_ok(comps: Seq<WinComponent>) -> Option<PathError>
    decreases comps.len(),
{
    if comps.len() == 0 {
        None
    } else {
        match comps[0] {
            WinComponent::Disk(_) => Some(PathError::PrefixInUnixPath),
            WinComponent::OtherPrefix => Some(PathError::PrefixInUnixPath),
            WinComponent::Cur => Some(PathError::CurDir),
            WinComponent::Parent => Some(PathError::ParentDir),
            _ => unix_path_ok(comps.drop_first()),
        }
    }
}

/// Convert an in-container path to its location on the distribution's
/// network share: the share root, the distribution name, then each
/// segment.
pub fn path_to_windows(comps: &Vec<WinComponent>) -> (r: Result<String, PathError>)
    ensures
        unix_path_ok(comps@) is Some ==> (r matches Err(e) && Some(e) == unix_path_ok(comps@)),
        unix_path_ok(comps@) is None ==> (r matches Ok(p) && p@ == "\\\\WSL$\\"@ + BRANDING_WSL@
            + windows_of_components(comps@)),
{
    let mut out: Vec<char> = str_chars("\\\\WSL$\\");
    let dist = str_chars(BRANDING_WSL);
    let mut di: usize = 0;
    let ghost head = "\\\\WSL$\\"@ + BRANDING_WSL@;
    while di < dist.len()
        invariant
            di <= dist@.len(),
            dist@ == BRANDING_WSL@,
            out@ == "\\\\WSL$\\"@ + BRANDING_WSL@.take(di as int),
        decreases dist@.len() - di,
    {
        out.push(dist[di]);
        proof {
            assert(out@ =~= "\\\\WSL$\\"@ + BRANDING_WSL@.take(di as int + 1));
        }
        di = di + 1;
    }
    proof {
        assert(BRANDING_WSL@.take(BRANDING_WSL@.len() as int) =~= BRANDING_WSL@);
        assert(comps@.skip(0) =~= comps@);
    }
    let n = comps.len();
    let mut i: usize = 0;
    while i < n
        invariant
            i <= n,
            n == comps@.len(),
            head == "\\\\WSL$\\"@ + BRANDING_WSL@,
            unix_path_ok(comps@.skip(i as int)) == unix_path_ok(comps@),
            out@ + windows_of_components(comps@.skip(i as int)) == head + windows_of_components(
                comps@,
            ),
        decreases n - i,
    {
        proof {
            assert(comps@.skip(i as int)[0] == comps@[i as int]);
            assert(comps@.skip(i as int).drop_first() =~= comps@.skip(i as int + 1));
        }
        match &comps[i] {
            WinComponent::Disk(_) => {
                proof {
                    assert(unix_path_ok(comps@) == Some(PathError::PrefixInUnixPath));
                }
                return Err(PathError::PrefixInUnixPath);
            },
            WinComponent::OtherPrefix => {
                proof {
                    assert(unix_path_ok(comps@) == Some(PathError::PrefixInUnixPath));
                }
                return Err(PathError::PrefixInUnixPath);
            },
            WinComponent::Cur => {
                proof {
                    assert(unix_path_ok(comps@) == Some(PathError::CurDir));
                }
                return Err(PathError::CurDir);
            },
            WinComponent::Parent => {
                proof {
                    assert(unix_path_ok(comps@) == Some(PathError::ParentDir));
                }
                return Err(PathError::ParentDir);
            },
            WinComponent::Root => {
                proof {
                    assert(out@ + windows_of_components(comps@.skip(i as int + 1)) =~= head
                        + windows_of_components(comps@));
                }
            },
            WinComponent::Normal(s) => {
                out.push('\\');
                let cs = str_chars(s.as_str());
                let mut j: usize = 0;
                let ghost out_before = out@;
                while j < cs.len()
                    invariant
                        j <= cs@.len(),
                        cs@ == s@,
                        out@ == out_before + s@.take(j as int),
                    decreases cs@.len() - j,
                {
                    out.push(cs[j]);
                    proof {
                        assert(out@ =~= out_before + s@.take(j as int + 1));
                    }
                    j = j + 1;
                }
                proof {
                    assert(s@.take(s@.len() as int) =~= s@);
                    assert(out@ + windows_of_components(comps@.skip(i as int + 1)) =~= head
                        + windows_of_components(comps@));
                }
            },
        }
        i = i + 1;
    }
    proof {
        assert(comps@.skip(n as int) =~= Seq::<WinComponent>::empty());
        assert(out@ + Seq::<char>::empty() =~= out@);
    }
    Ok(chars_to_string(&out))
}


/// How an instance listing reports its findings.
#[derive(Clone, Copy, PartialEq, Eq, Structural, Debug)]
pub enum ListReport {
    /// Errors only; the listing fails.
    ErrorsOnly,
    /// Nothing found: print the empty JSON list.
    EmptyJson,
    /// Nothing found: print the no-instances notice.
    EmptyNotice,
    /// Nothing found and quiet: print nothing.
    EmptyQuiet,
    /// Print every remote record in debug form.
    Debug,
    /// Print every remote record in extended form.
    Extended,
    /// Print local and remote records as JSON.
    Json,
    /// Print the table of local and remote records.
    Table,
}

/// Decide how an instance listing reports: an empty listing reports its
/// emptiness (or the collected errors), a non-empty one picks the format
/// the caller asked for.
pub fn list_report(
    local_empty: bool,
    remote_empty: bool,
    had_errors: bool,
    debug: bool,
    extended: bool,
    json: bool,
    quiet: bool,
) -> (r: ListReport)
    ensures
        (local_empty && remote_empty && had_errors) ==> r == ListReport::ErrorsOnly,
        (local_empty && remote_empty && !had_errors && json) ==> r == ListReport::EmptyJson,
        (local_empty && remote_empty && !had_errors && !json && !quiet) ==> r
            == ListReport::EmptyNotice,
        (local_empty && remote_empty && !had_errors && !json && quiet) ==> r
            == ListReport::EmptyQuiet,
        !(local_empty && remote_empty) ==> r == (if debug {
            ListReport::Debug
        } else if extended {
            ListReport::Extended
        } else if json {
            ListReport::Json
        } else {
            ListReport::Table
        }),
{
    if local_empty && remote_empty {
        if had_errors {
            ListReport::ErrorsOnly
        } else if json {
            ListReport::EmptyJson
        } else if !quiet {
            ListReport::EmptyNotice
        } else {
            ListReport::EmptyQuiet
        }
    } else if debug {
        ListReport::Debug
    } else if extended {
        ListReport::Extended
    } else if json {
        ListReport::Json
    } else {
        ListReport::Table
    }
}


/// What a server version listing should do.
pub enum ListVersionsAction {
    /// Run the in-container listing.
    Run(Native),
    /// No distribution, JSON output: print the empty list.
    PrintEmptyJson,
    /// No distribution, human output: warn that nothing is present.
    WarnMissing,
}

/// Plan a server version listing.
pub fn list_versions(
    wsl: Option<&Wsl>,
    options: &Vec<String>,
    json: bool,
    log_env: Option<&String>,
) -> (r: ListVersionsAction)
    ensures
        wsl matches Some(w) ==> (r matches ListVersionsAction::Run(n) && args_view(n.args@)
            == wsl_base_args(
            w.distribution@,
            match log_env {
                Some(v) => Some(v@),
                None => None,
            },
        ) + seq!["/usr/bin/edgedb"@, "server"@, "list-versions"@] + args_view(options@)),
        wsl is None && json ==> r is PrintEmptyJson,
        wsl is None && !json ==> r is WarnMissing,
{
    match wsl {
        Option::Some(w) => ListVersionsAction::Run(
            passthrough(w, log_env, "server", "list-versions", options),
        ),
        Option::None => {
            if json {
                ListVersionsAction::PrintEmptyJson
            } else {
                ListVersionsAction::WarnMissing
            }
        },
    }
}

} // verus!
