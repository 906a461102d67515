//! The systemd unit that runs the agent as a service.

use vstd::prelude::*;

use crate::paths::{join_path, joined};
use crate::text::push_str;

verus! {

broadcast use vstd::string::group_string_axioms;

/// The unit file that runs `bin_path --config config_path agent`, wanted by
/// the multi-user target for a system service and by the default target for
/// a user service.
pub open spec fn unit_file(bin_path: Seq<char>, config_path: Seq<char>, system: bool) -> Seq<char> {
    "[Unit]\nDescription=orga agent\nAfter=network.target\n\n[Service]\nType=simple\nExecStart="@
        + bin_path + " --config "@ + config_path
        + " agent\nRestart=on-failure\nRestartSec=30\n\n[Install]\nWantedBy="@ + (if system {
        "multi-user.target"@
    } else {
        "default.target"@
    }) + "\n"@
}

/// The unit file of the agent service (see `unit_file`).
pub fn generate_unit_file(bin_path: &str, config_path: &str, system: bool) -> (r: String)
    ensures
        r@ == unit_file(bin_path@, config_path@, system),
{
    let mut out = String::new();
    push_str(
        &mut out,
        "[Unit]\nDescription=orga agent\nAfter=network.target\n\n[Service]\nType=simple\nExecStart=",
    );
    push_str(&mut out, bin_path);
    push_str(&mut out, " --config ");
    push_str(&mut out, config_path);
    push_str(&mut out, " agent\nRestart=on-failure\nRestartSec=30\n\n[Install]\nWantedBy=");
    if system {
        push_str(&mut out, "multi-user.target");
    } else {
        push_str(&mut out, "default.target");
    }
    push_str(&mut out, "\n");
    out
}

/// The directory of the unit file: the system unit directory, or the user
/// unit directory below `home`.
pub open spec fn unit_dir(system: bool, home: Seq<char>) -> Seq<char> {
    if system {
        "/etc/systemd/system"@
    } else {
        joined(home, ".config/systemd/user"@)
    }
}

/// The directory of the unit file (see `unit_dir`).
pub fn unit_target_dir(system: bool, home: &str) -> (r: String)
    ensures
        r@ == unit_dir(system, home@),
{
    if system {
        let mut out = String::new();
        push_str(&mut out, "/etc/systemd/system");
        out
    } else {
        join_path(home, ".config/systemd/user")
    }
}

/// The file name of the unit.
pub open spec fn unit_name() -> Seq<char> {
    "orga-agent.service"@
}

/// The path of the unit file in the directory `dir`.
pub fn unit_file_path(dir: &str) -> (r: String)
    ensures
        r@ == joined(dir@, unit_name()),
{
    join_path(dir, "orga-agent.service")
}

/// The prefix of the `systemctl` commands for a system or a user service.
pub open spec fn systemctl_prefix(system: bool) -> Seq<char> {
    if system {
        "sudo systemctl"@
    } else {
        "systemctl --user"@
    }
}

/// The commands that enable and start the service, after the reload
/// command where the reload did not work: each is `systemctl_prefix`
/// followed by the subcommand.
pub open spec fn service_commands(system: bool, reloaded: bool) -> Seq<Seq<char>> {
    let p = systemctl_prefix(system);
    let start = seq![p + " enable orga-agent"@, p + " start orga-agent"@];
    if reloaded {
        start
    } else {
        seq![p + " daemon-reload"@] + start
    }
}

fn command(system: bool, sub: &str) -> (r: String)
    ensures
        r@ == systemctl_prefix(system) + sub@,
{
    let mut out = String::new();
    if system {
        push_str(&mut out, "sudo systemctl");
    } else {
        push_str(&mut out, "systemctl --user");
    }
    push_str(&mut out, sub);
    out
}

/// The commands to run after the unit file was written (see
/// `service_commands`).
pub fn install_commands(system: bool, reloaded: bool) -> (r: Vec<String>)
    ensures
        r@.len() == service_commands(system, reloaded).len(),
        forall|i: int| 0 <= i < r@.len() ==> (#[trigger] r@[i])@ == service_commands(system, reloaded)[i],
{
    let mut out: Vec<String> = Vec::new();
    if !reloaded {
        out.push(command(system, " daemon-reload"));
    }
    out.push(command(system, " enable orga-agent"));
    out.push(command(system, " start orga-agent"));
    out
}

} // verus!
