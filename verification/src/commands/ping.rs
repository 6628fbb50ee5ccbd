//! ICMP reachability check through the system `ping`.
use vstd::prelude::*;
use crate::records::CommandSpec;
use crate::text::{append_strings, owned, views};

verus! {

/// The first target alone, if there is one.
pub open spec fn first_target(targets: Seq<String>) -> Seq<String> {
    if targets.len() > 0 {
        seq![targets[0]]
    } else {
        Seq::empty()
    }
}

/// The first target alone, if there is one.
pub fn first_target_exec(targets: &[String]) -> (res: Vec<String>)
    ensures
        res@ == first_target(targets@),
{
    let mut v: Vec<String> = Vec::new();
    if targets.len() > 0 {
        v.push(targets[0].clone());
        assert(v@ =~= seq![targets@[0]]);
    }
    v
}

/// `std::path::is_separator`; a backslash separates path components on
/// Windows only, so this tells the two platform families apart. What it
/// returns depends on the platform the program was built for, so nothing is
/// stated of it.
#[verifier::external_body]
fn is_path_separator(c: char) -> bool {
    std::path::is_separator(c)
}

/// The echo-count option of `ping` on the given platform family.
pub open spec fn ping_count_flag(windows: bool) -> Seq<char> {
    if windows {
        "-n"@
    } else {
        "-c"@
    }
}

/// ICMP ping.
pub struct PingCommand;

impl PingCommand {
    /// The command identifier.
    pub fn id(&self) -> (res: &'static str)
        ensures
            res@ == "ping"@,
    {
        "ping"
    }

    /// A short description.
    pub fn description(&self) -> (res: &'static str)
        ensures
            res@ == "ICMP Ping 连通性测试"@,
    {
        "ICMP Ping 连通性测试"
    }

    /// The command for the given platform family: four echo requests to the
    /// first target, the user's arguments after the count option.
    pub fn build_spec_for(&self, windows: bool, targets: &[String], user_args: &[String]) -> (res:
        CommandSpec)
        ensures
            res.id@ == "ping"@,
            res.program@ == "ping"@,
            views(res.args@) == seq![ping_count_flag(windows), "4"@] + views(user_args@),
            res.targets@ == first_target(targets@),
            res.env is None,
            res.cwd is None,
    {
        let mut args: Vec<String> = Vec::new();
        if windows {
            args.push(owned("-n"));
        } else {
            args.push(owned("-c"));
        }
        args.push(owned("4"));
        let ghost a0 = args@;
        let args = append_strings(args, user_args);
        assert(views(args@) =~= seq![ping_count_flag(windows), "4"@] + views(user_args@)) by {
            assert(views(a0) =~= seq![ping_count_flag(windows), "4"@]);
        }
        CommandSpec {
            id: owned("ping"),
            program: owned("ping"),
            args,
            targets: first_target_exec(targets),
            env: None,
            cwd: None,
        }
    }

    /// The command for the platform this program runs on.
    pub fn build_spec(&self, targets: &[String], user_args: &[String]) -> (res: CommandSpec)
        ensures
            res.id@ == "ping"@,
            res.program@ == "ping"@,
            exists|w: bool|
                views(res.args@) == seq![#[trigger] ping_count_flag(w), "4"@] + views(user_args@),
            res.targets@ == first_target(targets@),
            res.env is None,
            res.cwd is None,
    {
        let windows = is_path_separator('\\');
        let r = self.build_spec_for(windows, targets, user_args);
        assert(views(r.args@) == seq![ping_count_flag(windows), "4"@] + views(user_args@));
        r
    }
    /// The arguments of a single liveness probe of a target: one echo
    /// request with a one-second wait, in the option syntax of the given
    /// platform family.
    pub fn probe_args_for(windows: bool, target: &str) -> (res: Vec<String>)
        ensures
            views(res@) == if windows {
                seq!["-n"@, "1"@, "-w"@, "1000"@, target@]
            } else {
                seq!["-c"@, "1"@, "-W"@, "1"@, target@]
            },
    {
        let mut v: Vec<String> = Vec::new();
        if windows {
            v.push(owned("-n"));
            v.push(owned("1"));
            v.push(owned("-w"));
            v.push(owned("1000"));
        } else {
            v.push(owned("-c"));
            v.push(owned("1"));
            v.push(owned("-W"));
            v.push(owned("1"));
        }
        v.push(owned(target));
        assert(views(v@) =~= if windows {
            seq!["-n"@, "1"@, "-w"@, "1000"@, target@]
        } else {
            seq!["-c"@, "1"@, "-W"@, "1"@, target@]
        });
        v
    }
}

/// `ping` counts echo requests with `-n` on Windows and `-c` elsewhere, and
/// pings at most one target: the first one given, when there is one.
pub proof fn law_ping_options(targets: Seq<String>)
    ensures
        ping_count_flag(true) == "-n"@,
        ping_count_flag(false) == "-c"@,
        first_target(targets).len() == if targets.len() > 0 {
            1int
        } else {
            0int
        },
        targets.len() > 0 ==> first_target(targets)[0] == targets[0],
{
}

} // verus!
