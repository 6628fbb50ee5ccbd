//! HTTP header probe through the system `curl`.
use vstd::prelude::*;
use crate::commands::ping::{first_target, first_target_exec};
use crate::records::CommandSpec;
use crate::text::{append_strings, owned, views};

verus! {

/// Fetches the response headers of the first target.
pub struct CurlCommand;

impl CurlCommand {
    /// The command identifier.
    pub fn id(&self) -> (res: &'static str)
        ensures
            res@ == "curl"@,
    {
        "curl"
    }

    /// A short description.
    pub fn description(&self) -> (res: &'static str)
        ensures
            res@ == "HTTP 请求测试"@,
    {
        "HTTP 请求测试"
    }

    /// `curl -I` with the user's arguments, against the first target.
    pub fn build_spec(&self, targets: &[String], user_args: &[String]) -> (res: CommandSpec)
        ensures
            res.id@ == "curl"@,
            res.program@ == "curl"@,
            views(res.args@) == seq!["-I"@] + views(user_args@),
            res.targets@ == first_target(targets@),
            res.env is None,
            res.cwd is None,
    {
        let mut args: Vec<String> = Vec::new();
        args.push(owned("-I"));
        let ghost a0 = args@;
        let args = append_strings(args, user_args);
        assert(views(args@) =~= seq!["-I"@] + views(user_args@)) by {
            assert(views(a0) =~= seq!["-I"@]);
        }
        CommandSpec {
            id: owned("curl"),
            program: owned("curl"),
            args,
            targets: first_target_exec(targets),
            env: None,
            cwd: None,
        }
    }
}

} // verus!
