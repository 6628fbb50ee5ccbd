//! The built-in TCP connect scanner: which ports it tries, what it sends to
//! make a service speak, and how it names a service it cannot identify.
use vstd::prelude::*;
use crate::records::CommandSpec;
use crate::text::{chars_of, clone_strings, concat, owned, string_of, views};

verus! {

/// The ports the built-in scanner tries on each target, in order.
pub open spec fn top_ports_spec() -> Seq<u16> {
    seq![21, 22, 23, 25, 53, 80, 110, 143, 443, 445, 3306, 3389, 8080]
}

/// The ports the built-in scanner tries on each target, in order.
pub fn top_ports() -> (res: Vec<u16>)
    ensures
        res@ == top_ports_spec(),
{
    let v: Vec<u16> = vec![21, 22, 23, 25, 53, 80, 110, 143, 443, 445, 3306, 3389, 8080];
    assert(v@ =~= top_ports_spec());
    v
}

/// What is sent to a silent service to make it answer.
pub open spec fn probe_payloads_spec(target: Seq<char>, port: u16) -> Seq<Seq<char>> {
    if port == 80 || port == 8080 || port == 8000 || port == 8888 {
        seq!["GET / HTTP/1.0\r\nHost: "@ + target + "\r\n\r\n"@]
    } else if port == 25 || port == 587 || port == 2525 {
        seq!["EHLO superscanner.local\r\n"@]
    } else if port == 110 {
        seq!["CAPA\r\n"@]
    } else if port == 143 {
        seq!["a001 CAPABILITY\r\n"@]
    } else {
        seq!["\r\n"@]
    }
}

/// What is sent to a silent service on `port` of `target` to make it answer.
pub fn probe_payloads(target: &str, port: u16) -> (res: Vec<String>)
    ensures
        views(res@) == probe_payloads_spec(target@, port),
{
    let mut v: Vec<String> = Vec::new();
    if port == 80 || port == 8080 || port == 8000 || port == 8888 {
        let a = chars_of("GET / HTTP/1.0\r\nHost: ");
        let b = chars_of(target);
        let c = chars_of("\r\n\r\n");
        let ab = concat(a.as_slice(), b.as_slice());
        let abc = concat(ab.as_slice(), c.as_slice());
        v.push(string_of(abc.as_slice()));
    } else if port == 25 || port == 587 || port == 2525 {
        v.push(owned("EHLO superscanner.local\r\n"));
    } else if port == 110 {
        v.push(owned("CAPA\r\n"));
    } else if port == 143 {
        v.push(owned("a001 CAPABILITY\r\n"));
    } else {
        v.push(owned("\r\n"));
    }
    assert(views(v@) =~= probe_payloads_spec(target@, port));
    v
}

/// Conventional service name of a well-known port.
pub open spec fn fallback_service_spec(port: u16) -> Seq<char> {
    if port == 21 {
        "ftp"@
    } else if port == 22 {
        "ssh"@
    } else if port == 23 {
        "telnet"@
    } else if port == 25 {
        "smtp"@
    } else if port == 53 {
        "dns"@
    } else if port == 80 || port == 8080 || port == 8000 || port == 8888 {
        "http"@
    } else if port == 110 {
        "pop3"@
    } else if port == 143 {
        "imap"@
    } else if port == 443 || port == 8443 {
        "https"@
    } else if port == 445 {
        "microsoft-ds"@
    } else if port == 3306 {
        "mysql"@
    } else if port == 3389 {
        "rdp"@
    } else {
        "unknown"@
    }
}

/// Conventional service name of a well-known port; `unknown` otherwise.
pub fn fallback_service_by_port(port: u16) -> (res: &'static str)
    ensures
        res@ == fallback_service_spec(port),
{
    match port {
        21 => "ftp",
        22 => "ssh",
        23 => "telnet",
        25 => "smtp",
        53 => "dns",
        80 | 8080 | 8000 | 8888 => "http",
        110 => "pop3",
        143 => "imap",
        443 | 8443 => "https",
        445 => "microsoft-ds",
        3306 => "mysql",
        3389 => "rdp",
        _ => "unknown",
    }
}

/// Service recorded for an open port: what the banner matched, else the
/// conventional name of the port.
pub fn service_for_port(banner_match: Option<String>, port: u16) -> (res: String)
    ensures
        res@ == match banner_match {
            Some(s) => s@,
            None => fallback_service_spec(port),
        },
{
    match banner_match {
        Some(s) => s,
        None => owned(fallback_service_by_port(port)),
    }
}

/// The built-in TCP connect scanner.
pub struct BuiltinPortScanCommand;

impl BuiltinPortScanCommand {
    /// The command identifier.
    pub fn id(&self) -> (res: &'static str)
        ensures
            res@ == "builtin_port_scan"@,
    {
        "builtin_port_scan"
    }

    /// A short description.
    pub fn description(&self) -> (res: &'static str)
        ensures
            res@ == "Builtin TCP Port Scanner"@,
    {
        "Builtin TCP Port Scanner"
    }

    /// The scan of all `targets` with `args`.
    pub fn build_spec(&self, targets: &[String], args: &[String]) -> (res: CommandSpec)
        ensures
            res.id@ == "builtin_port_scan"@,
            res.program@ == "builtin_port_scan"@,
            res.args@ == args@,
            res.targets@ == targets@,
            res.env is None,
            res.cwd is None,
    {
        CommandSpec {
            id: owned("builtin_port_scan"),
            program: owned("builtin_port_scan"),
            args: clone_strings(args),
            targets: clone_strings(targets),
            env: None,
            cwd: None,
        }
    }
}

/// The fallback service names of the well-known ports: 443 and 8443 are
/// https, 80, 8080, 8000 and 8888 are http, and each other listed port its
/// own service; no port is both http and https.
pub proof fn law_fallback_table(port: u16)
    ensures
        (port == 443 || port == 8443) ==> fallback_service_spec(port) == "https"@,
        (port == 80 || port == 8080 || port == 8000 || port == 8888) ==> fallback_service_spec(port) == "http"@,
        port == 21 ==> fallback_service_spec(port) == "ftp"@,
        port == 22 ==> fallback_service_spec(port) == "ssh"@,
        port == 23 ==> fallback_service_spec(port) == "telnet"@,
        port == 25 ==> fallback_service_spec(port) == "smtp"@,
        port == 53 ==> fallback_service_spec(port) == "dns"@,
        port == 110 ==> fallback_service_spec(port) == "pop3"@,
        port == 143 ==> fallback_service_spec(port) == "imap"@,
        port == 445 ==> fallback_service_spec(port) == "microsoft-ds"@,
        port == 3306 ==> fallback_service_spec(port) == "mysql"@,
        fallback_service_spec(port) == "https"@ ==> (port == 443 || port == 8443),
        fallback_service_spec(port) == "http"@ ==> (port == 80 || port == 8080 || port == 8000 || port == 8888),
{
    reveal_strlit("https");
    reveal_strlit("http");
    reveal_strlit("ftp");
    reveal_strlit("ssh");
    reveal_strlit("telnet");
    reveal_strlit("smtp");
    reveal_strlit("dns");
    reveal_strlit("pop3");
    reveal_strlit("imap");
    reveal_strlit("microsoft-ds");
    reveal_strlit("mysql");
    reveal_strlit("rdp");
    reveal_strlit("unknown");
    assert("https"@.len() != "http"@.len());
    assert("https"@[0] != "mysql"@[0]);
    assert("http"@[0] != "smtp"@[0] && "http"@[0] != "pop3"@[0] && "http"@[0] != "imap"@[0]);
    assert("https"@.len() != "ftp"@.len() && "https"@.len() != "ssh"@.len() && "https"@.len() != "telnet"@.len()
        && "https"@.len() != "smtp"@.len() && "https"@.len() != "dns"@.len() && "https"@.len() != "pop3"@.len()
        && "https"@.len() != "imap"@.len() && "https"@.len() != "microsoft-ds"@.len() && "https"@.len()
        != "rdp"@.len() && "https"@.len() != "unknown"@.len());
    assert("http"@.len() != "ftp"@.len() && "http"@.len() != "ssh"@.len() && "http"@.len() != "telnet"@.len()
        && "http"@.len() != "dns"@.len() && "http"@.len() != "microsoft-ds"@.len() && "http"@.len()
        != "mysql"@.len() && "http"@.len() != "rdp"@.len() && "http"@.len() != "unknown"@.len());
}

/// What the scanner tries and sends: thirteen well-known ports, each once,
/// in increasing order, among them 22, 80, 443 and 3389; a single probe per
/// port, an HTTP request for `/` naming the target as its host on the HTTP
/// ports, a greeting on the mail ports, a capability request for POP3 and
/// IMAP, and a bare line end elsewhere. A port outside the known ones falls
/// back to `unknown`, 3389 to `rdp`.
pub proof fn law_scan_plan(target: Seq<char>, port: u16)
    ensures
        top_ports_spec().len() == 13,
        forall|i: int, j: int| 0 <= i < j < 13 ==> top_ports_spec()[i] < top_ports_spec()[j],
        top_ports_spec().contains(22u16) && top_ports_spec().contains(80u16) && top_ports_spec().contains(
            443u16,
        ) && top_ports_spec().contains(3389u16),
        probe_payloads_spec(target, port).len() == 1,
        (port == 80 || port == 8080 || port == 8000 || port == 8888) ==> probe_payloads_spec(target, port)[0]
            == "GET / HTTP/1.0\r\nHost: "@ + target + "\r\n\r\n"@,
        (port == 25 || port == 587 || port == 2525) ==> probe_payloads_spec(target, port)[0]
            == "EHLO superscanner.local\r\n"@,
        port == 110 ==> probe_payloads_spec(target, port)[0] == "CAPA\r\n"@,
        port == 143 ==> probe_payloads_spec(target, port)[0] == "a001 CAPABILITY\r\n"@,
        !(port == 80 || port == 8080 || port == 8000 || port == 8888 || port == 25 || port == 587 || port
            == 2525 || port == 110 || port == 143) ==> probe_payloads_spec(target, port)[0] == "\r\n"@,
        port == 3389 ==> fallback_service_spec(port) == "rdp"@,
        !(port == 21 || port == 22 || port == 23 || port == 25 || port == 53 || port == 80 || port == 8080
            || port == 8000 || port == 8888 || port == 110 || port == 143 || port == 443 || port == 8443
            || port == 445 || port == 3306 || port == 3389) ==> fallback_service_spec(port) == "unknown"@,
{
    assert(top_ports_spec()[1] == 22u16);
    assert(top_ports_spec()[5] == 80u16);
    assert(top_ports_spec()[8] == 443u16);
    assert(top_ports_spec()[11] == 3389u16);
}

} // verus!
