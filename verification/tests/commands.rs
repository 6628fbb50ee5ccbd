use super_scanner::commands::fscan::{
    build_parsed_record as fscan_record, process_output as fscan_process_output, FscanCommand,
};
use super_scanner::commands::httpx::{
    build_parsed_record as httpx_record, process_output as httpx_process_output, HttpxCommand,
};
use super_scanner::commands::registry::CommandRegistry;
use super_scanner::commands::nmap::{parse_grepable_output, scan_failure_error, scan_timeout_error, NmapCommand};
use super_scanner::commands::nuclei::{
    applicable_templates, extract_ip, extract_port, extract_scheme, finding_for_match,
    normalize_target, NucleiCommand,
};
use super_scanner::commands::ping::PingCommand;
use super_scanner::commands::port_scan::{fallback_service_by_port, BuiltinPortScanCommand};
use super_scanner::commands::rules::{raw_output_file_name, tool_failure_error, ParseFormat, ToolRule};
use super_scanner::commands::service_probes::{
    match_service_banner, normalize_pattern, parse_delimited, parse_fields, parse_probe_line,
    probe_content_readable, ServiceProbeMatcher,
};
use super_scanner::engine::template::{HttpRequest, MatchResult, NucleiTemplate, TemplateInfo};
use super_scanner::tasks::AppError;

fn s(v: &str) -> String {
    v.to_string()
}

fn fscan_rule() -> ToolRule {
    ToolRule {
        args_template: vec![s("-json"), s("-h"), s("{{target}}")],
        format: ParseFormat::Jsonl,
        field_mappings: vec![
            (s("host"), s("host")),
            (s("port"), s("port")),
            (s("protocol"), s("protocol")),
            (s("service"), s("service")),
            (s("banner"), s("banner")),
        ],
        normalize_maps: vec![],
        persist_targets: vec![s("host"), s("port")],
    }
}

fn httpx_rule() -> ToolRule {
    ToolRule {
        args_template: vec![s("-json"), s("-u"), s("{{target}}")],
        format: ParseFormat::Jsonl,
        field_mappings: vec![
            (s("input"), s("target")),
            (s("host"), s("host")),
            (s("url"), s("url")),
            (s("status_code"), s("status_code")),
            (s("title"), s("title")),
        ],
        normalize_maps: vec![],
        persist_targets: vec![s("target"), s("host"), s("url"), s("status_code")],
    }
}

fn error_text(e: &AppError) -> String {
    e.message()
}

#[test]
fn fscan_test_build_spec_uses_rule_defaults() {
    let cmd = FscanCommand::new("fscan".to_string());
    let spec = cmd.build_spec(&["127.0.0.1".to_string()], &[]);
    assert_eq!(spec.id, "fscan");
    assert!(spec.args.iter().any(|v| v == "-json"));
    assert!(spec.args.iter().any(|v| v == "{{target}}"));
}

#[test]
fn test_parse_fscan_record_success() {
    let cmd = FscanCommand::with_rule("fscan".to_string(), fscan_rule());
    let rule = cmd.load_rule().expect("rule should load");
    let line = r#"{"host":"10.0.0.1","port":445,"protocol":"tcp","service":"smb","banner":"SMBv2"}"#;
    let parsed = fscan_record(line, rule, "sample.jsonl", 1).expect("record should parse");
    assert_eq!(parsed.target, "10.0.0.1");
    assert_eq!(parsed.port, 445);
    assert_eq!(parsed.protocol, "tcp");
    assert_eq!(parsed.service, "smb");
    assert_eq!(parsed.banner.as_deref(), Some("SMBv2"));
}

#[test]
fn test_parse_fscan_record_missing_port() {
    let cmd = FscanCommand::with_rule("fscan".to_string(), fscan_rule());
    let rule = cmd.load_rule().expect("rule should load");
    let line = r#"{"host":"10.0.0.1","protocol":"tcp","service":"smb"}"#;
    let err = fscan_record(line, rule, "sample.jsonl", 2).expect_err("should fail");
    assert!(error_text(&err).contains("port"));
}

#[test]
fn fscan_without_rule_refuses_to_load_one() {
    let cmd = FscanCommand::new("fscan".to_string());
    assert!(matches!(cmd.load_rule(), Err(AppError::Config(_))));
}

#[test]
fn httpx_test_build_spec_uses_rule_defaults() {
    let cmd = HttpxCommand::new("httpx".to_string());
    let spec = cmd.build_spec(&["127.0.0.1".to_string()], &[]);
    assert_eq!(spec.id, "httpx");
    assert!(spec.args.iter().any(|v| v == "-json"));
    assert!(spec.args.iter().any(|v| v == "{{target}}"));
}

#[test]
fn test_parse_httpx_record_success() {
    let cmd = HttpxCommand::with_rule("httpx".to_string(), httpx_rule());
    let rule = cmd.load_rule().expect("rule should load");
    let line = r#"{"input":"10.0.0.1","host":"10.0.0.1","url":"https://10.0.0.1:8443/login","status_code":401,"title":"Login"}"#;
    let parsed = httpx_record(line, rule, "sample.jsonl", 1).expect("record should parse");
    assert_eq!(parsed.target, "10.0.0.1");
    assert_eq!(parsed.host, "10.0.0.1");
    assert_eq!(parsed.scheme, "https");
    assert_eq!(parsed.port, 8443);
    assert_eq!(parsed.status_code, Some(401));
    assert_eq!(parsed.title.as_deref(), Some("Login"));
}

#[test]
fn test_parse_httpx_record_uses_url_host_when_host_missing() {
    let cmd = HttpxCommand::with_rule("httpx".to_string(), httpx_rule());
    let rule = cmd.load_rule().expect("rule should load");
    let line = r#"{"url":"http://example.com/admin","status_code":200}"#;
    let parsed = httpx_record(line, rule, "sample.jsonl", 2).expect("record should parse");
    assert_eq!(parsed.target, "example.com");
    assert_eq!(parsed.host, "example.com");
    assert_eq!(parsed.scheme, "http");
    assert_eq!(parsed.port, 80);
}

#[test]
fn test_parse_httpx_record_missing_target_host_url() {
    let cmd = HttpxCommand::with_rule("httpx".to_string(), httpx_rule());
    let rule = cmd.load_rule().expect("rule should load");
    let line = r#"{"status_code":500}"#;
    let err = httpx_record(line, rule, "sample.jsonl", 3).expect_err("should fail");
    assert!(error_text(&err).contains("target/host/url"));
}

#[test]
fn nmap_test_id_and_description() {
    let cmd = NmapCommand::new("nmap".to_string(), vec![], 30);
    assert_eq!(cmd.id(), "nmap");
    assert!(!cmd.description().is_empty());
}

#[test]
fn nmap_test_build_spec_returns_correct_program() {
    let cmd = NmapCommand::new("custom-nmap".to_string(), vec!["-Pn".to_string()], 30);
    let spec = cmd.build_spec(&["10.0.0.1".to_string()], &[]);
    assert_eq!(spec.program, "custom-nmap");
    assert_eq!(spec.id, "nmap");
    assert_eq!(spec.targets, vec!["10.0.0.1".to_string()]);
    assert_eq!(spec.args, vec!["-Pn".to_string()]);
}

#[test]
fn nmap_scan_args_end_with_target_and_grepable_output() {
    let cmd = NmapCommand::new("nmap".to_string(), vec![s("-sS"), s("-T4")], 30);
    assert_eq!(cmd.scan_args("10.0.0.5"), vec![s("-sS"), s("-T4"), s("10.0.0.5"), s("-oG"), s("-")]);
}

#[test]
fn nmap_grepable_output_gives_port_rows() {
    let out = "# Nmap 7.94 scan initiated\nHost: 10.0.0.1 ()\tStatus: Up\nHost: 10.0.0.1 ()\tPorts: 22/open/tcp//ssh///, 80/open/tcp//http///, 443/closed/tcp/////, bad, 9x/open/tcp//x///\n";
    let rows = parse_grepable_output("10.0.0.1", out);
    assert_eq!(rows.len(), 3);
    assert_eq!((rows[0].port, rows[0].state.as_str(), rows[0].service.as_str()), (22, "open", "ssh"));
    assert_eq!((rows[1].port, rows[1].protocol.as_str(), rows[1].service.as_str()), (80, "tcp", "http"));
    assert_eq!((rows[2].port, rows[2].state.as_str(), rows[2].service.as_str()), (443, "closed", "unknown"));
    assert!(rows.iter().all(|r| r.ip == "10.0.0.1" && r.tool == "nmap"));
}

#[test]
fn nmap_errors_carry_target_and_cause() {
    match scan_timeout_error("10.0.0.1", 30) {
        AppError::Task(m) => assert_eq!(m, "Nmap 扫描超时: 10.0.0.1 (30s)"),
        _ => panic!("expected a task error"),
    }
    match scan_failure_error("10.0.0.1", "  boom \n") {
        AppError::Task(m) => assert_eq!(m, "Nmap 扫描失败 [10.0.0.1]: boom"),
        _ => panic!("expected a task error"),
    }
}

#[test]
fn test_normalize_target_preserves_http() {
    assert_eq!(normalize_target("http://10.0.0.1:8080"), "http://10.0.0.1:8080");
}

#[test]
fn test_normalize_target_adds_http() {
    assert_eq!(normalize_target("10.0.0.1:8080"), "http://10.0.0.1:8080");
}

#[test]
fn test_extract_ip() {
    assert_eq!(extract_ip("http://10.0.0.1:8080/path"), Some("10.0.0.1".to_string()));
    assert_eq!(extract_ip("https://example.com/path"), Some("example.com".to_string()));
}

#[test]
fn test_extract_port() {
    assert_eq!(extract_port("http://10.0.0.1:8080/path"), Some(8080));
    assert_eq!(extract_port("https://example.com/path"), None);
}

#[test]
fn test_extract_scheme() {
    assert_eq!(extract_scheme("https://example.com/path"), "https");
    assert_eq!(extract_scheme("http://10.0.0.1:8080"), "http");
}

#[test]
fn nuclei_test_build_spec() {
    let cmd = NucleiCommand::new("/nonexistent".to_string());
    let spec = cmd.build_spec(&["127.0.0.1".to_string()], &[]);
    assert_eq!(spec.id, "nuclei");
}

#[test]
fn nuclei_ipv6_targets_keep_their_brackets_apart() {
    assert_eq!(extract_ip("http://[::1]:8080/x"), Some("::1".to_string()));
    assert_eq!(extract_port("http://[::1]:8080/x"), Some(8080));
    assert_eq!(normalize_target("   "), "");
    assert_eq!(extract_scheme("10.0.0.1"), "http");
}

fn template(id: &str, severity: &str, requests: usize) -> NucleiTemplate {
    let mut http = Vec::new();
    for _ in 0..requests {
        http.push(HttpRequest {
            method: Some(s("GET")),
            path: vec![s("{{BaseURL}}/")],
            raw: vec![],
            headers: vec![],
            body: None,
            matchers_condition: None,
            matchers: None,
            extractors: None,
            stop_at_first_match: None,
            redirects: None,
            host_redirects: None,
            max_redirects: None,
        });
    }
    NucleiTemplate {
        id: s(id),
        info: TemplateInfo {
            name: format!("{} name", id),
            severity: s(severity),
            description: None,
            tags: None,
            author: None,
            reference: vec![],
            metadata: None,
        },
        http,
    }
}

#[test]
fn nuclei_runs_only_medium_and_worse_http_templates() {
    let ts = vec![
        template("a", "info", 1),
        template("b", "High", 1),
        template("c", "critical", 0),
        template("d", "medium", 2),
        template("e", "low", 1),
    ];
    let picked: Vec<&str> = applicable_templates(&ts).iter().map(|t| t.id.as_str()).collect();
    assert_eq!(picked, vec!["b", "d"]);
}

#[test]
fn nuclei_finding_of_a_match() {
    let m = MatchResult {
        template_id: s(" CVE-1 "),
        name: s("Admin Panel"),
        severity: s("HIGH"),
        matched_at: s("http://10.0.0.1:8080/admin"),
        matcher_name: None,
        extractors: vec![(s("token"), vec![s("a\"b"), s("c")])],
        detail: s("template_id=CVE-1, request=0, path=0"),
    };
    let f = finding_for_match("http://10.0.0.1:8080", &m);
    assert_eq!(f.dedupe_key.as_deref(), Some("nuclei|http://10.0.0.1:8080|cve-1|admin panel"));
    assert_eq!(f.finding_type, "vulnerability");
    assert_eq!(f.severity, "high");
    assert_eq!(f.title, "Admin Panel");
    assert_eq!(f.ip.as_deref(), Some("10.0.0.1"));
    assert_eq!(f.port, Some(8080));
    assert_eq!(f.protocol.as_deref(), Some("http"));
    assert_eq!(f.source_command.as_deref(), Some("nuclei (builtin)"));
    let meta: serde_json::Value = serde_json::from_str(f.metadata_json.as_deref().unwrap()).unwrap();
    assert_eq!(meta["extractors"]["token"][0], "a\"b");
    assert_eq!(meta["matched_at"], "http://10.0.0.1:8080/admin");
    assert_eq!(meta["severity"], "HIGH");
    assert_eq!(meta["template_id"], " CVE-1 ");
}

#[test]
fn ping_test_id_and_description() {
    let cmd = PingCommand;
    assert_eq!(cmd.id(), "ping");
    assert!(!cmd.description().is_empty());
}

#[test]
fn ping_test_build_spec_returns_correct_program() {
    let cmd = PingCommand;
    let spec = cmd.build_spec(&["192.168.1.1".to_string()], &[]);
    assert!(!spec.program.is_empty());
    assert_eq!(spec.id, "ping");
}

#[test]
fn test_build_spec_empty_targets() {
    let cmd = PingCommand;
    let spec = cmd.build_spec(&[], &[]);
    assert!(spec.targets.is_empty());
}

#[test]
fn ping_probe_uses_platform_syntax() {
    assert_eq!(PingCommand::probe_args_for(false, "h"), vec![s("-c"), s("1"), s("-W"), s("1"), s("h")]);
    assert_eq!(PingCommand::probe_args_for(true, "h"), vec![s("-n"), s("1"), s("-w"), s("1000"), s("h")]);
    let spec = PingCommand.build_spec_for(false, &[s("a"), s("b")], &[s("-q")]);
    assert_eq!(spec.args, vec![s("-c"), s("4"), s("-q")]);
    assert_eq!(spec.targets, vec![s("a")]);
}

#[test]
fn port_scan_test_id_and_description() {
    let cmd = BuiltinPortScanCommand;
    assert_eq!(cmd.id(), "builtin_port_scan");
    assert!(!cmd.description().is_empty());
}

#[test]
fn port_scan_test_build_spec() {
    let cmd = BuiltinPortScanCommand;
    let targets = vec!["192.168.1.1".to_string()];
    let spec = cmd.build_spec(&targets, &[]);
    assert_eq!(spec.id, "builtin_port_scan");
    assert_eq!(spec.targets, targets);
}

#[test]
fn test_fallback_service_by_port() {
    assert_eq!(fallback_service_by_port(22), "ssh");
    assert_eq!(fallback_service_by_port(80), "http");
    assert_eq!(fallback_service_by_port(9999), "unknown");
}

#[test]
fn tool_errors_and_output_names() {
    assert_eq!(raw_output_file_name("10.0.0.1:80/x"), "10.0.0.1_80_x.jsonl");
    match tool_failure_error("fscan", "t", None, " e ", "o\n") {
        AppError::Task(m) => assert_eq!(m, "fscan 执行失败 [t] (exit=-1): stderr='e' stdout='o'"),
        _ => panic!("expected a task error"),
    }
}

#[test]
fn parse_match_with_product() {
    let line = r#"match http m|^HTTP/1\.[01] \d{3}| p/Apache httpd/ v/$1/"#;
    let parsed = parse_probe_line(line, false).expect("parse failed");
    assert_eq!(parsed.service, "http");
    assert_eq!(parsed.product.as_deref(), Some("Apache httpd"));
    assert!(parsed.is_match(b"HTTP/1.1 200 OK\r\n"));
}

#[test]
fn parse_softmatch_line() {
    let line = r#"softmatch ssh m|^SSH-\d\.\d-OpenSSH| p/OpenSSH/"#;
    let parsed = parse_probe_line(line, true).expect("softmatch parse failed");
    assert_eq!(parsed.service, "ssh");
    assert!(parsed.is_match(b"SSH-2.0-OpenSSH_9.9\r\n"));
}

#[test]
fn matcher_prefers_product_name() {
    let content = "match redis m|^-ERR unknown command| p/Redis key-value store/\n";
    let matcher = ServiceProbeMatcher::from_content(content);
    let svc = matcher.match_service(b"-ERR unknown command 'PING'\r\n");
    assert_eq!(svc.as_deref(), Some("Redis key-value store"));
}

#[test]
fn probe_rules_read_delimiters_fields_and_flags() {
    assert_eq!(parse_delimited("m|a\\|b|rest", 'm'), Some((s("a\\|b"), s("rest"))));
    assert_eq!(parse_delimited("m|open", 'm'), None);
    assert_eq!(parse_delimited("x|a|", 'm'), None);
    assert_eq!(parse_fields(" p/one/ v/1.0/ junk p/two/ i|x\\|y|"), vec![('p', s("one")), ('v', s("1.0")), ('i', s("x\\|y"))]);
    assert_eq!(normalize_pattern("a\\0b"), "a\\x00b");
    let rule = parse_probe_line("match ftp m/^220 (FTP)/is", false).unwrap();
    assert!(rule.case_insensitive && rule.dot_matches_new_line && !rule.multi_line);
    assert!(rule.is_match(b"220 ftp ready"));
    assert!(parse_probe_line("match bad m/(/", false).is_none());
    assert!(parse_probe_line("softmatch x m/a/", false).is_none());
}

#[test]
fn probe_file_rules_in_order() {
    let content = "# comment\n\nmatch a m/^X/ p/first/\nsoftmatch b m/^X/\nmatch broken m/(/\nmatch c m/^Y/\n";
    assert!(probe_content_readable(content));
    let m = ServiceProbeMatcher::from_content(content);
    assert_eq!(m.rule_count(), 3);
    assert_eq!(m.match_service(b"XYZ").as_deref(), Some("first"));
    assert_eq!(m.match_service(b"YZ").as_deref(), Some("c"));
    assert_eq!(m.match_service(b"Z"), None);
    assert_eq!(match_service_banner(Some(&m), b""), None);
    assert_eq!(match_service_banner(None, b"X"), None);
    assert_eq!(match_service_banner(Some(&m), b"X").as_deref(), Some("first"));
}

#[test]
fn fscan_outputs_follow_the_lines_in_order() {
    let rule = fscan_rule();
    let content = [
        r#"{"host":"10.0.0.1","port":445,"protocol":"tcp","service":"smb"}"#,
        "",
        r#"{"host":"10.0.0.2","protocol":"tcp"}"#,
        r#"{"host":"10.0.0.3","port":22,"protocol":"tcp","service":"ssh"}"#,
        "not json",
    ]
    .join("\n");
    let (outs, skipped) = fscan_process_output(&content, &rule, "a.jsonl", "fscan");
    assert_eq!(outs.len(), 2);
    assert_eq!(outs[0].0.ip, "10.0.0.1");
    assert_eq!(outs[0].0.port, 445);
    assert_eq!(outs[1].0.ip, "10.0.0.3");
    assert_eq!(outs[1].1.dedupe_key.as_deref(), Some("fscan|10.0.0.3|22|tcp"));
    assert_eq!(skipped.len(), 2);
    assert!(skipped[0].contains("a.jsonl:3"));
    assert!(skipped[1].contains("a.jsonl:5"));
}

#[test]
fn httpx_stops_at_the_first_bad_line() {
    let rule = httpx_rule();
    let content = [
        r#"{"input":"10.0.0.1","host":"10.0.0.1","url":"http://10.0.0.1/","status_code":200}"#,
        r#"{"status_code":500}"#,
        "not json",
    ]
    .join("\n");
    let err = httpx_process_output(&content, &rule, "h.jsonl").expect_err("second line is refused");
    let text = error_text(&err);
    assert!(text.contains("h.jsonl:2"));
    assert!(text.contains("target/host/url"));
}

#[test]
fn registry_keeps_one_entry_per_id() {
    let r = CommandRegistry::new()
        .register("nmap", "Nmap")
        .register("httpx", "HTTP fingerprinting")
        .register("nmap", "Nmap scanner")
        .register_factory("nuclei");
    assert_eq!(
        r.list_commands(),
        vec![
            (s("nmap"), s("Nmap scanner")),
            (s("httpx"), s("HTTP fingerprinting")),
            (s("nuclei"), s("factory-registered")),
        ]
    );
    assert_eq!(r.get("httpx").as_deref(), Some("HTTP fingerprinting"));
    assert_eq!(r.get("fscan"), None);
    assert_eq!(r.ids(), vec![s("nmap"), s("httpx"), s("nuclei")]);
}
