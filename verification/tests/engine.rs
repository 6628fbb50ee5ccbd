use super_scanner::engine::executor::{http_method_name, parse_raw_http, HttpResponse, TemplateRun};
use super_scanner::engine::matcher::{evaluate_matchers, evaluate_single_matcher, matchers_readable_exec, MatchContext};
use super_scanner::engine::template::{
    normalize_severity, severity_weight, Extractor, HttpRequest, Matcher, NucleiTemplate, TemplateFilter, TemplateInfo,
};
use super_scanner::engine::variables::{
    parse_target_url, replace_dynamic_vars, replace_headers, replace_variables,
    replace_variables_seeded,
};
use super_scanner::engine::NucleiEngine;

fn s(v: &str) -> String {
    v.to_string()
}

fn make_ctx() -> MatchContext<'static> {
    MatchContext {
        body: "<html><title>Admin Panel</title></html>",
        headers: "HTTP/1.1 200 OK\r\nServer: nginx\r\nContent-Type: text/html",
        status_code: 200,
        content_length: 42,
    }
}

fn matcher(kind: &str) -> Matcher {
    Matcher {
        matcher_type: kind.into(),
        part: None,
        words: None,
        regex: None,
        status: None,
        dsl: None,
        condition: None,
        negative: None,
        case_insensitive: None,
    }
}

#[test]
fn test_word_matcher_basic() {
    let ctx = make_ctx();
    let m = Matcher { part: Some("body".into()), words: Some(vec!["Admin Panel".into()]), ..matcher("word") };
    assert!(evaluate_single_matcher(&m, &ctx));
}

#[test]
fn test_word_matcher_case_insensitive() {
    let ctx = make_ctx();
    let m = Matcher {
        part: Some("body".into()),
        words: Some(vec!["admin panel".into()]),
        case_insensitive: Some(true),
        ..matcher("word")
    };
    assert!(evaluate_single_matcher(&m, &ctx));
}

#[test]
fn test_word_matcher_negative() {
    let ctx = make_ctx();
    let m = Matcher {
        part: Some("body".into()),
        words: Some(vec!["Not Found".into()]),
        negative: Some(true),
        ..matcher("word")
    };
    assert!(evaluate_single_matcher(&m, &ctx));
}

#[test]
fn test_status_matcher() {
    let ctx = make_ctx();
    let m = Matcher { status: Some(vec![200]), ..matcher("status") };
    assert!(evaluate_single_matcher(&m, &ctx));
}

#[test]
fn test_regex_matcher() {
    let ctx = make_ctx();
    let m = Matcher { part: Some("body".into()), regex: Some(vec!["<title>[^<]+</title>".into()]), ..matcher("regex") };
    assert!(evaluate_single_matcher(&m, &ctx));
}

#[test]
fn test_dsl_contains() {
    let ctx = make_ctx();
    let m = Matcher { dsl: Some(vec!["contains(body, 'Admin Panel')".into()]), ..matcher("dsl") };
    assert!(evaluate_single_matcher(&m, &ctx));
}

#[test]
fn test_dsl_status_code() {
    let ctx = make_ctx();
    let m = Matcher { dsl: Some(vec!["status_code == 200".into()]), ..matcher("dsl") };
    assert!(evaluate_single_matcher(&m, &ctx));
}

#[test]
fn test_matchers_and_condition() {
    let ctx = make_ctx();
    let matchers = vec![
        Matcher { part: Some("body".into()), words: Some(vec!["Admin".into()]), ..matcher("word") },
        Matcher { status: Some(vec![200]), ..matcher("status") },
    ];
    assert!(evaluate_matchers(&matchers, "and", &ctx));
}

#[test]
fn test_matchers_or_condition() {
    let ctx = make_ctx();
    let matchers = vec![
        Matcher { part: Some("body".into()), words: Some(vec!["NotExist".into()]), ..matcher("word") },
        Matcher { status: Some(vec![500]), ..matcher("status") },
    ];
    assert!(!evaluate_matchers(&matchers, "and", &ctx));
    assert!(!evaluate_matchers(&matchers, "or", &ctx));
}

#[test]
fn header_parts_and_empty_lists() {
    let ctx = make_ctx();
    let m = Matcher { part: Some("header=server".into()), words: Some(vec!["nginx".into()]), ..matcher("word") };
    assert!(evaluate_single_matcher(&m, &ctx));
    assert!(!evaluate_matchers(&[], "or", &ctx));
    assert!(matchers_readable_exec(&[m], ctx.headers));
    let odd = Matcher { part: Some("header=".into()), words: Some(vec!["x".into()]), ..matcher("word") };
    assert!(!matchers_readable_exec(&[odd], "\n"));
    let no_words = Matcher { part: Some("header=".into()), ..matcher("word") };
    assert!(matchers_readable_exec(&[no_words], "\n"));
    let status = Matcher { part: Some("header=".into()), status: Some(vec![200]), ..matcher("status") };
    assert!(matchers_readable_exec(&[status.clone()], "\n"));
    let odd_ctx = MatchContext { body: "", headers: "\n", status_code: 200, content_length: 0 };
    assert!(evaluate_single_matcher(&status, &odd_ctx));
    let unknown = Matcher { part: Some("header=".into()), negative: Some(true), ..matcher("bogus") };
    assert!(evaluate_single_matcher(&unknown, &odd_ctx));
}

#[test]
fn test_replace_baseurl() {
    let result = replace_variables("{{BaseURL}}/admin", "http://10.0.0.1:8080");
    assert_eq!(result, "http://10.0.0.1:8080/admin");
}

#[test]
fn test_replace_hostname() {
    let result = replace_variables("Host: {{Hostname}}", "https://example.com/path");
    assert_eq!(result, "Host: example.com");
}

#[test]
fn test_replace_randstr() {
    let result = replace_variables("{{randstr}}", "http://10.0.0.1");
    assert!(!result.contains("{{randstr}}"));
    assert_eq!(result.len(), 8);
}

#[test]
fn test_parse_target_https_default_port() {
    let result = replace_variables("{{BaseURL}}/api", "https://example.com/api");
    assert_eq!(result, "https://example.com/api");
}

#[test]
fn test_replace_headers() {
    let headers = vec![
        (s("Host"), s("{{Hostname}}")),
        (s("X-Custom"), s("{{BaseURL}}/test")),
    ];
    let result = replace_headers(&headers, "http://10.0.0.1:8080", &[]);
    let get = |k: &str| result.iter().find(|(n, _)| n == k).map(|(_, v)| v.clone()).unwrap();
    assert_eq!(get("Host"), "10.0.0.1");
    assert_eq!(get("X-Custom"), "http://10.0.0.1:8080/test");
}

#[test]
fn target_parts_and_seeded_randomness() {
    let p = parse_target_url("https://example.com");
    assert_eq!(p.port, "443");
    assert_eq!(p.scheme, "https");
    let a = replace_variables_seeded("{{randstr_4}}-{{rand_base(6)}}", "http://h", 7);
    let b = replace_variables_seeded("{{randstr_4}}-{{rand_base(6)}}", "http://h", 7);
    assert_eq!(a, b);
    assert_eq!(replace_variables_seeded("plain", "http://h", 1), "plain");
    assert_eq!(replace_dynamic_vars("{{token}}/{{x}}", &[(s("token"), s("abc"))]), "abc/{{x}}");
}

#[test]
fn raw_requests_and_methods() {
    let (url, method, headers, body) =
        parse_raw_http("POST /login HTTP/1.1\nHost: example.com\nX-A: 1\n\nuser=a", &vec![]);
    assert_eq!(method, "POST");
    assert_eq!(url, "http://example.com:80/login");
    assert!(headers.iter().any(|(k, v)| k == "X-A" && v == "1"));
    assert_eq!(body, "user=a");
    assert_eq!(http_method_name(Some("post")), "POST");
    assert_eq!(http_method_name(Some("TRACE")), "GET");
    assert_eq!(http_method_name(None), "GET");
}

fn info(name: &str, severity: &str, tags: Option<&str>) -> TemplateInfo {
    TemplateInfo {
        name: s(name),
        severity: s(severity),
        description: None,
        tags: tags.map(s),
        author: None,
        reference: vec![],
        metadata: None,
    }
}

fn request(paths: &[&str], matchers: Option<Vec<Matcher>>) -> HttpRequest {
    HttpRequest {
        method: Some(s("GET")),
        path: paths.iter().map(|p| s(p)).collect(),
        raw: vec![],
        headers: vec![(s("Authorization"), s("Bearer {{token}}"))],
        body: None,
        matchers_condition: Some(s("and")),
        matchers,
        extractors: Some(vec![Extractor {
            extractor_type: s("regex"),
            name: Some(s("token")),
            regex: Some(vec![s("tok=([a-z]+)")]),
            json: None,
            part: Some(s("body")),
            group: Some(1),
        }]),
        stop_at_first_match: Some(true),
        redirects: None,
        host_redirects: None,
        max_redirects: None,
    }
}

#[test]
fn test_tag_index() {
    let t = NucleiTemplate {
        id: s("test-template"),
        info: info("Test Template", "medium", Some("test,discovery")),
        http: vec![request(&["{{BaseURL}}/test"], None)],
    };
    let engine = NucleiEngine::from_templates(vec![t]);
    let filter = TemplateFilter { tags_include: vec!["discovery".to_string()], ..Default::default() };
    let selected = engine.select_templates(&filter);
    assert_eq!(selected.len(), 1);
}

#[test]
fn selection_by_tags_severity_and_ids() {
    let mk = |id: &str, sev: &str, tags: Option<&str>| NucleiTemplate { id: s(id), info: info(id, sev, tags), http: vec![request(&["/"], None)] };
    let engine = NucleiEngine::from_templates(vec![
        mk("a", "medium", Some("cve, web")),
        mk("z", "low", Some("web")),
        mk("b", "critical", Some("web")),
        mk("c", "high", None),
    ]);
    assert_eq!(engine.template_count(), 4);
    assert!(engine.templates_dir().is_none());
    let web = engine.select_templates(&TemplateFilter { tags_include: vec![s("web")], ..Default::default() });
    assert_eq!(web.iter().map(|t| t.id.as_str()).collect::<Vec<_>>(), vec!["a", "b"]);
    let severe = engine.select_templates(&TemplateFilter { severity_min: Some(s("high")), ..Default::default() });
    assert_eq!(severe.iter().map(|t| t.id.as_str()).collect::<Vec<_>>(), vec!["b", "c"]);
    let no_cve = engine.select_templates(&TemplateFilter { tags_exclude: vec![s("cve")], ..Default::default() });
    assert_eq!(no_cve.iter().map(|t| t.id.as_str()).collect::<Vec<_>>(), vec!["b", "c"]);
    let by_id = engine.select_templates(&TemplateFilter { template_ids: Some(vec![s("c")]), ..Default::default() });
    assert_eq!(by_id.len(), 1);
    assert_eq!(NucleiEngine::default_dir("/srv/root"), "/srv/root/nuclei-templates");
    assert_eq!(NucleiEngine::default_dir("/srv/root/"), "/srv/root/nuclei-templates");
}

#[test]
fn a_run_sends_each_path_and_stops_at_the_first_match() {
    let matchers = vec![Matcher { part: Some(s("body")), words: Some(vec![s("ok")]), ..matcher("word") }];
    let t = NucleiTemplate {
        id: s("run"),
        info: info("Run", "high", None),
        http: vec![request(&["{{BaseURL}}/a", "{{BaseURL}}/b"], Some(matchers))],
    };
    let mut run = TemplateRun::new();
    let first = run.next_request(&t, "http://h:8080").expect("a first request");
    assert_eq!(first.target, "http://h:8080/a");
    assert_eq!(first.headers, vec![(s("Authorization"), s("Bearer {{token}}"))]);
    run.record_response(&t, &first, Some(&HttpResponse { status: 404, headers: String::new(), body: s("nope") }));
    assert!(run.results().is_empty());
    assert!(!run.is_finished());
    let second = run.next_request(&t, "http://h:8080").expect("a second request");
    assert_eq!((second.request_index, second.path_index), (0, 1));
    run.record_response(&t, &second, Some(&HttpResponse { status: 200, headers: String::new(), body: s("ok tok=abc") }));
    assert_eq!(run.results().len(), 1);
    let m = &run.results()[0];
    assert_eq!(m.matched_at, "http://h:8080/b");
    assert_eq!(m.detail, "template_id=run, request=0, path=1");
    assert_eq!(m.extractors, vec![(s("token"), vec![s("abc")])]);
    assert!(run.is_finished());
    assert!(run.next_request(&t, "http://h:8080").is_none());
}

#[test]
fn failed_sends_and_missing_matchers_record_nothing() {
    let t = NucleiTemplate {
        id: s("quiet"),
        info: info("Quiet", "high", None),
        http: vec![request(&["{{BaseURL}}/"], None)],
    };
    let mut run = TemplateRun::new();
    let p = run.next_request(&t, "http://h").unwrap();
    run.record_response(&t, &p, None);
    run.record_response(&t, &p, Some(&HttpResponse { status: 200, headers: String::new(), body: s("ok") }));
    assert!(run.results().is_empty());
    assert!(run.next_request(&t, "http://h").is_none());
    assert!(run.is_finished());
}

#[test]
fn randstr_hex_gives_eight_hex_digits() {
    let r = replace_variables("{{randstr_hex}}", "http://10.0.0.1");
    assert_eq!(r.len(), 8);
    assert!(r.chars().all(|c| c.is_ascii_digit() || ('a'..='f').contains(&c)));
    let r = replace_variables_seeded("a{{randstr_hex_4}}b", "http://h", 3);
    assert_eq!(r.len(), 6);
    assert!(r[1..5].chars().all(|c| c.is_ascii_digit() || ('a'..='f').contains(&c)));
}

#[test]
fn normalizing_a_severity_keeps_its_weight() {
    use_severity_law();
}

fn use_severity_law() {
    for s in ["critical", "HIGH", "Medium", "low", "info", "unknown", "bogus", ""] {
        let w = severity_weight(s);
        assert_eq!(severity_weight(normalize_severity(s)), if w >= 1 { w } else { 1 });
    }
    assert_eq!(severity_weight("high"), 4);
}
