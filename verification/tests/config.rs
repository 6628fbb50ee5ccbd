use super_scanner::config::{
    AppConfig, BinaryResolution, CliArgs, ConfigEnv, ConfigSources, ToolsSection, executable_exists, names_path, non_empty_string, resolve_binary, templates_settings_edit, BinaryCandidate, NucleiTemplatesConfig,
};
use super_scanner::config_file::persist_nuclei_templates_config;
use super_scanner::templates::{effective_template_dir, git_sync_args, TemplatesState};

fn check_creates_and_updates_tools_section() {
    let content = persist_nuclei_templates_config(
        "/tmp/config.toml",
        None,
        Some("C:\\nuclei\\templates"),
        "https://example.com/repo.git",
    )
    .expect("persist config");
    let parsed: toml::Value = toml::from_str(&content).expect("parse config");
    let tools = parsed.get("tools").and_then(|v| v.as_table()).expect("tools table");
    assert_eq!(
        tools.get("nuclei_templates_dir").and_then(|v| v.as_str()).expect("templates dir"),
        "C:\\nuclei\\templates"
    );
    assert_eq!(
        tools.get("nuclei_templates_repo").and_then(|v| v.as_str()).expect("repo url"),
        "https://example.com/repo.git"
    );
}

fn check_preserves_unrelated_fields_and_clears_local() {
    let existing = r#"
[server]
name = "prod"

[tools]
nmap_binary = "/usr/bin/nmap"
nuclei_templates_dir = "/old/path"
nuclei_templates_cache_dir = "/cache/path"
"#;
    let content = persist_nuclei_templates_config(
        "/tmp/config.toml",
        Some(existing),
        None,
        "https://new.repo/templates.git",
    )
    .expect("persist config");
    let parsed: toml::Value = toml::from_str(&content).expect("parse config");
    assert_eq!(
        parsed.get("server").and_then(|v| v.get("name")).and_then(|v| v.as_str()),
        Some("prod")
    );
    let tools = parsed.get("tools").and_then(|v| v.as_table()).expect("tools table");
    assert!(tools.get("nuclei_templates_dir").is_none());
    assert_eq!(tools.get("nmap_binary").and_then(|v| v.as_str()).expect("nmap binary"), "/usr/bin/nmap");
    assert_eq!(
        tools.get("nuclei_templates_cache_dir").and_then(|v| v.as_str()).expect("cache"),
        "/cache/path"
    );
    assert_eq!(
        tools.get("nuclei_templates_repo").and_then(|v| v.as_str()).expect("repo"),
        "https://new.repo/templates.git"
    );
}

#[test]
fn config_persist_nuclei_templates_config_creates_and_updates_tools_section() {
    check_creates_and_updates_tools_section();
}

#[test]
fn config_persist_nuclei_templates_config_preserves_unrelated_fields_and_clears_local() {
    check_preserves_unrelated_fields_and_clears_local();
}

#[test]
fn nuclei_persist_nuclei_templates_config_creates_and_updates_tools_section() {
    check_creates_and_updates_tools_section();
}

#[test]
fn nuclei_persist_nuclei_templates_config_preserves_unrelated_fields_and_clears_local() {
    check_preserves_unrelated_fields_and_clears_local();
}

#[test]
fn persisting_refuses_blank_repositories_and_broken_files() {
    assert_eq!(
        persist_nuclei_templates_config("c.toml", None, None, "   ").unwrap_err(),
        "nuclei templates repo 不能为空"
    );
    let err = persist_nuclei_templates_config("c.toml", Some("[tools"), None, "r").unwrap_err();
    assert!(err.starts_with("解析配置文件失败 c.toml: "));
    let replaced = persist_nuclei_templates_config("c.toml", Some("tools = 3\nx = 1.5\n"), Some("  "), " r ").unwrap();
    let parsed: toml::Value = toml::from_str(&replaced).unwrap();
    assert_eq!(parsed["tools"]["nuclei_templates_repo"].as_str(), Some("r"));
    assert!(parsed["tools"].get("nuclei_templates_dir").is_none());
    assert_eq!(parsed["x"].as_float(), Some(1.5));
}

#[test]
fn settings_edit_trims_and_refuses_blank_repo() {
    let e = templates_settings_edit(Some("  /t  "), " https://r ").unwrap();
    assert_eq!(e.repo_url, "https://r");
    assert_eq!(e.local_dir.as_deref(), Some("/t"));
    assert!(templates_settings_edit(None, "").is_err());
    assert_eq!(non_empty_string("  "), None);
}

#[test]
fn binaries_resolve_in_order_env_config_search_path() {
    let cand = |p: &str, e: bool| Some(BinaryCandidate { path: p.to_string(), exists: e });
    let r = resolve_binary(cand("/env/nmap", true), cand("/cfg/nmap", true), Some("/usr/bin/nmap".to_string()));
    assert_eq!((r.path.as_deref(), r.source.as_str()), (Some("/env/nmap"), "env"));
    let r = resolve_binary(cand("/env/nmap", false), cand("/cfg/nmap", true), None);
    assert_eq!((r.path.as_deref(), r.source.as_str()), (Some("/cfg/nmap"), "config"));
    let r = resolve_binary(None, None, Some("/usr/bin/nmap".to_string()));
    assert_eq!(r.source, "system");
    let r = resolve_binary(None, cand("/cfg/x", false), None);
    assert_eq!((r.path, r.source.as_str()), (None, "missing"));
}

#[test]
fn template_status_prefers_the_local_directory() {
    let cfg = NucleiTemplatesConfig {
        local_path: Some("/local".to_string()),
        cache_path: "/cache".to_string(),
        repo_url: "https://repo".to_string(),
    };
    let state = TemplatesState::new(cfg);
    let st = state.status(true, true);
    assert_eq!((st.source.as_str(), st.effective_path.as_str()), ("local", "/local"));
    let st = state.status(false, true);
    assert_eq!((st.source.as_str(), st.effective_path.as_str()), ("cache", "/cache"));
    assert_eq!(effective_template_dir(&st).as_deref(), Some("/cache"));
    let st = state.status(false, false);
    assert_eq!(st.source, "none");
    assert_eq!(effective_template_dir(&st), None);
    assert!(git_sync_args(true, "https://repo", "/cache").iter().any(|a| a == "pull"));
}

#[test]
fn executables_named_by_path_must_exist_there() {
    assert!(executable_exists("/usr/bin/nmap", true, false));
    assert!(!executable_exists("/usr/bin/nmap", false, true));
    assert!(executable_exists("nmap", false, true));
    assert!(!executable_exists("nmap", true, false));
}

#[test]
fn names_path_is_told_by_a_separator() {
    assert!(names_path("/usr/bin/nmap"));
    assert!(names_path("tools\\nmap.exe"));
    assert!(names_path("./nmap"));
    assert!(!names_path("nmap"));
    assert!(!names_path(""));
}

fn missing() -> BinaryResolution {
    BinaryResolution { path: None, source: "missing".to_string() }
}

#[test]
fn config_from_defaults_lays_out_the_root() {
    let sources = ConfigSources {
        cli: CliArgs { ip: "127.0.0.1".to_string(), port: 50051, tls: false },
        env: ConfigEnv {
            nuclei_templates_dir: None,
            nuclei_templates_cache_dir: None,
            nuclei_templates_repo: None,
            nmap_args: None,
            nmap_timeout_secs: None,
        },
        file: ToolsSection {
            nmap_binary: None,
            nmap_args: None,
            nmap_timeout_secs: None,
            httpx_binary: None,
            nuclei_binary: None,
            fscan_binary: None,
            nuclei_templates_dir: None,
            nuclei_templates_cache_dir: None,
            nuclei_templates_repo: None,
        },
        base_dir: "/home/u".to_string(),
        nmap: missing(),
        httpx: missing(),
        fscan: missing(),
        local_templates_is_dir: false,
    };
    let c = AppConfig::from_sources(&sources);
    let ids = super_scanner::commands::registry::registry_for(&c).ids();
    assert_eq!(ids, vec!["ping".to_string(), "builtin_port_scan".to_string()]);
    assert_eq!(c.ip, "127.0.0.1");
    assert_eq!(c.port, 50051);
    assert!(!c.tls);
    assert_eq!(c.root_dir, "/home/u/scanner-projects");
    assert_eq!(c.tasks_dir, "/home/u/scanner-projects/tasks");
    assert_eq!(c.certs_dir, "/home/u/scanner-projects/crts");
    assert_eq!(c.nmap_default_args, vec!["-n", "-Pn", "--open", "-sV"]);
    assert_eq!(c.nmap_timeout_secs, 120);
    assert_eq!(c.nuclei_templates.local_path, None);
    assert_eq!(c.nuclei_templates.cache_path, "/home/u/scanner-projects/nuclei-templates");
    assert_eq!(c.nuclei_templates.repo_url, "https://github.com/projectdiscovery/nuclei-templates.git");
    assert_eq!(c.nuclei_templates_dir, "/home/u/scanner-projects/nuclei-templates");
}

#[test]
fn registry_follows_the_tools_found() {
    let mut c = AppConfig::from_sources(&ConfigSources {
        cli: CliArgs { ip: "0.0.0.0".to_string(), port: 1, tls: false },
        env: ConfigEnv {
            nuclei_templates_dir: None,
            nuclei_templates_cache_dir: None,
            nuclei_templates_repo: None,
            nmap_args: None,
            nmap_timeout_secs: None,
        },
        file: ToolsSection {
            nmap_binary: None,
            nmap_args: None,
            nmap_timeout_secs: None,
            httpx_binary: None,
            nuclei_binary: None,
            fscan_binary: None,
            nuclei_templates_dir: None,
            nuclei_templates_cache_dir: None,
            nuclei_templates_repo: None,
        },
        base_dir: "/h".to_string(),
        nmap: BinaryResolution { path: Some("/usr/bin/nmap".to_string()), source: "system".to_string() },
        httpx: BinaryResolution { path: Some("/usr/bin/httpx".to_string()), source: "system".to_string() },
        fscan: missing(),
        local_templates_is_dir: false,
    });
    let r = super_scanner::commands::registry::registry_for(&c);
    assert_eq!(r.ids(), vec!["ping".to_string(), "builtin_port_scan".to_string(), "nmap".to_string(), "httpx".to_string()]);
    assert_eq!(r.get("nmap").as_deref(), Some("Nmap Port Scanner"));
    c.nmap_binary = None;
    assert_eq!(super_scanner::commands::registry::registry_for(&c).get("nmap"), None);
}
