use super_scanner::client::{
    sync_templates_request, templates_status_from_response, channel_uri, create_task_request, CreateTaskDto, WorkflowDto, WorkflowStepDto,
    delete_backend_record, saved_backends, save_backend_record, task_event_from_proto, task_from_proto,
    ts_to_rfc3339, BackendRecord, CommandError, TaskEventDto,
};
use super_scanner::config::ToolCapability;
use super_scanner::domain::{DomainPipelineState, Workflow, WorkflowStep};
use super_scanner::records::{RunnerEvent, TaskMetadata};
use super_scanner::templates::NucleiTemplatesStatus;
use super_scanner::wire::{
    metadata_to_proto, runner_event_message, server_info_message, settings_to_persist,
    sync_request_settings, sync_response, task_not_found, task_with_rows, FindingRow, PortResultRow,
    SyncTemplatesRequest, SyncTemplatesResponse, SystemFacts, TaskEventBody,
};

fn s(v: &str) -> String {
    v.to_string()
}

fn meta() -> TaskMetadata {
    TaskMetadata {
        id: s("t1"),
        name: s("scan"),
        description: String::new(),
        targets: vec![s("10.0.0.1")],
        status: 2,
        progress: 40,
        exit_code: 0,
        error_message: String::new(),
        created_at: 1_700_000_000_123,
        updated_at: None,
        started_at: Some(1_700_000_001_000),
        finished_at: None,
        log_path: s("/tmp/t1.log"),
        workflow: Workflow { steps: vec![WorkflowStep { step_type: 1, tool: s("builtin") }] },
        domain_state: DomainPipelineState::default(),
    }
}

fn templates_status() -> NucleiTemplatesStatus {
    NucleiTemplatesStatus {
        source: s("cache"),
        configured_local_path: s("  "),
        effective_path: s("/cache"),
        repo_url: s("https://repo"),
        cache_path: s("/cache"),
        last_sync_unix: 0,
        last_error: String::new(),
        sync_supported: true,
    }
}

#[test]
fn task_messages_carry_the_record() {
    let m = metadata_to_proto(meta());
    assert_eq!(m.id, "t1");
    assert_eq!(m.progress, 40);
    assert_eq!(m.created_at, Some((1_700_000_000, 123_000_000)));
    assert_eq!(m.updated_at, None);
    assert!(m.results.is_empty() && m.findings.is_empty());
    assert_eq!(m.workflow.unwrap().steps.len(), 1);
}

#[test]
fn task_messages_with_rows() {
    let ports = vec![PortResultRow {
        ip: s("10.0.0.1"),
        port: 22,
        protocol: s("tcp"),
        state: s("open"),
        service: s("ssh"),
        tool: s("nmap"),
        timestamp: s("2024-01-01"),
    }];
    let m = task_with_rows(meta(), Some(ports), None::<Vec<FindingRow>>);
    assert_eq!(m.results.len(), 1);
    assert_eq!(m.results[0].port, 22);
    assert!(m.findings.is_empty());
    assert_eq!(task_not_found().message, "任务不存在");
}

#[test]
fn runner_events_as_sent() {
    let p = runner_event_message(RunnerEvent::Progress { percent: 50, ts: 2_000 }).unwrap();
    match p.ev {
        Some(TaskEventBody::Progress { percent, message, ts }) => {
            assert_eq!(percent, 50);
            assert!(message.is_empty());
            assert_eq!(ts, Some((2, 0)));
        },
        _ => panic!("expected progress"),
    }
    assert!(runner_event_message(RunnerEvent::Exit { code: 0, ts: 1 }).is_none());
    assert!(runner_event_message(RunnerEvent::Log { subtask: s("a"), data: vec![], is_stderr: false, offset: 0, ts: 1 }).is_none());
    match runner_event_message(RunnerEvent::Error { message: s("bad"), ts: 1 }).unwrap().ev {
        Some(TaskEventBody::Error { message }) => assert_eq!(message, "bad"),
        _ => panic!("expected an error"),
    }
}

#[test]
fn server_info_from_machine_facts() {
    let facts = SystemFacts {
        hostname: None,
        os_name: Some(s("Linux")),
        os_version: Some(s("6.1")),
        uptime_seconds: 10,
        cpu_count: 8,
        memory_total_bytes: 100,
        memory_free_bytes: 40,
        disks: vec![(u64::MAX - 1, 5), (10, 7)],
    };
    let tools = vec![ToolCapability { tool_id: s("nmap"), available: false, source: s("missing"), path: None }];
    let info = server_info_message(facts, tools, templates_status(), s("0.1.0"));
    assert_eq!(info.hostname, "");
    assert_eq!(info.os, "Linux 6.1");
    assert_eq!(info.cpu_cores, 8);
    assert_eq!(info.disk_total_bytes, u64::MAX);
    assert_eq!(info.disk_free_bytes, 12);
    assert_eq!(info.tools[0].path, "");
    assert!(info.nuclei_templates.is_some());
}

#[test]
fn sync_requests_and_answers() {
    let (local, repo, clear) = sync_request_settings(SyncTemplatesRequest { local_path: s("  "), repo_url: s(" r "), clear_local_path: true });
    assert_eq!(local, None);
    assert_eq!(repo.as_deref(), Some(" r "));
    assert!(clear);
    let (l, r) = settings_to_persist(&templates_status());
    assert_eq!((l, r.as_str()), (None, "https://repo"));
    assert_eq!(sync_response(templates_status()).message, "nuclei templates synced");
}

#[test]
fn client_reads_task_messages() {
    let dto = task_from_proto(metadata_to_proto(meta()));
    assert_eq!(dto.description, None);
    assert_eq!(dto.targets, Some(vec![s("10.0.0.1")]));
    assert_eq!(dto.created_at.as_deref(), Some("2023-11-14T22:13:20.123+00:00"));
    assert_eq!(dto.finished_at, None);
    assert_eq!(dto.workflow.steps[0].tool, "builtin");
    assert_eq!(ts_to_rfc3339(Some((0, 0))).as_deref(), Some("1970-01-01T00:00:00+00:00"));
    assert_eq!(ts_to_rfc3339(Some((0, -1))), None);
    let ev = task_event_from_proto(runner_event_message(RunnerEvent::Progress { percent: 5, ts: 0 }).unwrap());
    assert!(matches!(ev, Some(TaskEventDto::Progress(_))));
    assert_eq!(CommandError::Anyhow(s("oops")).message(), "oops");
}

fn rec(id: &str, name: &str, tls: bool, created: i64) -> BackendRecord {
    BackendRecord { id: s(id), name: s(name), address: s("127.0.0.1:50051"), description: None, use_tls: tls, created_at: created }
}

#[test]
fn saving_a_backend_keeps_what_it_leaves_out() {
    let existing = vec![rec("id-a", "a", true, 11), rec("id-b", "b", false, 12)];
    let saved = saved_backends(existing, rec("", "a", false, 0), s("fresh"), 99);
    assert_eq!(saved.len(), 2);
    assert_eq!(saved[0].name, "b");
    let last = &saved[1];
    assert_eq!((last.id.as_str(), last.created_at, last.use_tls), ("id-a", 11, true));
    let added = save_backend_record(vec![], rec("", "new", false, 0));
    assert_eq!(added.len(), 1);
    assert_eq!(added[0].id.len(), 36);
    assert!(added[0].created_at > 0);
}

#[test]
fn deleting_a_backend_by_id_or_name() {
    let existing = vec![rec("id-a", "a", true, 1), rec("id-b", "b", false, 2), rec("x", "id-a", false, 3)];
    let left = delete_backend_record(&existing, "id-a");
    assert_eq!(left.len(), 1);
    assert_eq!(left[0].id, "id-b");
    assert_eq!(delete_backend_record(&existing, "nothing").len(), 3);
}

#[test]
fn backends_live_in_the_configuration_directory() {
    assert_eq!(super_scanner::client::backends_file(Some("/home/u/.config")), "/home/u/.config/SuperScanner/backends.json");
    assert_eq!(super_scanner::client::backends_file(None), "./backends.json");
    assert_eq!(super_scanner::client::sanitize_event_segment("task-1/a b"), "task_1_a_b");
}

#[test]
fn channel_uri_keeps_a_named_scheme_and_adds_one_otherwise() {
    assert_eq!(channel_uri("http://10.0.0.1:50051", true), "http://10.0.0.1:50051");
    assert_eq!(channel_uri("https://scan.example:443", false), "https://scan.example:443");
    assert_eq!(channel_uri("10.0.0.1:50051", true), "https://10.0.0.1:50051");
    assert_eq!(channel_uri("10.0.0.1:50051", false), "http://10.0.0.1:50051");
}

#[test]
fn event_topic_names_the_server_and_the_task() {
    assert_eq!(
        super_scanner::client::event_topic("127.0.0.1:50051", "abc-1"),
        "task-event://127_0_0_1_50051::abc-1"
    );
}

#[test]
fn create_task_request_fills_in_what_was_left_out() {
    let input = CreateTaskDto {
        name: s("weekly"),
        description: None,
        targets: None,
        workflow: WorkflowDto { steps: vec![WorkflowStepDto { step_type: 1, tool: s("builtin") }] },
    };
    let req = create_task_request(input);
    assert_eq!(req.name, "weekly");
    assert_eq!(req.description, "");
    assert!(req.targets.is_empty());
    let wf = req.workflow.expect("workflow");
    assert_eq!(wf.steps.len(), 1);
    assert_eq!(wf.steps[0].step_type, 1);
    assert_eq!(wf.steps[0].tool, "builtin");

    let given = CreateTaskDto {
        name: s("n"),
        description: Some(s("d")),
        targets: Some(vec![s("10.0.0.0/24")]),
        workflow: WorkflowDto { steps: vec![] },
    };
    let req = create_task_request(given);
    assert_eq!(req.description, "d");
    assert_eq!(req.targets, vec![s("10.0.0.0/24")]);
    assert!(req.workflow.expect("workflow").steps.is_empty());
}

#[test]
fn sync_templates_request_defaults_what_was_not_given() {
    let req = sync_templates_request(None, Some(s("https://repo")), None);
    assert_eq!(req.local_path, "");
    assert_eq!(req.repo_url, "https://repo");
    assert!(!req.clear_local_path);
    let req = sync_templates_request(Some(s("/tpl")), None, Some(true));
    assert_eq!(req.local_path, "/tpl");
    assert_eq!(req.repo_url, "");
    assert!(req.clear_local_path);
}

#[test]
fn templates_status_from_response_needs_a_status() {
    let ok = templates_status_from_response(SyncTemplatesResponse {
        status: Some(templates_status()),
        message: s("nuclei templates synced"),
    })
    .ok()
    .expect("status");
    assert_eq!(ok.source, "cache");
    assert_eq!(ok.effective_path, "/cache");
    assert_eq!(ok.repo_url, "https://repo");
    assert!(ok.sync_supported);
    let err = templates_status_from_response(SyncTemplatesResponse { status: None, message: String::new() })
        .err()
        .expect("error");
    assert_eq!(err.message(), "server returned empty nuclei templates status");
}

#[test]
fn quote_json_writes_what_serde_json_writes() {
    for text in ["plain", "a\"b\\c", "line\nbreak\ttab\r\u{8}\u{c}", "\u{1}\u{1f}\u{7f}", "é中 ✓", ""] {
        assert_eq!(super_scanner::json::quote_json(text), serde_json::to_string(text).unwrap());
    }
}
