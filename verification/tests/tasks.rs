use super_scanner::domain::{Workflow, WorkflowStep};
use super_scanner::records::{CommandSpec, TaskStatus};
use super_scanner::tasks::{
    check_restartable, check_startable, map_step_to_command_id, sorted_distinct, status_from_error,
    after_task_setup, to_proto_ts, AppError, RpcCode, RunningTasks, SetupFollowUp,
};
use super_scanner::worker::{
    flush_statements, initial_completed, LoopEffect, LoopEvent, LoopPhase, NoopScheduler,
    ProgressTracker, SimpleCommandParser, SpecOutcome, TaskLoop,
};

fn s(v: &str) -> String {
    v.to_string()
}

#[test]
fn status_codes_round_trip() {
    for st in [TaskStatus::Pending, TaskStatus::Running, TaskStatus::Done, TaskStatus::Failed, TaskStatus::Stopped] {
        assert_eq!(TaskStatus::from_i32(st.as_i32()), Some(st));
    }
    assert_eq!(TaskStatus::Running.as_i32(), 2);
    assert_eq!(TaskStatus::from_i32(42), None);
}

#[test]
fn a_running_task_is_not_started_or_restarted() {
    let running = Some(TaskStatus::Running.as_i32());
    assert_eq!(check_startable(running).unwrap_err().code, RpcCode::FailedPrecondition);
    assert_eq!(check_restartable(running).unwrap_err().code, RpcCode::FailedPrecondition);
    assert_eq!(check_startable(None).unwrap_err().message, "任务未找到");
    assert_eq!(check_restartable(None).unwrap_err().message, "任务不存在");
    assert!(check_startable(Some(TaskStatus::Done.as_i32())).is_err());
    assert!(check_restartable(Some(TaskStatus::Done.as_i32())).is_ok());
    assert!(check_startable(Some(TaskStatus::Pending.as_i32())).is_ok());
}

#[test]
fn timestamps_split_into_seconds_and_nanos() {
    assert_eq!(to_proto_ts(Some(1_500)), Some((1, 500_000_000)));
    assert_eq!(to_proto_ts(Some(-1_500)), Some((-1, -500_000_000)));
    assert_eq!(to_proto_ts(None), None);
}

#[test]
fn errors_become_refusals() {
    assert_eq!(status_from_error(&AppError::Config(s("x"))).code, RpcCode::InvalidArgument);
    assert_eq!(AppError::Task(s("boom")).message(), "任务错误: boom");
}

#[test]
fn steps_map_to_commands_and_ids_sort_without_repeats() {
    assert_eq!(map_step_to_command_id(1, "builtin").as_deref(), Some("builtin_port_scan"));
    assert_eq!(map_step_to_command_id(3, "nuclei").as_deref(), Some("nuclei"));
    assert_eq!(sorted_distinct(&[s("b"), s("a"), s("b")]), vec![s("a"), s("b")]);
    let _ = Workflow { steps: vec![WorkflowStep { step_type: 1, tool: s("nmap") }] };
}

#[test]
fn running_tasks_are_registered_once() {
    let mut r = RunningTasks::new();
    assert!(r.try_register("t1").is_ok());
    assert!(r.try_register("t1").is_err());
    assert!(r.is_running("t1"));
    assert!(r.unregister("t1"));
    assert!(!r.is_running("t1"));
}

fn status_of(e: &LoopEffect) -> Option<i32> {
    match e {
        LoopEffect::SetStatus { status, .. } => Some(*status),
        _ => None,
    }
}

#[test]
fn the_loop_runs_every_command_then_reports_done() {
    let (mut l, first) = TaskLoop::new(2);
    assert!(matches!(first[0], LoopEffect::SetStatus { .. }));
    let e = l.step(LoopEvent::RunningRecorded { error: None });
    assert!(matches!(e[0], LoopEffect::OpenDatabase));
    let e = l.step(LoopEvent::DbOpened { error: None, now: 5 });
    assert!(matches!(e[0], LoopEffect::RunSpec { index: 0 }));
    let e = l.step(LoopEvent::SpecFinished { outcome: SpecOutcome::Completed, now: 6 });
    assert!(matches!(e[0], LoopEffect::RunSpec { index: 1 }));
    let e = l.step(LoopEvent::SpecFinished { outcome: SpecOutcome::Completed, now: 7 });
    assert_eq!(status_of(&e[0]), Some(TaskStatus::Done.as_i32()));
    assert!(matches!(e[1], LoopEffect::EmitExit { code: 0, ts: 7 }));
    assert_eq!(l.phase, LoopPhase::Finished);
    assert!(l.step(LoopEvent::SpecFinished { outcome: SpecOutcome::Completed, now: 8 }).is_empty());
}

#[test]
fn a_failed_command_stops_the_loop() {
    let (mut l, _) = TaskLoop::new(3);
    l.step(LoopEvent::RunningRecorded { error: None });
    l.step(LoopEvent::DbOpened { error: None, now: 1 });
    let e = l.step(LoopEvent::SpecFinished {
        outcome: SpecOutcome::ExitedWithFailure { command: s("nmap"), code: Some(2) },
        now: 9,
    });
    match &e[0] {
        LoopEffect::SetStatus { status, exit_code, error, .. } => {
            assert_eq!(*status, TaskStatus::Failed.as_i32());
            assert_eq!(*exit_code, Some(2));
            assert_eq!(error.as_deref(), Some("Command 'nmap' failed with exit code 2"));
        },
        _ => panic!("expected a status"),
    }
    assert_eq!(l.phase, LoopPhase::Finished);
}

#[test]
fn progress_is_flushed_in_batches() {
    assert_eq!(initial_completed(10, 4), 6);
    let mut t = ProgressTracker::new(0);
    for i in 0..49 {
        let a = t.record(format!("10.0.0.{}", i), true, 10);
        assert!(a.flush.is_empty());
    }
    let a = t.record(s("10.0.1.1"), false, 20);
    assert_eq!(a.flush.len(), 50);
    assert_eq!(a.save_progress, Some(20));
    assert_eq!(t.completed(), 50);
    let fin = t.finish(100);
    assert!(fin.flush.is_empty());
    assert_eq!(fin.save_progress, None);
}

#[test]
fn flushes_group_targets_by_outcome() {
    let stmts = flush_statements(&[(s("a"), true), (s("b"), false), (s("c"), true)]);
    let total: usize = stmts.iter().map(|(_, v)| v.len()).sum();
    assert_eq!(total, 3);
    for (sql, values) in &stmts {
        assert_eq!(sql.matches('?').count(), values.len());
    }
}

#[test]
fn workflow_lists_and_spec_names() {
    let p = SimpleCommandParser {};
    assert_eq!(p.workflow_ids(r#"["nmap","httpx"]"#).unwrap(), vec![s("nmap"), s("httpx")]);
    match p.workflow_ids(r#"{"a":1}"#) {
        Err(AppError::Config(m)) => assert!(m.starts_with("workflow.json 格式错误: ")),
        _ => panic!("expected a configuration error"),
    }
    let spec = CommandSpec { id: s("x"), program: s("nmap"), args: vec![], targets: vec![], env: None, cwd: None };
    assert_eq!(p.named_spec(spec, s("nmap-1")).id, "nmap-1");
    assert!(NoopScheduler.recover_running().unwrap().is_empty());
    assert!(NoopScheduler.fail("t", "why").is_ok());
}

fn request(name: &str, targets: &[&str], steps: Vec<WorkflowStep>) -> super_scanner::tasks::CreateTaskRequest {
    super_scanner::tasks::CreateTaskRequest {
        name: s(name),
        description: s("d"),
        targets: targets.iter().map(|t| s(t)).collect(),
        workflow: Some(Workflow { steps }),
    }
}

#[test]
fn creating_tasks_checks_name_targets_and_steps() {
    use_create_task();
}

fn use_create_task() {
    let registered = vec![s("builtin_port_scan"), s("nmap")];
    let ok = super_scanner::tasks::create_task(
        request("scan", &["10.0.0.2", "10.0.0.0/24", "10.0.0.2"], vec![WorkflowStep { step_type: 1, tool: s("builtin") }]),
        &registered,
    )
    .unwrap();
    assert_eq!(ok.targets, vec![s("10.0.0.0/24"), s("10.0.0.2")]);
    assert_eq!(ok.status, TaskStatus::Pending.as_i32());
    assert_eq!(ok.id.len(), 36);
    let bad = super_scanner::tasks::create_task(
        request("scan", &["zzz", "10.0.0.1", "not-an-ip"], vec![WorkflowStep { step_type: 1, tool: s("builtin") }]),
        &registered,
    )
    .unwrap_err();
    assert_eq!(bad.code, RpcCode::InvalidArgument);
    assert_eq!(bad.message, "无效的目标地址: not-an-ip");
    let unknown = super_scanner::tasks::create_task(
        request("scan", &["10.0.0.1"], vec![WorkflowStep { step_type: 2, tool: s("builtin") }]),
        &registered,
    )
    .unwrap_err();
    assert_eq!(unknown.message, "未注册的扫描工具: httpx");
    let blank = super_scanner::tasks::create_task(request("  ", &["10.0.0.1"], vec![]), &registered).unwrap_err();
    assert_eq!(blank.message, "任务名称不能为空");
}

fn task_meta(steps: Vec<WorkflowStep>) -> super_scanner::records::TaskMetadata {
    super_scanner::records::TaskMetadata {
        id: s("t9"),
        name: s("scan"),
        description: String::new(),
        targets: vec![s("10.0.0.1")],
        status: TaskStatus::Pending.as_i32(),
        progress: 0,
        exit_code: 0,
        error_message: String::new(),
        created_at: 1,
        updated_at: None,
        started_at: None,
        finished_at: None,
        log_path: String::new(),
        workflow: Workflow { steps },
        domain_state: super_scanner::domain::DomainPipelineState::default(),
    }
}

#[test]
fn plan_start_refuses_in_order_and_leaves_running_tasks() {
    let mut r = RunningTasks::new();
    assert!(r.try_register("busy").is_ok());
    let busy = r.plan_start("busy", None, "/tasks/busy").unwrap_err();
    assert!(matches!(busy, AppError::Task(ref m) if m == "任务已在运行中"));
    let missing = r.plan_start("t9", None, "/tasks/t9").unwrap_err();
    assert!(matches!(missing, AppError::Task(ref m) if m == "Task not found"));
    let bad = r.plan_start("t9", Some(task_meta(vec![WorkflowStep { step_type: 9, tool: s("builtin") }])), "/tasks/t9");
    assert!(matches!(bad, Err(AppError::Config(_))));
    assert!(!r.is_running("t9"));
    let specs = r
        .plan_start("t9", Some(task_meta(vec![WorkflowStep { step_type: 1, tool: s("builtin") }])), "/tasks/t9")
        .unwrap()
        .expect("workflow specs");
    assert_eq!(specs.len(), 1);
    assert_eq!(specs[0].id, "builtin_port_scan");
    assert!(r.plan_start("t9", Some(task_meta(vec![])), "/tasks/t9").unwrap().is_none());
    assert!(!r.is_running("t9"));
}

#[test]
fn failed_task_files_roll_the_task_back() {
    match after_task_setup(task_meta(vec![]), Err(s("disk full"))) {
        SetupFollowUp::RollBack { task_id, refusal } => {
            assert_eq!(task_id, "t9");
            assert_eq!(refusal.code, RpcCode::Internal);
            assert_eq!(refusal.message, "Failed to setup task: disk full");
        },
        SetupFollowUp::Created(_) => panic!("expected a roll-back"),
    }
    assert!(matches!(after_task_setup(task_meta(vec![]), Ok(())), SetupFollowUp::Created(m) if m.id == "t9"));
}
