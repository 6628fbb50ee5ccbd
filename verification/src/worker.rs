//! The task run loop: what the runner does after each step of a task, and
//! how completed targets are batched into status updates.
use vstd::prelude::*;
use crate::records::{status_code, TaskStatus};
use crate::text::{chars_of, int_text, int_text_exec, join_str, string_of};

verus! {

// ---------------------------------------------------------------------------
// The run loop
// ---------------------------------------------------------------------------

/// Where a task run stands.
#[derive(Debug, Clone, Copy, PartialEq, Eq, Structural)]
pub enum LoopPhase {
    /// The running status is being recorded.
    Starting,
    /// The task's target database is being opened.
    OpeningDb,
    /// Commands are being run one after another.
    Running,
    /// Nothing is left to do.
    Finished,
}

/// A task run: how many commands it has and which comes next.
#[derive(Debug, Clone, Copy, PartialEq, Eq, Structural)]
pub struct TaskLoop {
    pub spec_count: usize,
    pub next_spec: usize,
    pub phase: LoopPhase,
}

/// How running one command ended.
#[derive(Debug, Clone)]
pub enum SpecOutcome {
    /// The command ran over all its targets, or its process exited cleanly.
    Completed,
    /// A stop was asked for.
    Stopped,
    /// The command's tables could not be prepared.
    InitFailed { command: String, error: String },
    /// The pending targets could not be read.
    TargetsUnavailable,
    /// The command's directory or log files could not be set up.
    SetupFailed { message: String },
    /// The command's process could not be started.
    SpawnFailed { command: String, error: String },
    /// The command's process exited unsuccessfully, with its exit code if it
    /// had one.
    ExitedWithFailure { command: String, code: Option<i32> },
}

/// What the runner reports back after doing what the loop asked.
#[derive(Debug, Clone)]
pub enum LoopEvent {
    /// The running status was recorded, or could not be.
    RunningRecorded { error: Option<String> },
    /// The target database was opened, or could not be; `now` in
    /// milliseconds.
    DbOpened { error: Option<String>, now: i64 },
    /// The current command finished; `now` in milliseconds.
    SpecFinished { outcome: SpecOutcome, now: i64 },
}

/// What the loop asks the runner to do.
#[derive(Debug, Clone)]
pub enum LoopEffect {
    /// Record a status with these details.
    SetStatus {
        status: i32,
        progress: Option<u8>,
        exit_code: Option<i32>,
        error: Option<String>,
        finished_at: Option<i64>,
    },
    /// Tell the scheduler the task failed.
    SchedulerFail { message: String },
    /// Tell the scheduler the task is over.
    SchedulerComplete,
    /// Open the task's target database.
    OpenDatabase,
    /// Run command number `index`.
    RunSpec { index: usize },
    /// Send an exit event.
    EmitExit { code: i32, ts: i64 },
    /// Send an error event.
    EmitError { message: String, ts: i64 },
    /// Send the task's final metadata, if it can be read.
    EmitSnapshot { ts: i64 },
}

/// The mathematical content of an effect.
pub enum EffectView {
    SetStatus {
        status: i32,
        progress: Option<u8>,
        exit_code: Option<i32>,
        error: Option<Seq<char>>,
        finished_at: Option<i64>,
    },
    SchedulerFail { message: Seq<char> },
    SchedulerComplete,
    OpenDatabase,
    RunSpec { index: usize },
    EmitExit { code: i32, ts: i64 },
    EmitError { message: Seq<char>, ts: i64 },
    EmitSnapshot { ts: i64 },
}

pub open spec fn opt_view(o: Option<String>) -> Option<Seq<char>> {
    match o {
        Some(s) => Some(s@),
        None => None,
    }
}

pub open spec fn effect_view(e: LoopEffect) -> EffectView {
    match e {
        LoopEffect::SetStatus { status, progress, exit_code, error, finished_at } =>
            EffectView::SetStatus { status, progress, exit_code, error: opt_view(error), finished_at },
        LoopEffect::SchedulerFail { message } => EffectView::SchedulerFail { message: message@ },
        LoopEffect::SchedulerComplete => EffectView::SchedulerComplete,
        LoopEffect::OpenDatabase => EffectView::OpenDatabase,
        LoopEffect::RunSpec { index } => EffectView::RunSpec { index },
        LoopEffect::EmitExit { code, ts } => EffectView::EmitExit { code, ts },
        LoopEffect::EmitError { message, ts } => EffectView::EmitError { message: message@, ts },
        LoopEffect::EmitSnapshot { ts } => EffectView::EmitSnapshot { ts },
    }
}

pub open spec fn effects_view(es: Seq<LoopEffect>) -> Seq<EffectView> {
    es.map_values(|e: LoopEffect| effect_view(e))
}

/// A failed status with exit code `code` and message `msg`, stamped `now`.
pub open spec fn failed_status(code: i32, msg: Seq<char>, now: i64) -> EffectView {
    EffectView::SetStatus {
        status: status_code(TaskStatus::Failed),
        progress: None,
        exit_code: Some(code),
        error: Some(msg),
        finished_at: Some(now),
    }
}

/// The effects of finishing every command: done at 100 % with exit code 0,
/// an exit event, completion, and the final snapshot.
pub open spec fn done_effects(now: i64) -> Seq<EffectView> {
    seq![
        EffectView::SetStatus {
            status: status_code(TaskStatus::Done),
            progress: Some(100u8),
            exit_code: Some(0i32),
            error: None,
            finished_at: Some(now),
        },
        EffectView::EmitExit { code: 0, ts: now },
        EffectView::SchedulerComplete,
        EffectView::EmitSnapshot { ts: now },
    ]
}

/// The loop's state once it has nothing left to do.
pub open spec fn finished(l: TaskLoop) -> TaskLoop {
    TaskLoop { phase: LoopPhase::Finished, ..l }
}

/// The next state and the effects when command `next_spec` finished with
/// `outcome`.
pub open spec fn after_spec(l: TaskLoop, outcome: SpecOutcome, now: i64) -> (TaskLoop, Seq<EffectView>) {
    match outcome {
        SpecOutcome::Completed => if l.next_spec + 1 < l.spec_count {
            (
                TaskLoop { next_spec: (l.next_spec + 1) as usize, ..l },
                seq![EffectView::RunSpec { index: (l.next_spec + 1) as usize }],
            )
        } else {
            (TaskLoop { next_spec: l.spec_count, phase: LoopPhase::Finished, ..l }, done_effects(now))
        },
        SpecOutcome::Stopped => (
            finished(l),
            seq![
                EffectView::SetStatus {
                    status: status_code(TaskStatus::Stopped),
                    progress: None,
                    exit_code: None,
                    error: None,
                    finished_at: Some(now),
                },
                EffectView::SchedulerComplete,
            ],
        ),
        SpecOutcome::InitFailed { command, error } => {
            let msg = "DB Init failed for "@ + command@ + ": "@ + error@;
            (finished(l), seq![failed_status(-1i32, msg, now), EffectView::SchedulerFail { message: msg }])
        },
        SpecOutcome::TargetsUnavailable => (finished(l), Seq::empty()),
        SpecOutcome::SetupFailed { message } => (
            finished(l),
            seq![EffectView::EmitError { message: message@, ts: now }],
        ),
        SpecOutcome::SpawnFailed { command, error } => {
            let msg = "启动进程失败 ["@ + command@ + "]: "@ + error@;
            (
                finished(l),
                seq![
                    EffectView::EmitError { message: msg, ts: now },
                    failed_status(-1i32, msg, now),
                    EffectView::SchedulerFail { message: "启动进程失败: "@ + error@ },
                ],
            )
        },
        SpecOutcome::ExitedWithFailure { command, code } => {
            let c: i32 = match code {
                Some(c) => c,
                None => -1i32,
            };
            let msg = "Command '"@ + command@ + "' failed with exit code "@ + int_text(c as int);
            (
                finished(l),
                seq![
                    failed_status(c, msg, now),
                    EffectView::EmitExit { code: c, ts: now },
                    EffectView::SchedulerFail { message: msg },
                ],
            )
        },
    }
}

/// One step of the run loop: the next state and what to do.
pub open spec fn loop_step(l: TaskLoop, e: LoopEvent) -> (TaskLoop, Seq<EffectView>) {
    match (l.phase, e) {
        (LoopPhase::Starting, LoopEvent::RunningRecorded { error }) => match error {
            Some(err) => (finished(l), seq![EffectView::SchedulerFail { message: err@ }]),
            None => (TaskLoop { phase: LoopPhase::OpeningDb, ..l }, seq![EffectView::OpenDatabase]),
        },
        (LoopPhase::OpeningDb, LoopEvent::DbOpened { error, now }) => match error {
            Some(err) => {
                let msg = "无法连接任务数据库: "@ + err@;
                (finished(l), seq![failed_status(-1i32, msg, now), EffectView::SchedulerFail { message: msg }])
            },
            None => if l.spec_count > 0 {
                (
                    TaskLoop { phase: LoopPhase::Running, next_spec: 0, ..l },
                    seq![EffectView::RunSpec { index: 0 }],
                )
            } else {
                (TaskLoop { next_spec: 0, phase: LoopPhase::Finished, ..l }, done_effects(now))
            },
        },
        (LoopPhase::Running, LoopEvent::SpecFinished { outcome, now }) => after_spec(l, outcome, now),
        _ => (l, Seq::empty()),
    }
}

/// The run is consistent: no command has run before the database is open,
/// and the next command exists while commands run.
pub open spec fn loop_wf(l: TaskLoop) -> bool {
    &&& l.next_spec <= l.spec_count
    &&& l.phase == LoopPhase::Running ==> l.next_spec < l.spec_count
    &&& (l.phase == LoopPhase::Starting || l.phase == LoopPhase::OpeningDb) ==> l.next_spec == 0
}

fn failed_status_exec(code: i32, msg: &String, now: i64) -> (res: LoopEffect)
    ensures
        effect_view(res) == failed_status(code, msg@, now),
{
    LoopEffect::SetStatus {
        status: TaskStatus::Failed.as_i32(),
        progress: None,
        exit_code: Some(code),
        error: Some(crate::text::owned(msg.as_str())),
        finished_at: Some(now),
    }
}

fn done_effects_exec(now: i64) -> (res: Vec<LoopEffect>)
    ensures
        effects_view(res@) == done_effects(now),
{
    let mut v: Vec<LoopEffect> = Vec::new();
    v.push(
        LoopEffect::SetStatus {
            status: TaskStatus::Done.as_i32(),
            progress: Some(100),
            exit_code: Some(0),
            error: None,
            finished_at: Some(now),
        },
    );
    v.push(LoopEffect::EmitExit { code: 0, ts: now });
    v.push(LoopEffect::SchedulerComplete);
    v.push(LoopEffect::EmitSnapshot { ts: now });
    assert(effects_view(v@) =~= done_effects(now));
    v
}

impl TaskLoop {
    /// A run over `spec_count` commands; it starts by recording the running
    /// status at 0 %.
    pub fn new(spec_count: usize) -> (res: (TaskLoop, Vec<LoopEffect>))
        ensures
            res.0 == (TaskLoop { spec_count, next_spec: 0, phase: LoopPhase::Starting }),
            effects_view(res.1@) == seq![
                EffectView::SetStatus {
                    status: status_code(TaskStatus::Running),
                    progress: Some(0u8),
                    exit_code: None,
                    error: None,
                    finished_at: None,
                },
            ],
            loop_wf(res.0),
    {
        let mut v: Vec<LoopEffect> = Vec::new();
        v.push(
            LoopEffect::SetStatus {
                status: TaskStatus::Running.as_i32(),
                progress: Some(0),
                exit_code: None,
                error: None,
                finished_at: None,
            },
        );
        proof {
            assert(effects_view(v@) =~= seq![
                EffectView::SetStatus {
                    status: status_code(TaskStatus::Running),
                    progress: Some(0u8),
                    exit_code: None,
                    error: None,
                    finished_at: None,
                },
            ]);
        }
        (TaskLoop { spec_count, next_spec: 0, phase: LoopPhase::Starting }, v)
    }

    fn after_spec_exec(&mut self, outcome: SpecOutcome, now: i64) -> (res: Vec<LoopEffect>)
        requires
            loop_wf(*old(self)),
            old(self).phase == LoopPhase::Running,
        ensures
            *final(self) == after_spec(*old(self), outcome, now).0,
            effects_view(res@) == after_spec(*old(self), outcome, now).1,
            loop_wf(*final(self)),
    {
        let mut v: Vec<LoopEffect> = Vec::new();
        match outcome {
            SpecOutcome::Completed => {
                if self.next_spec + 1 < self.spec_count {
                    self.next_spec = self.next_spec + 1;
                    v.push(LoopEffect::RunSpec { index: self.next_spec });
                    assert(effects_view(v@) =~= seq![
                        EffectView::RunSpec { index: self.next_spec },
                    ]);
                } else {
                    self.next_spec = self.spec_count;
                    self.phase = LoopPhase::Finished;
                    v = done_effects_exec(now);
                }
            },
            SpecOutcome::Stopped => {
                self.phase = LoopPhase::Finished;
                v.push(
                    LoopEffect::SetStatus {
                        status: TaskStatus::Stopped.as_i32(),
                        progress: None,
                        exit_code: None,
                        error: None,
                        finished_at: Some(now),
                    },
                );
                v.push(LoopEffect::SchedulerComplete);
                assert(effects_view(v@) =~= after_spec(*old(self), SpecOutcome::Stopped, now).1);
            },
            SpecOutcome::InitFailed { command, error } => {
                self.phase = LoopPhase::Finished;
                let a = join_str("DB Init failed for ", command.as_str());
                let b = join_str(a.as_str(), ": ");
                let msg = join_str(b.as_str(), error.as_str());
                v.push(failed_status_exec(-1, &msg, now));
                v.push(LoopEffect::SchedulerFail { message: msg });
                assert(effects_view(v@) =~= after_spec(
                    *old(self),
                    SpecOutcome::InitFailed { command, error },
                    now,
                ).1);
            },
            SpecOutcome::TargetsUnavailable => {
                self.phase = LoopPhase::Finished;
                assert(effects_view(v@) =~= Seq::<EffectView>::empty());
            },
            SpecOutcome::SetupFailed { message } => {
                self.phase = LoopPhase::Finished;
                v.push(LoopEffect::EmitError { message, ts: now });
                assert(effects_view(v@) =~= after_spec(
                    *old(self),
                    SpecOutcome::SetupFailed { message },
                    now,
                ).1);
            },
            SpecOutcome::SpawnFailed { command, error } => {
                self.phase = LoopPhase::Finished;
                let a = join_str("启动进程失败 [", command.as_str());
                let b = join_str(a.as_str(), "]: ");
                let msg = join_str(b.as_str(), error.as_str());
                let short = join_str("启动进程失败: ", error.as_str());
                v.push(LoopEffect::EmitError { message: crate::text::owned(msg.as_str()), ts: now });
                v.push(failed_status_exec(-1, &msg, now));
                v.push(LoopEffect::SchedulerFail { message: short });
                assert(effects_view(v@) =~= after_spec(
                    *old(self),
                    SpecOutcome::SpawnFailed { command, error },
                    now,
                ).1);
            },
            SpecOutcome::ExitedWithFailure { command, code } => {
                self.phase = LoopPhase::Finished;
                let c: i32 = match code {
                    Some(c) => c,
                    None => -1,
                };
                let a = join_str("Command '", command.as_str());
                let b = join_str(a.as_str(), "' failed with exit code ");
                let digits = int_text_exec(c as i64);
                let ds = string_of(digits.as_slice());
                let msg = join_str(b.as_str(), ds.as_str());
                v.push(failed_status_exec(c, &msg, now));
                v.push(LoopEffect::EmitExit { code: c, ts: now });
                v.push(LoopEffect::SchedulerFail { message: msg });
                assert(effects_view(v@) =~= after_spec(
                    *old(self),
                    SpecOutcome::ExitedWithFailure { command, code },
                    now,
                ).1);
            },
        }
        v
    }

    /// One step of the run loop: updates the state and returns what to do.
    pub fn step(&mut self, event: LoopEvent) -> (res: Vec<LoopEffect>)
        requires
            loop_wf(*old(self)),
        ensures
            *final(self) == loop_step(*old(self), event).0,
            effects_view(res@) == loop_step(*old(self), event).1,
            loop_wf(*final(self)),
    {
        let mut v: Vec<LoopEffect> = Vec::new();
        match (self.phase, event) {
            (LoopPhase::Starting, LoopEvent::RunningRecorded { error }) => match error {
                Some(err) => {
                    self.phase = LoopPhase::Finished;
                    v.push(LoopEffect::SchedulerFail { message: err });
                    assert(effects_view(v@) =~= loop_step(
                        *old(self),
                        LoopEvent::RunningRecorded { error: Some(err) },
                    ).1);
                },
                None => {
                    self.phase = LoopPhase::OpeningDb;
                    v.push(LoopEffect::OpenDatabase);
                    assert(effects_view(v@) =~= seq![EffectView::OpenDatabase]);
                },
            },
            (LoopPhase::OpeningDb, LoopEvent::DbOpened { error, now }) => match error {
                Some(err) => {
                    self.phase = LoopPhase::Finished;
                    let msg = join_str("无法连接任务数据库: ", err.as_str());
                    v.push(failed_status_exec(-1, &msg, now));
                    v.push(LoopEffect::SchedulerFail { message: msg });
                    assert(effects_view(v@) =~= loop_step(
                        *old(self),
                        LoopEvent::DbOpened { error: Some(err), now },
                    ).1);
                },
                None => {
                    if self.spec_count > 0 {
                        self.phase = LoopPhase::Running;
                        self.next_spec = 0;
                        v.push(LoopEffect::RunSpec { index: 0 });
                        assert(effects_view(v@) =~= seq![EffectView::RunSpec { index: 0 }]);
                    } else {
                        self.next_spec = 0;
                        self.phase = LoopPhase::Finished;
                        v = done_effects_exec(now);
                    }
                },
            },
            (LoopPhase::Running, LoopEvent::SpecFinished { outcome, now }) => {
                v = self.after_spec_exec(outcome, now);
            },
            _ => {
                assert(effects_view(v@) =~= Seq::<EffectView>::empty());
            },
        }
        v
    }
}

/// The effect records the done status.
pub open spec fn is_done_status(e: EffectView) -> bool {
    e matches EffectView::SetStatus { status, .. } && status == status_code(TaskStatus::Done)
}

/// The effect records some status.
pub open spec fn is_status(e: EffectView) -> bool {
    e is SetStatus
}

/// A finished run ignores every event.
pub proof fn law_finished_run_is_inert(l: TaskLoop, e: LoopEvent)
    requires
        l.phase == LoopPhase::Finished,
    ensures
        loop_step(l, e) == (l, Seq::<EffectView>::empty()),
{
}

/// The done status is recorded only once every command has completed, and
/// the run is then finished.
pub proof fn law_done_only_after_every_command(l: TaskLoop, e: LoopEvent)
    requires
        loop_wf(l),
    ensures
        forall|k: int|
            0 <= k < loop_step(l, e).1.len() && is_done_status(#[trigger] loop_step(l, e).1[k])
                ==> loop_step(l, e).0.next_spec == l.spec_count && loop_step(l, e).0.phase
                == LoopPhase::Finished && (l.phase == LoopPhase::Running ==> l.next_spec + 1
                == l.spec_count) && (l.phase == LoopPhase::OpeningDb ==> l.spec_count == 0),
{
}

/// Each step records at most one status.
pub proof fn law_one_status_per_step(l: TaskLoop, e: LoopEvent)
    requires
        loop_wf(l),
    ensures
        forall|a: int, b: int|
            0 <= a < b < loop_step(l, e).1.len() ==> !(is_status(#[trigger] loop_step(l, e).1[a])
                && is_status(#[trigger] loop_step(l, e).1[b])),
{
}

/// Commands run in order: the only command a step starts is the one after
/// the current (the first, once the database is open), and the state then
/// points at it.
pub proof fn law_commands_run_in_order(l: TaskLoop, e: LoopEvent)
    requires
        loop_wf(l),
    ensures
        forall|k: int|
            0 <= k < loop_step(l, e).1.len() ==> (#[trigger] loop_step(l, e).1[k] matches EffectView::RunSpec {
                index,
            } ==> index == loop_step(l, e).0.next_spec && index == if l.phase == LoopPhase::Running {
                l.next_spec + 1
            } else {
                0
            }),
        l.phase != LoopPhase::Finished ==> loop_step(l, e).0.next_spec >= l.next_spec,
{
}

/// The effect tells the scheduler the task is over.
pub open spec fn is_complete(e: EffectView) -> bool {
    e is SchedulerComplete
}

/// The effect tells the scheduler the task failed.
pub open spec fn is_fail(e: EffectView) -> bool {
    e is SchedulerFail
}

/// The effect records a status other than running: done, failed or
/// stopped.
pub open spec fn is_final_status(e: EffectView) -> bool {
    e matches EffectView::SetStatus { status, .. } && status != status_code(TaskStatus::Running)
}

/// A run never tells the scheduler both that the task is over and that it
/// failed: no step does both, and after either the run is finished, so no
/// later step does anything.
pub proof fn law_never_both_complete_and_fail(l: TaskLoop, e: LoopEvent)
    requires
        loop_wf(l),
    ensures
        forall|a: int, b: int|
            0 <= a < loop_step(l, e).1.len() && 0 <= b < loop_step(l, e).1.len() ==> !(is_complete(
                #[trigger] loop_step(l, e).1[a],
            ) && is_fail(#[trigger] loop_step(l, e).1[b])),
        forall|k: int|
            0 <= k < loop_step(l, e).1.len() && (is_complete(#[trigger] loop_step(l, e).1[k]) || is_fail(
                loop_step(l, e).1[k],
            )) ==> loop_step(l, e).0.phase == LoopPhase::Finished,
{
}

/// The first status a run records is running at 0 %; a step that records
/// any other status (done, failed or stopped) finishes the run, so that
/// status is the last one recorded.
pub proof fn law_first_and_last_status(l: TaskLoop, e: LoopEvent)
    requires
        loop_wf(l),
    ensures
        forall|k: int|
            0 <= k < loop_step(l, e).1.len() && is_final_status(#[trigger] loop_step(l, e).1[k])
                ==> loop_step(l, e).0.phase == LoopPhase::Finished,
        loop_step(l, e).0.phase == LoopPhase::Finished ==> forall|e2: LoopEvent|
            #[trigger] loop_step(loop_step(l, e).0, e2).1.len() == 0,
{
}

/// A whole run: the steps for `events` in turn from `l`, the state at the
/// end and every effect asked for, in order.
pub open spec fn run_loop(l: TaskLoop, events: Seq<LoopEvent>) -> (TaskLoop, Seq<EffectView>)
    decreases events.len(),
{
    if events.len() == 0 {
        (l, Seq::empty())
    } else {
        let (l1, e1) = loop_step(l, events[0]);
        let (l2, e2) = run_loop(l1, events.drop_first());
        (l2, e1 + e2)
    }
}

/// The effect ends the task for the scheduler: complete or fail.
pub open spec fn is_end(e: EffectView) -> bool {
    is_complete(e) || is_fail(e)
}

/// At most one effect ends the task.
pub open spec fn at_most_one_end(es: Seq<EffectView>) -> bool {
    forall|a: int, b: int| 0 <= a < b < es.len() ==> !(is_end(#[trigger] es[a]) && is_end(#[trigger] es[b]))
}

/// A step keeps the run consistent.
proof fn lemma_step_wf(l: TaskLoop, e: LoopEvent)
    requires
        loop_wf(l),
    ensures
        loop_wf(loop_step(l, e).0),
{
}

/// A finished run does nothing more, whatever comes.
proof fn lemma_finished_run_inert(l: TaskLoop, events: Seq<LoopEvent>)
    requires
        l.phase == LoopPhase::Finished,
    ensures
        run_loop(l, events) == (l, Seq::<EffectView>::empty()),
    decreases events.len(),
{
    if events.len() > 0 {
        lemma_finished_run_inert(l, events.drop_first());
        assert(Seq::<EffectView>::empty() + Seq::<EffectView>::empty() =~= Seq::<EffectView>::empty());
    }
}

/// Over a whole run the scheduler is told at most once that the task ended:
/// it is never told both that the task is over and that it failed, nor
/// either twice, and nothing at all follows.
pub proof fn law_run_ends_at_most_once(l: TaskLoop, events: Seq<LoopEvent>)
    requires
        loop_wf(l),
    ensures
        at_most_one_end(run_loop(l, events).1),
        forall|k: int|
            0 <= k < run_loop(l, events).1.len() && is_end(#[trigger] run_loop(l, events).1[k])
                ==> run_loop(l, events).0.phase == LoopPhase::Finished,
    decreases events.len(),
{
    if events.len() > 0 {
        let (l1, e1) = loop_step(l, events[0]);
        lemma_step_wf(l, events[0]);
        law_run_ends_at_most_once(l1, events.drop_first());
        law_never_both_complete_and_fail(l, events[0]);
        let (l2, e2) = run_loop(l1, events.drop_first());
        let all = e1 + e2;
        assert(at_most_one_end(e1));
        if exists|k: int| 0 <= k < e1.len() && is_end(#[trigger] e1[k]) {
            lemma_finished_run_inert(l1, events.drop_first());
            assert(all =~= e1);
        } else {
            assert forall|a: int, b: int| 0 <= a < b < all.len() implies !(is_end(#[trigger] all[a]) && is_end(
                #[trigger] all[b],
            )) by {
                if a < e1.len() {
                    assert(all[a] == e1[a]);
                } else {
                    assert(all[a] == e2[a - e1.len()]);
                    assert(all[b] == e2[b - e1.len()]);
                }
            }
            assert forall|k: int| 0 <= k < all.len() && is_end(#[trigger] all[k]) implies l2.phase
                == LoopPhase::Finished by {
                if k < e1.len() {
                    assert(all[k] == e1[k]);
                } else {
                    assert(all[k] == e2[k - e1.len()]);
                }
            }
        }
    }
}

/// The event is the one the run waits for in its phase; any other is
/// ignored.
pub open spec fn awaited(l: TaskLoop, e: LoopEvent) -> bool {
    match (l.phase, e) {
        (LoopPhase::Starting, LoopEvent::RunningRecorded { .. }) => true,
        (LoopPhase::OpeningDb, LoopEvent::DbOpened { .. }) => true,
        (LoopPhase::Running, LoopEvent::SpecFinished { .. }) => true,
        _ => false,
    }
}

/// The events of a run that were not ignored, in order.
pub open spec fn awaited_events(l: TaskLoop, events: Seq<LoopEvent>) -> Seq<LoopEvent>
    decreases events.len(),
{
    if events.len() == 0 {
        Seq::empty()
    } else {
        let rest = awaited_events(loop_step(l, events[0]).0, events.drop_first());
        if awaited(l, events[0]) {
            seq![events[0]] + rest
        } else {
            rest
        }
    }
}

/// The event reports success: the running status recorded, the database
/// opened, or a command completed.
pub open spec fn succeeded(e: LoopEvent) -> bool {
    match e {
        LoopEvent::RunningRecorded { error } => error is None,
        LoopEvent::DbOpened { error, .. } => error is None,
        LoopEvent::SpecFinished { outcome, .. } => outcome is Completed,
    }
}

/// Some effect records the done status.
pub open spec fn records_done(es: Seq<EffectView>) -> bool {
    exists|k: int| 0 <= k < es.len() && is_done_status(#[trigger] es[k])
}

proof fn lemma_finished_awaits_nothing(l: TaskLoop, events: Seq<LoopEvent>)
    requires
        l.phase == LoopPhase::Finished,
    ensures
        awaited_events(l, events) == Seq::<LoopEvent>::empty(),
    decreases events.len(),
{
    if events.len() > 0 {
        lemma_finished_awaits_nothing(l, events.drop_first());
    }
}

proof fn lemma_run_outcome(l: TaskLoop, events: Seq<LoopEvent>)
    requires
        loop_wf(l),
        l.phase != LoopPhase::Finished,
    ensures
        records_done(run_loop(l, events).1) <==> ((forall|k: int|
            0 <= k < awaited_events(l, events).len() ==> succeeded(#[trigger] awaited_events(l, events)[k]))
            && run_loop(l, events).0.phase == LoopPhase::Finished),
    decreases events.len(),
{
    if events.len() > 0 {
        let e = events[0];
        let (l1, e1) = loop_step(l, e);
        let rest = events.drop_first();
        lemma_step_wf(l, e);
        let (l2, e2) = run_loop(l1, rest);
        let all = e1 + e2;
        let aw = awaited_events(l, events);
        let aw1 = awaited_events(l1, rest);
        assert(run_loop(l, events) == (l2, all));
        assert(aw == if awaited(l, e) {
            seq![e] + aw1
        } else {
            aw1
        });
        assert(records_done(e1) <==> (awaited(l, e) && succeeded(e) && l1.phase == LoopPhase::Finished)) by {
            if records_done(e1) {
                let k = choose|k: int| 0 <= k < e1.len() && is_done_status(#[trigger] e1[k]);
            }
            if awaited(l, e) && succeeded(e) && l1.phase == LoopPhase::Finished {
                assert(is_done_status(e1[0]));
            }
        }
        if l1.phase == LoopPhase::Finished {
            lemma_finished_run_inert(l1, rest);
            lemma_finished_awaits_nothing(l1, rest);
            assert(all =~= e1);
            assert(!awaited(l, e) ==> l1 == l);
            assert(awaited(l, e));
            assert(aw =~= seq![e]);
            assert(aw[0] == e);
            assert(l2 == l1);
        } else {
            lemma_run_outcome(l1, rest);
            if records_done(e1) {
                assert(false);
            }
            assert(records_done(all) <==> records_done(e2)) by {
                if records_done(all) {
                    let k = choose|k: int| 0 <= k < all.len() && is_done_status(#[trigger] all[k]);
                    if k >= e1.len() {
                        assert(all[k] == e2[k - e1.len()]);
                    } else {
                        assert(all[k] == e1[k]);
                    }
                }
                if records_done(e2) {
                    let k = choose|k: int| 0 <= k < e2.len() && is_done_status(#[trigger] e2[k]);
                    assert(all[k + e1.len()] == e2[k]);
                }
            }
            if awaited(l, e) {
                assert(aw =~= seq![e] + aw1);
                // a failure that is awaited finishes the run
                assert(succeeded(e));
                assert forall|k: int| 0 <= k < aw1.len() implies (succeeded(#[trigger] aw1[k]) <==> succeeded(
                    aw[k + 1],
                )) by {
                    assert(aw[k + 1] == aw1[k]);
                }
                assert((forall|k: int| 0 <= k < aw.len() ==> succeeded(#[trigger] aw[k])) <==> (forall|k: int|
                    0 <= k < aw1.len() ==> succeeded(#[trigger] aw1[k]))) by {
                    if forall|k: int| 0 <= k < aw1.len() ==> succeeded(#[trigger] aw1[k]) {
                        assert forall|k: int| 0 <= k < aw.len() implies succeeded(#[trigger] aw[k]) by {
                            if k > 0 {
                                assert(aw[k] == aw1[k - 1]);
                            }
                        }
                    }
                }
            } else {
                assert(aw == aw1);
            }
        }
    }
}

/// A run over `n` commands records the done status exactly when every
/// event it waited for succeeded (the running status recorded, the
/// database opened, every command completed) and the run finished: it ends
/// completed exactly when every command succeeded.
pub proof fn law_run_completes_iff_all_succeeded(n: usize, events: Seq<LoopEvent>)
    ensures
        ({
            let l0 = TaskLoop { spec_count: n, next_spec: 0, phase: LoopPhase::Starting };
            records_done(run_loop(l0, events).1) <==> ((forall|k: int|
                0 <= k < awaited_events(l0, events).len() ==> succeeded(#[trigger] awaited_events(l0, events)[k]))
                && run_loop(l0, events).0.phase == LoopPhase::Finished)
        }),
{
    lemma_run_outcome(TaskLoop { spec_count: n, next_spec: 0, phase: LoopPhase::Starting }, events);
}

// ---------------------------------------------------------------------------
// Batching completed targets
// ---------------------------------------------------------------------------

/// The view of a completed target: its address and whether it succeeded.
pub open spec fn items_view(v: Seq<(String, bool)>) -> Seq<(Seq<char>, bool)> {
    v.map_values(|p: (String, bool)| (p.0@, p.1))
}

/// Targets that were already done before this run.
pub fn initial_completed(total: usize, pending: usize) -> (res: usize)
    ensures
        res == if total > pending {
            total - pending
        } else {
            0
        },
{
    if total > pending {
        total - pending
    } else {
        0
    }
}

/// Completed targets wait in a buffer of at most this many before they are
/// written.
pub open spec fn batch_size() -> nat {
    50
}

/// The progress saved after a completed target: the new percent when the
/// buffer is written and the percent grew, else what was saved.
pub open spec fn next_saved(saved: u8, flushes: bool, percent: u8) -> u8 {
    if flushes && percent > saved {
        percent
    } else {
        saved
    }
}

/// The progress saved after each completed target, from `saved`; each step
/// says whether the buffer is written then, and the percent given.
pub open spec fn saved_trace(saved: u8, steps: Seq<(bool, u8)>) -> Seq<u8>
    decreases steps.len(),
{
    if steps.len() == 0 {
        Seq::empty()
    } else {
        let n = next_saved(saved, steps[0].0, steps[0].1);
        seq![n] + saved_trace(n, steps.drop_first())
    }
}

/// Over a run the saved progress never decreases, and it stays within
/// 0..=100 when it starts there and every percent given is at most 100.
pub proof fn law_saved_progress_monotone(saved: u8, steps: Seq<(bool, u8)>)
    ensures
        forall|k: int| 0 <= k < saved_trace(saved, steps).len() ==> saved <= #[trigger] saved_trace(saved, steps)[k],
        forall|a: int, b: int|
            0 <= a <= b < saved_trace(saved, steps).len() ==> #[trigger] saved_trace(saved, steps)[a]
                <= #[trigger] saved_trace(saved, steps)[b],
        saved <= 100 && (forall|k: int| 0 <= k < steps.len() ==> (#[trigger] steps[k]).1 <= 100) ==> forall|k: int|
            0 <= k < saved_trace(saved, steps).len() ==> #[trigger] saved_trace(saved, steps)[k] <= 100,
        saved_trace(saved, steps).len() == steps.len(),
    decreases steps.len(),
{
    if steps.len() > 0 {
        let n = next_saved(saved, steps[0].0, steps[0].1);
        let rest = steps.drop_first();
        law_saved_progress_monotone(n, rest);
        let t = saved_trace(saved, steps);
        let t1 = saved_trace(n, rest);
        assert(t == seq![n] + t1);
        assert forall|k: int| 0 <= k < t.len() implies saved <= #[trigger] t[k] by {
            if k > 0 {
                assert(t[k] == t1[k - 1]);
            }
        }
        assert forall|a: int, b: int| 0 <= a <= b < t.len() implies #[trigger] t[a] <= #[trigger] t[b] by {
            if a > 0 {
                assert(t[a] == t1[a - 1]);
            }
            if b > 0 {
                assert(t[b] == t1[b - 1]);
            }
        }
        if saved <= 100 && (forall|k: int| 0 <= k < steps.len() ==> (#[trigger] steps[k]).1 <= 100) {
            assert(steps[0].1 <= 100);
            assert forall|k: int| 0 <= k < rest.len() implies (#[trigger] rest[k]).1 <= 100 by {
                assert(rest[k] == steps[k + 1]);
            }
            assert forall|k: int| 0 <= k < t.len() implies #[trigger] t[k] <= 100 by {
                if k > 0 {
                    assert(t[k] == t1[k - 1]);
                }
            }
        }
    }
}

/// Completed targets not yet written, how many targets are done, and the
/// progress last saved.
pub struct ProgressTracker {
    buffer: Vec<(String, bool)>,
    completed: usize,
    last_saved: u8,
}

/// What to do after a target completed: write these results, and save this
/// progress.
pub struct TrackerAction {
    pub flush: Vec<(String, bool)>,
    pub save_progress: Option<u8>,
}

impl ProgressTracker {
    /// Targets waiting to be written.
    pub closed spec fn pending(&self) -> Seq<(Seq<char>, bool)> {
        items_view(self.buffer@)
    }

    /// Targets done so far.
    pub closed spec fn done_count(&self) -> nat {
        self.completed as nat
    }

    /// Progress last saved.
    pub closed spec fn saved(&self) -> u8 {
        self.last_saved
    }

    /// The buffer never reaches a full batch between calls.
    pub closed spec fn wf(&self) -> bool {
        self.buffer@.len() < batch_size()
    }

    /// A tracker that starts from `initial_completed` targets done.
    pub fn new(initial_completed: usize) -> (res: Self)
        ensures
            res.pending().len() == 0,
            res.done_count() == initial_completed,
            res.saved() == 0,
            res.wf(),
    {
        ProgressTracker { buffer: Vec::new(), completed: initial_completed, last_saved: 0 }
    }

    /// Targets done so far.
    pub fn completed(&self) -> (res: usize)
        ensures
            res == self.done_count(),
    {
        self.completed
    }

    /// Records a completed target. `percent` is the progress for the new
    /// count. A full batch is handed out to be written, with the progress
    /// when it grew past what was saved.
    pub fn record(&mut self, ip: String, success: bool, percent: u8) -> (res: TrackerAction)
        requires
            old(self).wf(),
            old(self).done_count() < usize::MAX,
        ensures
            final(self).wf(),
            final(self).done_count() == old(self).done_count() + 1,
            final(self).saved() == next_saved(
                old(self).saved(),
                old(self).pending().len() + 1 >= batch_size(),
                percent,
            ),
            res.save_progress matches Some(p) ==> p > old(self).saved() && p == final(self).saved(),
            ({
                let all = old(self).pending().push((ip@, success));
                if all.len() >= batch_size() {
                    &&& items_view(res.flush@) == all
                    &&& final(self).pending().len() == 0
                    &&& res.save_progress == (if percent > old(self).saved() {
                        Some(percent)
                    } else {
                        None::<u8>
                    })
                    &&& final(self).saved() == (if percent > old(self).saved() {
                        percent
                    } else {
                        old(self).saved()
                    })
                } else {
                    &&& res.flush@.len() == 0
                    &&& final(self).pending() == all
                    &&& res.save_progress is None
                    &&& final(self).saved() == old(self).saved()
                }
            }),
    {
        let ghost ipv = ip@;
        self.buffer.push((ip, success));
        assert(items_view(self.buffer@) =~= items_view(old(self).buffer@).push((ipv, success)));
        self.completed = self.completed + 1;
        if self.buffer.len() >= 50 {
            let mut flush: Vec<(String, bool)> = Vec::new();
            std::mem::swap(&mut flush, &mut self.buffer);
            let save = if percent > self.last_saved {
                self.last_saved = percent;
                Some(percent)
            } else {
                None
            };
            TrackerAction { flush, save_progress: save }
        } else {
            TrackerAction { flush: Vec::new(), save_progress: None }
        }
    }

    /// After the last target: whatever waits is handed out to be written,
    /// with the final progress.
    pub fn finish(&mut self, percent: u8) -> (res: TrackerAction)
        ensures
            items_view(res.flush@) == old(self).pending(),
            final(self).pending().len() == 0,
            final(self).done_count() == old(self).done_count(),
            final(self).saved() == old(self).saved(),
            res.save_progress == if old(self).pending().len() > 0 {
                Some(percent)
            } else {
                None::<u8>
            },
    {
        if self.buffer.len() > 0 {
            let mut flush: Vec<(String, bool)> = Vec::new();
            std::mem::swap(&mut flush, &mut self.buffer);
            TrackerAction { flush, save_progress: Some(percent) }
        } else {
            assert(items_view(self.buffer@) =~= Seq::<(Seq<char>, bool)>::empty());
            TrackerAction { flush: Vec::new(), save_progress: None }
        }
    }
}

/// `?` placeholders for `n` values, comma-separated.
pub open spec fn placeholders(n: nat) -> Seq<char>
    decreases n,
{
    if n <= 1 {
        "?"@
    } else {
        placeholders((n - 1) as nat) + ",?"@
    }
}

/// The statement that marks targets with `state`.
pub open spec fn update_sql(state: Seq<char>, n: nat) -> Seq<char> {
    "UPDATE targets SET status = '"@ + state + "' WHERE ip IN ("@ + placeholders(n) + ")"@
}

/// Addresses of the results with the given outcome, in order.
pub open spec fn ips_with(items: Seq<(Seq<char>, bool)>, success: bool) -> Seq<Seq<char>>
    decreases items.len(),
{
    if items.len() == 0 {
        Seq::empty()
    } else {
        let rest = ips_with(items.drop_last(), success);
        if items.last().1 == success {
            rest.push(items.last().0)
        } else {
            rest
        }
    }
}

/// The statements that record a batch of results: one marking the finished
/// targets and one marking the failed ones, each only when it has targets,
/// with the addresses to bind in order.
pub open spec fn flush_plan(items: Seq<(Seq<char>, bool)>) -> Seq<(Seq<char>, Seq<Seq<char>>)> {
    let ok = ips_with(items, true);
    let bad = ips_with(items, false);
    let a = if ok.len() > 0 {
        seq![(update_sql("finished"@, ok.len()), ok)]
    } else {
        Seq::empty()
    };
    let b = if bad.len() > 0 {
        seq![(update_sql("failed"@, bad.len()), bad)]
    } else {
        Seq::empty()
    };
    a + b
}

/// The view of a statement with its values.
pub open spec fn statements_view(v: Seq<(String, Vec<String>)>) -> Seq<(Seq<char>, Seq<Seq<char>>)> {
    v.map_values(|p: (String, Vec<String>)| (p.0@, crate::text::views(p.1@)))
}

fn placeholders_exec(n: usize) -> (res: String)
    requires
        n >= 1,
    ensures
        res@ == placeholders(n as nat),
{
    let mut s = crate::text::owned("?");
    let mut i: usize = 1;
    while i < n
        invariant
            1 <= i <= n,
            s@ == placeholders(i as nat),
        decreases n - i,
    {
        s = join_str(s.as_str(), ",?");
        i = i + 1;
    }
    s
}

fn update_sql_exec(state: &str, n: usize) -> (res: String)
    requires
        n >= 1,
    ensures
        res@ == update_sql(state@, n as nat),
{
    let a = join_str("UPDATE targets SET status = '", state);
    let b = join_str(a.as_str(), "' WHERE ip IN (");
    let p = placeholders_exec(n);
    let c = join_str(b.as_str(), p.as_str());
    join_str(c.as_str(), ")")
}

fn ips_with_exec(items: &[(String, bool)], success: bool) -> (res: Vec<String>)
    ensures
        crate::text::views(res@) == ips_with(items_view(items@), success),
{
    let ghost iv = items_view(items@);
    let mut out: Vec<String> = Vec::new();
    let mut i: usize = 0;
    while i < items.len()
        invariant
            i <= items@.len(),
            iv == items_view(items@),
            crate::text::views(out@) == ips_with(iv.take(i as int), success),
        decreases items@.len() - i,
    {
        let (ip, ok) = &items[i];
        proof {
            assert(iv.take(i + 1).drop_last() =~= iv.take(i as int));
            assert(iv.take(i + 1).last() == (ip@, *ok));
        }
        if *ok == success {
            out.push(ip.clone());
            proof {
                assert(crate::text::views(out@) =~= ips_with(iv.take(i as int), success).push(ip@));
            }
        }
        i = i + 1;
    }
    assert(iv.take(i as int) =~= iv);
    out
}

/// The statements that record a batch of results.
pub fn flush_statements(items: &[(String, bool)]) -> (res: Vec<(String, Vec<String>)>)
    ensures
        statements_view(res@) == flush_plan(items_view(items@)),
{
    proof {
        reveal_strlit("finished");
        reveal_strlit("failed");
    }
    let ok = ips_with_exec(items, true);
    let bad = ips_with_exec(items, false);
    let mut out: Vec<(String, Vec<String>)> = Vec::new();
    if ok.len() > 0 {
        let sql = update_sql_exec("finished", ok.len());
        out.push((sql, ok));
    }
    let ghost first = out@;
    if bad.len() > 0 {
        let sql = update_sql_exec("failed", bad.len());
        out.push((sql, bad));
    }
    assert(statements_view(out@) =~= flush_plan(items_view(items@)));
    out
}

/// Number of `c` in `s`.
pub open spec fn char_count(s: Seq<char>, c: char) -> nat
    decreases s.len(),
{
    if s.len() == 0 {
        0
    } else {
        char_count(s.drop_last(), c) + if s.last() == c {
            1nat
        } else {
            0nat
        }
    }
}

proof fn lemma_char_count_concat(a: Seq<char>, b: Seq<char>, c: char)
    ensures
        char_count(a + b, c) == char_count(a, c) + char_count(b, c),
    decreases b.len(),
{
    if b.len() == 0 {
        assert(a + b =~= a);
    } else {
        assert((a + b).drop_last() =~= a + b.drop_last());
        lemma_char_count_concat(a, b.drop_last(), c);
    }
}

/// A batch statement has exactly one placeholder per bound value.
pub proof fn law_placeholders_match_values(n: nat)
    requires
        n >= 1,
    ensures
        char_count(placeholders(n), '?') == n,
    decreases n,
{
    reveal_strlit("?");
    reveal_strlit(",?");
    if n > 1 {
        law_placeholders_match_values((n - 1) as nat);
        lemma_char_count_concat(placeholders((n - 1) as nat), ",?"@, '?');
        assert(",?"@.drop_last() =~= seq![',']);
        assert(seq![','].drop_last() =~= Seq::<char>::empty());
        assert(char_count(Seq::<char>::empty(), '?') == 0);
        assert(char_count(seq![','], '?') == 0);
        assert(char_count(",?"@, '?') == 1);
    } else {
        assert("?"@.drop_last() =~= Seq::<char>::empty());
        assert(char_count(Seq::<char>::empty(), '?') == 0);
        assert(char_count("?"@, '?') == 1);
    }
}

/// A batch records every result once: the finished and failed addresses
/// together are as many as the results, and each result's address is among
/// those of its outcome.
pub proof fn law_flush_partitions(items: Seq<(Seq<char>, bool)>)
    ensures
        ips_with(items, true).len() + ips_with(items, false).len() == items.len(),
    decreases items.len(),
{
    if items.len() > 0 {
        law_flush_partitions(items.drop_last());
    }
}

// ---------------------------------------------------------------------------
// Process commands
// ---------------------------------------------------------------------------

/// The arguments a command's process runs with: its arguments, then its
/// targets.
pub fn process_args(spec: &crate::records::CommandSpec) -> (res: Vec<String>)
    ensures
        res@ == spec.args@ + spec.targets@,
{
    let a = crate::text::clone_strings(spec.args.as_slice());
    crate::text::append_strings(a, spec.targets.as_slice())
}

// ---------------------------------------------------------------------------
// Reading a task's commands
// ---------------------------------------------------------------------------

/// Reads the commands of a task from its directory: `workflow.json` lists
/// the command ids, and each command's `spec.toml` describes it.
pub struct SimpleCommandParser {}

impl SimpleCommandParser {
    /// The command ids a `workflow.json` lists; a text that is no JSON list
    /// of strings is a configuration error.
    pub fn workflow_ids(&self, content: &str) -> (res: Result<Vec<String>, crate::tasks::AppError>)
        ensures
            match crate::json::json_string_list(content@) {
                Ok(ids) => res matches Ok(v) && crate::text::views(v@) == ids,
                Err(e) => res matches Err(crate::tasks::AppError::Config(m)) && m@ == "workflow.json 格式错误: "@ + e,
            },
    {
        match crate::json::parse_string_list(content) {
            Ok(v) => Ok(v),
            Err(e) => Err(crate::tasks::AppError::Config(join_str("workflow.json 格式错误: ", e.as_str()))),
        }
    }

    /// The error of a task directory without `workflow.json`.
    pub fn missing_workflow(&self) -> (res: crate::tasks::AppError)
        ensures
            res matches crate::tasks::AppError::Config(m) && m@ == "未找到任务定义 (workflow.json)"@,
    {
        crate::tasks::AppError::Config(crate::text::owned("未找到任务定义 (workflow.json)"))
    }

    /// The error of a `workflow.json` that could not be read.
    pub fn workflow_read_error(&self, cause: &str) -> (res: crate::tasks::AppError)
        ensures
            res matches crate::tasks::AppError::Config(m) && m@ == "无法读取 workflow.json: "@ + cause@,
    {
        crate::tasks::AppError::Config(join_str("无法读取 workflow.json: ", cause))
    }

    /// The error of a command's `spec.toml` that could not be read.
    pub fn spec_read_error(&self, id: &str, cause: &str) -> (res: crate::tasks::AppError)
        ensures
            res matches crate::tasks::AppError::Config(m) && m@ == "无法读取 spec.toml ["@ + id@ + "]: "@ + cause@,
    {
        let a = join_str("无法读取 spec.toml [", id);
        let b = join_str(a.as_str(), "]: ");
        crate::tasks::AppError::Config(join_str(b.as_str(), cause))
    }

    /// The error of a command's `spec.toml` that does not describe a
    /// command.
    pub fn spec_format_error(&self, id: &str, cause: &str) -> (res: crate::tasks::AppError)
        ensures
            res matches crate::tasks::AppError::Config(m) && m@ == "spec.toml 格式错误 ["@ + id@ + "]: "@ + cause@,
    {
        let a = join_str("spec.toml 格式错误 [", id);
        let b = join_str(a.as_str(), "]: ");
        crate::tasks::AppError::Config(join_str(b.as_str(), cause))
    }

    /// A command read from its `spec.toml`, named by its id in the
    /// workflow.
    pub fn named_spec(&self, spec: crate::records::CommandSpec, id: String) -> (res: crate::records::CommandSpec)
        ensures
            res == (crate::records::CommandSpec { id, ..spec }),
    {
        let mut s = spec;
        s.id = id;
        s
    }
}

// ---------------------------------------------------------------------------
// A scheduler that keeps nothing
// ---------------------------------------------------------------------------

/// A scheduler without a persistent queue: every operation succeeds and
/// nothing is ever left running.
pub struct NoopScheduler;

impl NoopScheduler {
    /// Queues a task: nothing to do.
    pub fn enqueue(&self, task_id: &str) -> (res: Result<(), crate::tasks::AppError>)
        ensures
            res is Ok,
    {
        Ok(())
    }

    /// Marks a task complete: nothing to do.
    pub fn complete(&self, task_id: &str) -> (res: Result<(), crate::tasks::AppError>)
        ensures
            res is Ok,
    {
        Ok(())
    }

    /// Marks a task failed: nothing to do.
    pub fn fail(&self, task_id: &str, reason: &str) -> (res: Result<(), crate::tasks::AppError>)
        ensures
            res is Ok,
    {
        Ok(())
    }

    /// The tasks left running: none.
    pub fn recover_running(&self) -> (res: Result<Vec<String>, crate::tasks::AppError>)
        ensures
            res matches Ok(v) && v@.len() == 0,
    {
        Ok(Vec::new())
    }
}

/// The event reports a failure: the database could not be opened, or a
/// command could not be prepared, started, or exited unsuccessfully.
pub open spec fn failing_event(e: LoopEvent) -> bool {
    match e {
        LoopEvent::DbOpened { error, .. } => error is Some,
        LoopEvent::SpecFinished { outcome, .. } => match outcome {
            SpecOutcome::InitFailed { .. } => true,
            SpecOutcome::SpawnFailed { .. } => true,
            SpecOutcome::ExitedWithFailure { .. } => true,
            _ => false,
        },
        _ => false,
    }
}

/// A command that ends because the task was stopped records the stopped
/// status, stamped with the time, tells the scheduler the task is over and
/// never that it failed; the failed status is recorded only on a failing
/// event.
pub proof fn law_stop_records_stopped(l: TaskLoop, e: LoopEvent, now: i64)
    requires
        loop_wf(l),
    ensures
        l.phase == LoopPhase::Running ==> ({
            let effs = loop_step(l, LoopEvent::SpecFinished { outcome: SpecOutcome::Stopped, now }).1;
            &&& forall|k: int|
                0 <= k < effs.len() ==> (#[trigger] effs[k] matches EffectView::SetStatus { status, finished_at, .. }
                    ==> status == 5 && finished_at == Some(now))
            &&& exists|k: int| 0 <= k < effs.len() && (#[trigger] effs[k]) is SetStatus
            &&& exists|k: int| 0 <= k < effs.len() && is_complete(#[trigger] effs[k])
            &&& forall|k: int| 0 <= k < effs.len() ==> !is_fail(#[trigger] effs[k])
        }),
        forall|k: int|
            0 <= k < loop_step(l, e).1.len() && (#[trigger] loop_step(l, e).1[k] matches EffectView::SetStatus {
                status,
                ..
            } && status == 4) ==> failing_event(e),
{
    let effs = loop_step(l, LoopEvent::SpecFinished { outcome: SpecOutcome::Stopped, now }).1;
    if l.phase == LoopPhase::Running {
        assert(effs[0] is SetStatus);
        assert(is_complete(effs[1]));
    }
}

/// A command that exits unsuccessfully fails the task: the failed status is
/// recorded with the command's exit code (-1 when it had none), stamped with
/// the time, the same code is reported as the exit, the scheduler is told
/// the task failed and never that it is over. When the last command
/// completes, the done status is recorded at 100 % with exit code 0, the
/// exit is reported as 0 and the scheduler is told the task is over.
pub proof fn law_command_outcome_statuses(l: TaskLoop, command: String, code: Option<i32>, now: i64)
    requires
        loop_wf(l),
        l.phase == LoopPhase::Running,
    ensures
        ({
            let c: i32 = match code {
                Some(c) => c,
                None => -1i32,
            };
            let effs = loop_step(
                l,
                LoopEvent::SpecFinished { outcome: SpecOutcome::ExitedWithFailure { command, code }, now },
            ).1;
            &&& exists|k: int|
                0 <= k < effs.len() && (#[trigger] effs[k] matches EffectView::SetStatus {
                    status,
                    exit_code,
                    finished_at,
                    ..
                } && status == 4 && exit_code == Some(c) && finished_at == Some(now))
            &&& forall|k: int|
                0 <= k < effs.len() ==> (#[trigger] effs[k] matches EffectView::SetStatus { status, .. }
                    ==> status == 4)
            &&& exists|k: int| 0 <= k < effs.len() && #[trigger] effs[k] == EffectView::EmitExit { code: c, ts: now }
            &&& exists|k: int| 0 <= k < effs.len() && is_fail(#[trigger] effs[k])
            &&& forall|k: int| 0 <= k < effs.len() ==> !is_complete(#[trigger] effs[k])
        }),
        l.next_spec + 1 == l.spec_count ==> ({
            let effs = loop_step(l, LoopEvent::SpecFinished { outcome: SpecOutcome::Completed, now }).1;
            &&& exists|k: int|
                0 <= k < effs.len() && (#[trigger] effs[k] matches EffectView::SetStatus {
                    status,
                    progress,
                    exit_code,
                    finished_at,
                    ..
                } && status == 3 && progress == Some(100u8) && exit_code == Some(0i32) && finished_at == Some(now))
            &&& exists|k: int| 0 <= k < effs.len() && #[trigger] effs[k] == EffectView::EmitExit { code: 0, ts: now }
            &&& exists|k: int| 0 <= k < effs.len() && is_complete(#[trigger] effs[k])
            &&& forall|k: int| 0 <= k < effs.len() ==> !is_fail(#[trigger] effs[k])
        }),
{
    let c: i32 = match code {
        Some(c) => c,
        None => -1i32,
    };
    let effs = loop_step(
        l,
        LoopEvent::SpecFinished { outcome: SpecOutcome::ExitedWithFailure { command, code }, now },
    ).1;
    assert(effs[0] is SetStatus);
    assert(effs[1] == EffectView::EmitExit { code: c, ts: now });
    assert(is_fail(effs[2]));
    if l.next_spec + 1 == l.spec_count {
        let d = loop_step(l, LoopEvent::SpecFinished { outcome: SpecOutcome::Completed, now }).1;
        assert(d[0] is SetStatus);
        assert(d[1] == EffectView::EmitExit { code: 0, ts: now });
        assert(is_complete(d[2]));
    }
}

/// A run that cannot open its database, or whose command cannot be
/// prepared or started, fails the task: the failed status is recorded with
/// exit code -1, stamped with the time, the scheduler is told the task
/// failed and never that it is over, and the run is finished.
pub proof fn law_failures_record_failed(l: TaskLoop, err: String, command: String, now: i64)
    requires
        loop_wf(l),
    ensures
        l.phase == LoopPhase::OpeningDb ==> ({
            let (l2, effs) = loop_step(l, LoopEvent::DbOpened { error: Some(err), now });
            &&& exists|k: int|
                0 <= k < effs.len() && (#[trigger] effs[k] matches EffectView::SetStatus {
                    status,
                    exit_code,
                    finished_at,
                    ..
                } && status == 4 && exit_code == Some(-1i32) && finished_at == Some(now))
            &&& exists|k: int| 0 <= k < effs.len() && is_fail(#[trigger] effs[k])
            &&& forall|k: int| 0 <= k < effs.len() ==> !is_complete(#[trigger] effs[k])
            &&& l2.phase == LoopPhase::Finished
        }),
        l.phase == LoopPhase::Running ==> ({
            let (l2, effs) = loop_step(
                l,
                LoopEvent::SpecFinished { outcome: SpecOutcome::SpawnFailed { command, error: err }, now },
            );
            &&& exists|k: int|
                0 <= k < effs.len() && (#[trigger] effs[k] matches EffectView::SetStatus {
                    status,
                    exit_code,
                    finished_at,
                    ..
                } && status == 4 && exit_code == Some(-1i32) && finished_at == Some(now))
            &&& exists|k: int| 0 <= k < effs.len() && is_fail(#[trigger] effs[k])
            &&& forall|k: int| 0 <= k < effs.len() ==> !is_complete(#[trigger] effs[k])
            &&& l2.phase == LoopPhase::Finished
        }),
        l.phase == LoopPhase::Running ==> ({
            let (l2, effs) = loop_step(
                l,
                LoopEvent::SpecFinished { outcome: SpecOutcome::InitFailed { command, error: err }, now },
            );
            &&& exists|k: int|
                0 <= k < effs.len() && (#[trigger] effs[k] matches EffectView::SetStatus {
                    status,
                    exit_code,
                    finished_at,
                    ..
                } && status == 4 && exit_code == Some(-1i32) && finished_at == Some(now))
            &&& exists|k: int| 0 <= k < effs.len() && is_fail(#[trigger] effs[k])
            &&& forall|k: int| 0 <= k < effs.len() ==> !is_complete(#[trigger] effs[k])
            &&& l2.phase == LoopPhase::Finished
        }),
{
    if l.phase == LoopPhase::OpeningDb {
        let effs = loop_step(l, LoopEvent::DbOpened { error: Some(err), now }).1;
        assert(effs[0] is SetStatus);
        assert(is_fail(effs[1]));
    }
    if l.phase == LoopPhase::Running {
        let e1 = loop_step(
            l,
            LoopEvent::SpecFinished { outcome: SpecOutcome::SpawnFailed { command, error: err }, now },
        ).1;
        assert(e1[1] is SetStatus);
        assert(is_fail(e1[2]));
        let e2 = loop_step(
            l,
            LoopEvent::SpecFinished { outcome: SpecOutcome::InitFailed { command, error: err }, now },
        ).1;
        assert(e2[0] is SetStatus);
        assert(is_fail(e2[1]));
    }
}

} // verus!
