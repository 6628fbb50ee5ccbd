//! Domain model of a scan: workflows, the staged pipeline they drive, and the
//! records a task produces.
use vstd::prelude::*;

verus! {

// ---------------------------------------------------------------------------
// Pipeline stages
// ---------------------------------------------------------------------------

/// A stage of the scanning pipeline.
#[derive(Debug, Clone, Copy, PartialEq, Eq, Structural)]
pub enum DomainStage {
    /// Discovering live assets.
    AssetDiscovery,
    /// Identifying the services that run on them.
    Fingerprinting,
    /// Checking those services for vulnerabilities.
    VulnerabilityAnalysis,
    /// Producing the report.
    Reporting,
}

/// Stage that a workflow step type selects (1, 2 and 3 name the first three stages).
pub open spec fn stage_of_step_type(step_type: i32) -> Option<DomainStage> {
    if step_type == 1 {
        Some(DomainStage::AssetDiscovery)
    } else if step_type == 2 {
        Some(DomainStage::Fingerprinting)
    } else if step_type == 3 {
        Some(DomainStage::VulnerabilityAnalysis)
    } else {
        None
    }
}

/// Position of a stage in the pipeline.
pub open spec fn stage_rank(s: DomainStage) -> int {
    match s {
        DomainStage::AssetDiscovery => 0,
        DomainStage::Fingerprinting => 1,
        DomainStage::VulnerabilityAnalysis => 2,
        DomainStage::Reporting => 3,
    }
}

impl DomainStage {
    /// Maps a workflow step type to its stage.
    pub fn from_workflow_step_type(step_type: i32) -> (res: Option<DomainStage>)
        ensures
            res == stage_of_step_type(step_type),
    {
        match step_type {
            1 => Some(DomainStage::AssetDiscovery),
            2 => Some(DomainStage::Fingerprinting),
            3 => Some(DomainStage::VulnerabilityAnalysis),
            _ => None,
        }
    }

    /// Position of this stage in the pipeline.
    pub fn order(self) -> (res: u8)
        ensures
            res as int == stage_rank(self),
    {
        match self {
            DomainStage::AssetDiscovery => 0,
            DomainStage::Fingerprinting => 1,
            DomainStage::VulnerabilityAnalysis => 2,
            DomainStage::Reporting => 3,
        }
    }
}

impl Default for DomainStage {
    fn default() -> (res: DomainStage)
        ensures
            res == DomainStage::AssetDiscovery,
    {
        DomainStage::AssetDiscovery
    }
}

// ---------------------------------------------------------------------------
// Workflows
// ---------------------------------------------------------------------------

/// One step of a scan workflow: a tool used in one stage.
#[derive(Debug, Clone)]
pub struct WorkflowStep {
    /// Step type (1 = port scan, 2 = fingerprinting, 3 = vulnerability check).
    pub step_type: i32,
    /// Tool identifier (such as `builtin`, `httpx`, `nuclei`).
    pub tool: String,
}

/// A scan workflow: steps run in the order they were added.
#[derive(Debug, Clone)]
pub struct Workflow {
    pub steps: Vec<WorkflowStep>,
}

impl Default for Workflow {
    fn default() -> (res: Workflow)
        ensures
            res.steps@.len() == 0,
    {
        Workflow { steps: Vec::new() }
    }
}

/// Distinct stages of `steps`, in order of first appearance.
pub open spec fn collected_stages(steps: Seq<WorkflowStep>) -> Seq<DomainStage>
    decreases steps.len(),
{
    if steps.len() == 0 {
        Seq::empty()
    } else {
        let prev = collected_stages(steps.drop_last());
        match stage_of_step_type(steps.last().step_type) {
            Some(st) => if prev.contains(st) {
                prev
            } else {
                prev.push(st)
            },
            None => prev,
        }
    }
}

/// The ordered stage list of a workflow: its distinct stages in order of first
/// appearance, followed by `Reporting` when there is at least one.
pub open spec fn ordered_stages(steps: Seq<WorkflowStep>) -> Seq<DomainStage> {
    let c = collected_stages(steps);
    if c.len() > 0 && !c.contains(DomainStage::Reporting) {
        c.push(DomainStage::Reporting)
    } else {
        c
    }
}

impl WorkflowStep {
    /// The stage this step belongs to.
    pub fn domain_stage(&self) -> (res: Option<DomainStage>)
        ensures
            res == stage_of_step_type(self.step_type),
    {
        DomainStage::from_workflow_step_type(self.step_type)
    }
}

fn stages_contain(stages: &Vec<DomainStage>, s: DomainStage) -> (res: bool)
    ensures
        res == stages@.contains(s),
{
    let mut i: usize = 0;
    while i < stages.len()
        invariant
            i <= stages@.len(),
            forall|k: int| 0 <= k < i ==> stages@[k] != s,
        decreases stages@.len() - i,
    {
        if stages[i] == s {
            assert(stages@[i as int] == s);
            return true;
        }
        i = i + 1;
    }
    false
}

impl Workflow {
    /// The distinct stages of this workflow in order of first appearance,
    /// followed by `Reporting` when there is at least one.
    pub fn ordered_domain_stages(&self) -> (res: Vec<DomainStage>)
        ensures
            res@ == ordered_stages(self.steps@),
    {
        let mut stages: Vec<DomainStage> = Vec::new();
        let mut i: usize = 0;
        while i < self.steps.len()
            invariant
                i <= self.steps@.len(),
                stages@ == collected_stages(self.steps@.take(i as int)),
            decreases self.steps@.len() - i,
        {
            proof {
                assert(self.steps@.take(i + 1).drop_last() =~= self.steps@.take(i as int));
            }
            match self.steps[i].domain_stage() {
                Some(stage) => {
                    if !stages_contain(&stages, stage) {
                        stages.push(stage);
                    }
                },
                None => {},
            }
            i = i + 1;
        }
        assert(self.steps@.take(i as int) =~= self.steps@);
        if stages.len() > 0 && !stages_contain(&stages, DomainStage::Reporting) {
            stages.push(DomainStage::Reporting);
        }
        stages
    }

    /// Pipeline state positioned at the first stage of this workflow.
    pub fn initial_domain_state(&self) -> (res: DomainPipelineState)
        ensures
            res.current_stage == (if ordered_stages(self.steps@).len() > 0 {
                ordered_stages(self.steps@)[0]
            } else {
                DomainStage::AssetDiscovery
            }),
            res.assets_discovered == 0,
            res.fingerprints_collected == 0,
            res.findings_identified == 0,
            res.reports_generated == 0,
    {
        let mut state = DomainPipelineState::default();
        let stages = self.ordered_domain_stages();
        if stages.len() > 0 {
            state.current_stage = stages[0];
        }
        state
    }
}

// ---------------------------------------------------------------------------
// Pipeline state
// ---------------------------------------------------------------------------

/// Progress of a task through the pipeline.
#[derive(Debug, Clone, PartialEq, Eq, Structural)]
pub struct DomainPipelineState {
    /// Stage the task is in.
    pub current_stage: DomainStage,
    /// Number of assets discovered.
    pub assets_discovered: u32,
    /// Number of fingerprints collected.
    pub fingerprints_collected: u32,
    /// Number of findings identified.
    pub findings_identified: u32,
    /// Number of reports generated.
    pub reports_generated: u32,
}

impl Default for DomainPipelineState {
    fn default() -> (res: DomainPipelineState)
        ensures
            res.current_stage == DomainStage::AssetDiscovery,
            res.assets_discovered == 0,
            res.fingerprints_collected == 0,
            res.findings_identified == 0,
            res.reports_generated == 0,
    {
        DomainPipelineState {
            current_stage: DomainStage::AssetDiscovery,
            assets_discovered: 0,
            fingerprints_collected: 0,
            findings_identified: 0,
            reports_generated: 0,
        }
    }
}

/// The state after asking to move to `next`, and whether the move was made.
pub open spec fn advanced(s: DomainPipelineState, next: DomainStage) -> (DomainPipelineState, bool) {
    if stage_rank(next) < stage_rank(s.current_stage) {
        (s, false)
    } else {
        (DomainPipelineState { current_stage: next, ..s }, true)
    }
}

impl DomainPipelineState {
    /// Moves to `next` unless that would go back to an earlier stage.
    pub fn advance_stage(&mut self, next: DomainStage) -> (res: bool)
        ensures
            (*final(self), res) == advanced(*old(self), next),
    {
        if next.order() < self.current_stage.order() {
            return false;
        }
        self.current_stage = next;
        true
    }
}

// ---------------------------------------------------------------------------
// Laws
// ---------------------------------------------------------------------------

/// The stages a workflow's steps select, before `Reporting` is added: none
/// twice, never `Reporting`, and exactly the stages some step selects.
pub proof fn lemma_collected_props(steps: Seq<WorkflowStep>)
    ensures
        collected_stages(steps).no_duplicates(),
        !collected_stages(steps).contains(DomainStage::Reporting),
        forall|s: DomainStage|
            collected_stages(steps).contains(s) <==> exists|i: int|
                0 <= i < steps.len() && stage_of_step_type(#[trigger] steps[i].step_type) == Some(
                    s,
                ),
    decreases steps.len(),
{
    if steps.len() > 0 {
        let prev = steps.drop_last();
        lemma_collected_props(prev);
        let pc = collected_stages(prev);
        let last = steps[steps.len() - 1];
        assert forall|s: DomainStage|
            collected_stages(steps).contains(s) implies exists|i: int|
                0 <= i < steps.len() && stage_of_step_type(
                    #[trigger] steps[i].step_type,
                ) == Some(s) by {
            if pc.contains(s) {
                let i = choose|i: int|
                    0 <= i < prev.len() && stage_of_step_type(
                        #[trigger] prev[i].step_type,
                    ) == Some(s);
                assert(steps[i] == prev[i]);
                assert(0 <= i < steps.len() && stage_of_step_type(steps[i].step_type) == Some(s));
            } else {
                let c = collected_stages(steps);
                let k = choose|k: int| 0 <= k < c.len() && c[k] == s;
                if let Some(st) = stage_of_step_type(last.step_type) {
                    if !pc.contains(st) {
                        if k < pc.len() {
                            assert(pc[k] == s);
                        }
                    }
                }
                assert(stage_of_step_type(steps[steps.len() - 1].step_type) == Some(s));
            }
        }
        assert forall|s: DomainStage|
            (exists|i: int|
                0 <= i < steps.len() && stage_of_step_type(#[trigger] steps[i].step_type) == Some(
                    s,
                )) implies collected_stages(steps).contains(s) by {
            let i = choose|i: int|
                0 <= i < steps.len() && stage_of_step_type(#[trigger] steps[i].step_type) == Some(
                    s,
                );
            if i < steps.len() - 1 {
                assert(prev[i] == steps[i]);
                assert(pc.contains(s));
                let k = choose|k: int| 0 <= k < pc.len() && pc[k] == s;
                if let Some(st) = stage_of_step_type(last.step_type) {
                    if !pc.contains(st) {
                        assert(pc.push(st)[k] == s);
                    }
                }
            } else {
                if !pc.contains(s) {
                    assert(pc.push(s)[pc.len() as int] == s);
                }
            }
        }
        if let Some(st) = stage_of_step_type(last.step_type) {
            if !pc.contains(st) {
                let c = pc.push(st);
                assert forall|x: int, y: int| 0 <= x < y < c.len() implies c[x] != c[y] by {
                    if y == pc.len() {
                        assert(pc.contains(c[x]));
                    }
                }
                assert(!c.contains(DomainStage::Reporting)) by {
                    if c.contains(DomainStage::Reporting) {
                        let k = choose|k: int| 0 <= k < c.len() && c[k] == DomainStage::Reporting;
                        if k < pc.len() {
                            assert(pc[k] == DomainStage::Reporting);
                        }
                    }
                }
            }
        }
    }
}

/// The ordered stage list of any workflow holds no stage twice.
pub proof fn law_ordered_stages_distinct(steps: Seq<WorkflowStep>)
    ensures
        ordered_stages(steps).no_duplicates(),
{
    lemma_collected_props(steps);
}

/// A workflow whose steps select at least one stage ends its ordered stage list
/// with `Reporting`; one that selects none has an empty list.
pub proof fn law_ordered_stages_end_with_reporting(steps: Seq<WorkflowStep>)
    ensures
        ordered_stages(steps).len() == 0 <==> (forall|i: int|
            0 <= i < steps.len() ==> stage_of_step_type(#[trigger] steps[i].step_type) is None),
        ordered_stages(steps).len() > 0 ==> ordered_stages(steps).last()
            == DomainStage::Reporting,
{
    lemma_collected_props(steps);
    let c = collected_stages(steps);
    if c.len() == 0 {
        assert forall|i: int| 0 <= i < steps.len() implies stage_of_step_type(
            #[trigger] steps[i].step_type,
        ) is None by {
            if let Some(s) = stage_of_step_type(steps[i].step_type) {
                assert(!c.contains(s));
            }
        }
    } else {
        assert(c.contains(c[0]));
    }
}

/// A stage other than `Reporting` is in a workflow's ordered stage list exactly
/// when one of its steps selects it.
pub proof fn law_ordered_stages_cover_steps(steps: Seq<WorkflowStep>, s: DomainStage)
    requires
        s != DomainStage::Reporting,
    ensures
        ordered_stages(steps).contains(s) <==> exists|i: int|
            0 <= i < steps.len() && stage_of_step_type(#[trigger] steps[i].step_type) == Some(s),
{
    lemma_collected_props(steps);
    let c = collected_stages(steps);
    if c.len() > 0 && !c.contains(DomainStage::Reporting) {
        if c.push(DomainStage::Reporting).contains(s) {
            let k = choose|k: int| 0 <= k < c.len() + 1 && c.push(DomainStage::Reporting)[k] == s;
            assert(c[k] == s);
        }
        if c.contains(s) {
            let k = choose|k: int| 0 <= k < c.len() && c[k] == s;
            assert(c.push(DomainStage::Reporting)[k] == s);
        }
    }
}

/// A pipeline never moves back: advancing yields a stage no earlier than the
/// current one, succeeds exactly when the target is no earlier, and never
/// touches the counters.
pub proof fn law_advance_forward_only(s: DomainPipelineState, next: DomainStage)
    ensures
        stage_rank(advanced(s, next).0.current_stage) >= stage_rank(s.current_stage),
        advanced(s, next).1 <==> stage_rank(next) >= stage_rank(s.current_stage),
        advanced(s, next).1 ==> advanced(s, next).0.current_stage == next,
        !advanced(s, next).1 ==> advanced(s, next).0 == s,
        advanced(s, next).0.assets_discovered == s.assets_discovered,
        advanced(s, next).0.fingerprints_collected == s.fingerprints_collected,
        advanced(s, next).0.findings_identified == s.findings_identified,
        advanced(s, next).0.reports_generated == s.reports_generated,
{
}

/// Step types 1, 2 and 3 select asset discovery, fingerprinting and
/// vulnerability analysis, and no other type selects a stage; the pipeline
/// runs asset discovery, fingerprinting, vulnerability analysis, reporting,
/// in that order, so a later stage can never be left for an earlier one.
pub proof fn law_stage_table(step_type: i32, s: DomainPipelineState)
    ensures
        stage_of_step_type(1) == Some(DomainStage::AssetDiscovery),
        stage_of_step_type(2) == Some(DomainStage::Fingerprinting),
        stage_of_step_type(3) == Some(DomainStage::VulnerabilityAnalysis),
        !(1 <= step_type <= 3) ==> stage_of_step_type(step_type) is None,
        stage_rank(DomainStage::AssetDiscovery) < stage_rank(DomainStage::Fingerprinting),
        stage_rank(DomainStage::Fingerprinting) < stage_rank(DomainStage::VulnerabilityAnalysis),
        stage_rank(DomainStage::VulnerabilityAnalysis) < stage_rank(DomainStage::Reporting),
        s.current_stage == DomainStage::Reporting ==> forall|t: DomainStage|
            t != DomainStage::Reporting ==> !(#[trigger] advanced(s, t)).1,
        s.current_stage == DomainStage::Fingerprinting ==> !advanced(s, DomainStage::AssetDiscovery).1,
        s.current_stage == DomainStage::VulnerabilityAnalysis ==> !advanced(s, DomainStage::Fingerprinting).1
            && !advanced(s, DomainStage::AssetDiscovery).1,
{
}

proof fn lemma_no_stage_none_collected(steps: Seq<WorkflowStep>)
    requires
        forall|j: int| 0 <= j < steps.len() ==> stage_of_step_type(#[trigger] steps[j].step_type) is None,
    ensures
        collected_stages(steps).len() == 0,
    decreases steps.len(),
{
    if steps.len() > 0 {
        let p = steps.drop_last();
        assert forall|j: int| 0 <= j < p.len() implies stage_of_step_type(#[trigger] p[j].step_type) is None by {
            assert(p[j] == steps[j]);
        }
        lemma_no_stage_none_collected(p);
        assert(stage_of_step_type(steps[steps.len() - 1].step_type) is None);
    }
}

proof fn lemma_first_stage_collected(steps: Seq<WorkflowStep>, i: int, st: DomainStage)
    requires
        0 <= i < steps.len(),
        stage_of_step_type(steps[i].step_type) == Some(st),
        forall|j: int| 0 <= j < i ==> stage_of_step_type(#[trigger] steps[j].step_type) is None,
    ensures
        collected_stages(steps).len() > 0,
        collected_stages(steps)[0] == st,
    decreases steps.len(),
{
    let p = steps.drop_last();
    if i == steps.len() - 1 {
        assert forall|j: int| 0 <= j < p.len() implies stage_of_step_type(#[trigger] p[j].step_type) is None by {
            assert(p[j] == steps[j]);
        }
        lemma_no_stage_none_collected(p);
        assert(!collected_stages(p).contains(st));
        assert(collected_stages(steps) == collected_stages(p).push(st));
    } else {
        assert(p[i] == steps[i]);
        assert forall|j: int| 0 <= j < i implies stage_of_step_type(#[trigger] p[j].step_type) is None by {
            assert(p[j] == steps[j]);
        }
        lemma_first_stage_collected(p, i, st);
    }
}

/// A workflow's stages come in the order its steps first select them: the
/// first stage of the ordered list, where the pipeline starts, is the stage
/// of the first step that selects one, whatever stages later steps select.
pub proof fn law_first_stage_is_first_selected(steps: Seq<WorkflowStep>, i: int)
    requires
        0 <= i < steps.len(),
        stage_of_step_type(steps[i].step_type) is Some,
        forall|j: int| 0 <= j < i ==> stage_of_step_type(#[trigger] steps[j].step_type) is None,
    ensures
        ordered_stages(steps).len() > 0,
        ordered_stages(steps)[0] == stage_of_step_type(steps[i].step_type)->0,
{
    lemma_first_stage_collected(steps, i, stage_of_step_type(steps[i].step_type)->0);
}

} // verus!
