use super_scanner::domain::{DomainPipelineState, DomainStage, Workflow, WorkflowStep};

fn step(t: i32, tool: &str) -> WorkflowStep {
    WorkflowStep { step_type: t, tool: tool.to_string() }
}

fn check_step_stages() {
    assert_eq!(step(1, "builtin").domain_stage(), Some(DomainStage::AssetDiscovery));
    assert_eq!(step(2, "httpx").domain_stage(), Some(DomainStage::Fingerprinting));
    assert_eq!(step(3, "nuclei").domain_stage(), Some(DomainStage::VulnerabilityAnalysis));
}

fn check_ordered_stages() {
    let workflow = Workflow {
        steps: vec![step(1, "builtin"), step(2, "httpx"), step(2, "httpx"), step(3, "nuclei")],
    };
    assert_eq!(
        workflow.ordered_domain_stages(),
        vec![
            DomainStage::AssetDiscovery,
            DomainStage::Fingerprinting,
            DomainStage::VulnerabilityAnalysis,
            DomainStage::Reporting
        ]
    );
}

fn check_forward_only() {
    let mut state = DomainPipelineState::default();
    assert!(state.advance_stage(DomainStage::Fingerprinting));
    assert!(!state.advance_stage(DomainStage::AssetDiscovery));
}

fn check_first_valid_stage() {
    let workflow = Workflow { steps: vec![step(99, "unknown"), step(2, "httpx")] };
    let state = workflow.initial_domain_state();
    assert_eq!(state.current_stage, DomainStage::Fingerprinting);
}

fn check_default_initial_state() {
    let workflow = Workflow { steps: vec![step(99, "unknown")] };
    let state = workflow.initial_domain_state();
    assert_eq!(state.current_stage, DomainStage::AssetDiscovery);
}

#[test]
fn types_workflow_step_maps_to_domain_stage() {
    check_step_stages();
}

#[test]
fn types_workflow_builds_ordered_domain_stages() {
    check_ordered_stages();
}

#[test]
fn types_domain_state_only_allows_forward_transition() {
    check_forward_only();
}

#[test]
fn types_workflow_initial_state_uses_first_valid_stage() {
    check_first_valid_stage();
}

#[test]
fn types_workflow_without_known_stages_keeps_default_initial_state() {
    check_default_initial_state();
}

#[test]
fn workflow_workflow_step_maps_to_domain_stage() {
    check_step_stages();
}

#[test]
fn workflow_workflow_builds_ordered_domain_stages() {
    check_ordered_stages();
}

#[test]
fn workflow_domain_state_only_allows_forward_transition() {
    check_forward_only();
}

#[test]
fn workflow_workflow_initial_state_uses_first_valid_stage() {
    check_first_valid_stage();
}

#[test]
fn workflow_workflow_without_known_stages_keeps_default_initial_state() {
    check_default_initial_state();
}

#[test]
fn unknown_step_types_have_no_stage() {
    assert_eq!(DomainStage::from_workflow_step_type(0), None);
    assert_eq!(DomainStage::from_workflow_step_type(4), None);
    assert!(DomainStage::AssetDiscovery.order() < DomainStage::Reporting.order());
    let empty = Workflow { steps: vec![] };
    assert!(empty.ordered_domain_stages().is_empty());
}

#[test]
fn staying_in_the_same_stage_is_allowed() {
    let mut state = DomainPipelineState::default();
    assert!(state.advance_stage(DomainStage::AssetDiscovery));
    assert!(state.advance_stage(DomainStage::Reporting));
    assert!(!state.advance_stage(DomainStage::VulnerabilityAnalysis));
    assert_eq!(state.current_stage, DomainStage::Reporting);
}
