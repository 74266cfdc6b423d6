use jepa::agent::{AgentPhase, AgentState, Assessment, ObserveVerdict, PLATEAU_STEPS};
use jepa::robot::CONTROL_HZ;

#[test]
fn exploring_alternates_observation_and_motion() {
    let mut a = AgentState::new();
    assert_eq!(a.phase(), AgentPhase::Idle);
    assert_eq!(a.observe(Assessment::NoGoal), ObserveVerdict::Ignored);
    assert!(a.start());
    assert!(a.awaiting());
    assert!(!a.start());
    assert_eq!(a.observe(Assessment::NoGoal), ObserveVerdict::Act);
    assert_eq!(a.phase(), AgentPhase::Moving);
    assert_eq!(a.phase_label(), "moving");
    assert_eq!(a.observe(Assessment::NoGoal), ObserveVerdict::Ignored);
    assert!(!a.arrived());
    assert!(a.awaiting());
    assert_eq!(a.steps(), 1);
    a.stop();
    assert_eq!(a.phase_label(), "idle");
}

#[test]
fn stalled_search_ends_on_a_plateau() {
    let mut a = AgentState::new();
    a.set_goal();
    let stall = Assessment::Measured { reached: false, improved: false };
    for _ in 0..PLATEAU_STEPS - 1 {
        assert_eq!(a.observe(stall), ObserveVerdict::Act);
        a.arrived();
    }
    assert_eq!(a.observe(stall), ObserveVerdict::Plateau);
    assert_eq!(a.phase_label(), "plateau");
    assert_eq!(a.steps(), PLATEAU_STEPS - 1);
    // An improvement resets the count.
    a.clear_goal();
    assert!(a.awaiting());
    assert_eq!(a.observe(Assessment::Measured { reached: false, improved: true }), ObserveVerdict::Act);
}

#[test]
fn converged_agent_rechecks_once_a_second() {
    let mut a = AgentState::new();
    a.set_goal();
    assert_eq!(a.observe(Assessment::Measured { reached: true, improved: true }), ObserveVerdict::Converged);
    assert_eq!(a.phase_label(), "converged");
    for _ in 0..CONTROL_HZ - 1 {
        assert!(!a.arrived());
        assert_eq!(a.phase(), AgentPhase::Converged);
    }
    assert!(a.arrived());
    assert_eq!(a.phase_label(), "awaiting observation");
    // A new goal starts the count of actions over.
    assert_eq!(a.observe(Assessment::Measured { reached: false, improved: true }), ObserveVerdict::Act);
    a.set_goal();
    assert_eq!(a.steps(), 0);
    assert!(a.awaiting());
}

#[test]
fn learning_modes_start_the_agent_and_others_stop_it() {
    let mut a = AgentState::new();
    assert!(a.enter_mode(jepa::robot::RobotMode::Exploring));
    assert!(a.awaiting());
    assert!(!a.enter_mode(jepa::robot::RobotMode::GoalSeeking));
    assert!(!a.enter_mode(jepa::robot::RobotMode::Manual));
    assert_eq!(a.phase(), AgentPhase::Idle);
}
