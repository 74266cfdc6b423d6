use jepa::protocol::{frame, sync_write_u16, INSTR_WRITE, REG_GOAL_POSITION, REG_TORQUE_ENABLE};
use jepa::robot::{BackendKind, CommandGate, GateError, HardwareConfig, RobotMode};

#[test]
fn hardware_defaults_match_the_so100_arm() {
    let c = HardwareConfig::default();
    assert_eq!(c.port, "/dev/ttyUSB0");
    assert_eq!(c.baud, 1_000_000);
    assert_eq!(c.joint_ids, [1, 2, 3, 4, 5, 6]);
    assert_eq!(c.gripper_id, 7);
    assert_eq!(c.ticks_per_rev, 4096);
    assert_eq!(c.zero_ticks, [2048; 6]);
    assert_eq!(c.gripper_open_ticks, 3000);
    assert_eq!(c.bus_ids(), vec![1, 2, 3, 4, 5, 6, 7]);
}

#[test]
fn ticks_are_clamped_to_one_revolution() {
    let c = HardwareConfig::default();
    assert_eq!(c.clamp_ticks(0, 0), 2048);
    assert_eq!(c.clamp_ticks(0, 100_000), 4095);
    assert_eq!(c.clamp_ticks(0, -100_000), 0);
}

#[test]
fn bus_frames_address_every_servo() {
    let c = HardwareConfig::default();
    let frames = c.torque_frames(1);
    assert_eq!(frames.len(), 7);
    assert_eq!(frames[6], frame(7, INSTR_WRITE, &[REG_TORQUE_ENABLE, 1]));
    let goal = c.goal_frame([2048, 2049, 2050, 2051, 2052, 2053], 3000);
    let expected = sync_write_u16(
        REG_GOAL_POSITION,
        &[(1, 2048), (2, 2049), (3, 2050), (4, 2051), (5, 2052), (6, 2053), (7, 3000)],
    );
    assert_eq!(goal, expected);
}

#[test]
fn learning_modes() {
    assert!(RobotMode::Exploring.learning_mode());
    assert!(RobotMode::GoalSeeking.learning_mode());
    assert!(!RobotMode::Manual.learning_mode());
    assert_ne!(BackendKind::Virtual, BackendKind::Physical);
}

#[test]
fn physical_commands_wait_for_approval_and_estop_blocks() {
    let mut g: CommandGate<u32> = CommandGate::new(0);
    g.set_safety_gate(true);
    // Virtual arms are never gated.
    assert!(matches!(g.submit::<()>(5, false, false, Ok(())), Ok(true)));
    assert_eq!(g.target_command(), 5);
    // Physical: the command waits.
    assert!(matches!(g.submit::<()>(7, false, true, Ok(())), Ok(false)));
    assert_eq!(g.target_command(), 5);
    assert_eq!(g.pending_command(), Some(7));
    assert!(matches!(g.approve_pending::<()>(true, Ok(())), Ok(true)));
    assert_eq!(g.target_command(), 7);
    assert_eq!(g.pending_command(), None);
    assert!(matches!(g.approve_pending::<()>(true, Ok(())), Ok(false)));
    // Invalid commands are refused with their reason.
    assert!(matches!(g.submit(9, true, true, Err("out of range")), Err(GateError::Invalid("out of range"))));
    // Emergency stop.
    g.submit::<()>(8, false, true, Ok(())).unwrap();
    g.emergency_stop(6);
    assert!(g.is_estopped());
    assert_eq!(g.pending_command(), None);
    assert_eq!(g.target_command(), 6);
    assert!(matches!(g.submit::<()>(1, true, false, Ok(())), Err(GateError::EStopEngaged)));
    g.reset_safety();
    assert!(matches!(g.submit::<()>(1, true, false, Ok(())), Ok(true)));
}

#[test]
fn a_physical_arm_keeps_its_approval_gate() {
    let mut g: CommandGate<u32> = CommandGate::new(0);
    g.request_safety_gate(false, true);
    assert!(g.safety_gate());
    g.request_safety_gate(false, false);
    assert!(!g.safety_gate());
    assert_eq!(g.submit(5, false, true, Ok::<(), ()>(())).unwrap(), true);
    g.request_safety_gate(true, false);
    assert_eq!(g.submit(6, false, true, Ok::<(), ()>(())).unwrap(), false);
    assert_eq!(g.pending_command(), Some(6));
    // A new backend drops what was waiting and starts from where the arm is.
    g.request_safety_gate(false, false);
    g.backend_switched(42, true);
    assert!(g.safety_gate());
    assert_eq!(g.pending_command(), None);
    assert_eq!(g.target_command(), 42);
}
