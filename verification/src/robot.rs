//! The arm: operating modes, serial bus settings and frames, and the command gate
//! that keeps a physical arm from moving without approval or under emergency stop.

use vstd::prelude::*;

use crate::protocol::{spec_frame, sync_params, sync_write_u16, write_u8, INSTR_SYNC_WRITE, INSTR_WRITE,
    BROADCAST_ID, REG_GOAL_POSITION, REG_TORQUE_ENABLE};

verus! {

/// Degrees of freedom of the arm (the gripper is extra).
pub const DOF: usize = 6;

/// Control loop rate in ticks per second.
pub const CONTROL_HZ: u32 = 30;

#[derive(Debug, Clone, Copy, PartialEq, Eq, Structural)]
pub enum RobotMode {
    Manual,
    Shadowing,
    Mirror,
    Exploring,
    GoalSeeking,
}

impl RobotMode {
    /// The modes in which the latent agent drives the arm.
    pub fn learning_mode(self) -> (r: bool)
        ensures
            r == (self == RobotMode::Exploring || self == RobotMode::GoalSeeking),
    {
        match self {
            RobotMode::Exploring | RobotMode::GoalSeeking => true,
            _ => false,
        }
    }
}

#[derive(Debug, Clone, Copy, PartialEq, Eq, Structural)]
pub enum BackendKind {
    Virtual,
    Physical,
}

/// Serial settings for a physical arm (Feetech STS3215 / SO-100 defaults).
#[derive(Debug, Clone)]
pub struct HardwareConfig {
    pub port: String,
    pub baud: u32,
    /// Servo bus IDs for joints 1 to 6.
    pub joint_ids: [u8; 6],
    pub gripper_id: u8,
    /// Encoder ticks per full revolution (4096 for STS3215).
    pub ticks_per_rev: u32,
    /// Tick value at joint angle 0 rad.
    pub zero_ticks: [i32; 6],
    /// +1 or -1 per joint to match the mechanical direction.
    pub direction: [i8; 6],
    /// Gripper ticks at closed (0.0) and open (1.0).
    pub gripper_closed_ticks: i32,
    pub gripper_open_ticks: i32,
}

impl Default for HardwareConfig {
    fn default() -> (c: Self)
        ensures
            c.port@ == "/dev/ttyUSB0"@,
            c.baud == 1_000_000,
            c.joint_ids@ == seq![1u8, 2, 3, 4, 5, 6],
            c.gripper_id == 7,
            c.ticks_per_rev == 4096,
            c.zero_ticks@ == seq![2048i32, 2048, 2048, 2048, 2048, 2048],
            c.direction@ == seq![1i8, 1, 1, 1, 1, 1],
            c.gripper_closed_ticks == 2048,
            c.gripper_open_ticks == 3000,
    {
        let c = HardwareConfig {
            port: String::from_str("/dev/ttyUSB0"),
            baud: 1_000_000,
            joint_ids: [1, 2, 3, 4, 5, 6],
            gripper_id: 7,
            ticks_per_rev: 4096,
            zero_ticks: [2048, 2048, 2048, 2048, 2048, 2048],
            direction: [1, 1, 1, 1, 1, 1],
            gripper_closed_ticks: 2048,
            gripper_open_ticks: 3000,
        };
        assert(c.joint_ids@ =~= seq![1u8, 2, 3, 4, 5, 6]);
        assert(c.zero_ticks@ =~= seq![2048i32, 2048, 2048, 2048, 2048, 2048]);
        assert(c.direction@ =~= seq![1i8, 1, 1, 1, 1, 1]);
        c
    }
}

/// `v` limited to `[lo, hi]`.
pub open spec fn clamp_int(v: int, lo: int, hi: int) -> int {
    if v < lo {
        lo
    } else if v > hi {
        hi
    } else {
        v
    }
}

impl HardwareConfig {
    /// The servo ids on the bus: the joints in order, then the gripper.
    pub open spec fn spec_bus_ids(&self) -> Seq<u8> {
        self.joint_ids@.push(self.gripper_id)
    }

    /// Encoder position `zero + offset` limited to one revolution `[0, ticks_per_rev - 1]`.
    pub fn clamp_ticks(&self, joint: usize, offset: i32) -> (t: i32)
        requires
            joint < DOF,
            1 <= self.ticks_per_rev <= i32::MAX,
        ensures
            t == clamp_int(self.zero_ticks@[joint as int] + offset, 0, self.ticks_per_rev - 1),
    {
        let raw: i64 = self.zero_ticks[joint] as i64 + offset as i64;
        let hi: i64 = self.ticks_per_rev as i64 - 1;
        if raw < 0 {
            0
        } else if raw > hi {
            hi as i32
        } else {
            raw as i32
        }
    }

    /// The servo ids on the bus: the joints in order, then the gripper.
    pub fn bus_ids(&self) -> (ids: Vec<u8>)
        ensures
            ids@ == self.spec_bus_ids(),
    {
        let mut ids: Vec<u8> = Vec::new();
        let mut i: usize = 0;
        while i < DOF
            invariant
                i <= DOF,
                self.joint_ids@.len() == DOF,
                ids@ == self.joint_ids@.take(i as int),
            decreases DOF - i,
        {
            ids.push(self.joint_ids[i]);
            i = i + 1;
            assert(ids@ =~= self.joint_ids@.take(i as int));
        }
        assert(self.joint_ids@.take(DOF as int) =~= self.joint_ids@);
        ids.push(self.gripper_id);
        ids
    }

    /// One torque-enable write per servo (1 on, 0 off), joints first, then the gripper.
    pub fn torque_frames(&self, enable: u8) -> (frames: Vec<Vec<u8>>)
        ensures
            frames@.len() == DOF + 1,
            forall|k: int|
                0 <= k < frames@.len() ==> #[trigger] frames@[k]@ == spec_frame(
                    self.spec_bus_ids()[k],
                    INSTR_WRITE,
                    seq![REG_TORQUE_ENABLE, enable],
                ),
    {
        let ids: Vec<u8> = self.bus_ids();
        let mut frames: Vec<Vec<u8>> = Vec::new();
        let mut k: usize = 0;
        while k < ids.len()
            invariant
                ids@ == self.spec_bus_ids(),
                ids@.len() == DOF + 1,
                k <= ids@.len(),
                frames@.len() == k,
                forall|j: int|
                    0 <= j < k ==> #[trigger] frames@[j]@ == spec_frame(
                        self.spec_bus_ids()[j],
                        INSTR_WRITE,
                        seq![REG_TORQUE_ENABLE, enable],
                    ),
            decreases ids@.len() - k,
        {
            let f: Vec<u8> = write_u8(ids[k], REG_TORQUE_ENABLE, enable);
            frames.push(f);
            k = k + 1;
        }
        frames
    }

    /// One broadcast frame setting every joint's goal position and the gripper's.
    pub fn goal_frame(&self, joint_ticks: [u16; 6], gripper_ticks: u16) -> (f: Vec<u8>)
        ensures
            f@ == spec_frame(
                BROADCAST_ID,
                INSTR_SYNC_WRITE,
                sync_params(
                    REG_GOAL_POSITION,
                    Seq::new(7, |k: int| if k < 6 {
                        (self.joint_ids@[k], joint_ticks@[k])
                    } else {
                        (self.gripper_id, gripper_ticks)
                    }),
                ),
            ),
    {
        let mut values: Vec<(u8, u16)> = Vec::new();
        let ghost target = Seq::new(7, |k: int| if k < 6 {
            (self.joint_ids@[k], joint_ticks@[k])
        } else {
            (self.gripper_id, gripper_ticks)
        });
        let mut i: usize = 0;
        while i < DOF
            invariant
                i <= DOF,
                self.joint_ids@.len() == DOF,
                joint_ticks@.len() == DOF,
                target == Seq::new(7, |k: int| if k < 6 {
                    (self.joint_ids@[k], joint_ticks@[k])
                } else {
                    (self.gripper_id, gripper_ticks)
                }),
                values@ == target.take(i as int),
            decreases DOF - i,
        {
            values.push((self.joint_ids[i], joint_ticks[i]));
            i = i + 1;
            assert(values@ =~= target.take(i as int));
        }
        values.push((self.gripper_id, gripper_ticks));
        assert(values@ =~= target);
        sync_write_u16(REG_GOAL_POSITION, values.as_slice())
    }
}

/// Why a command was not accepted.
#[derive(Debug, Clone)]
pub enum GateError<E> {
    /// Emergency stop is engaged; reset safety before moving.
    EStopEngaged,
    /// The command is out of the joint or gripper limits.
    Invalid(E),
}

/// What moves the arm: the target it is driven to, a command waiting for approval,
/// the emergency stop, and the approval gate for physical arms.
pub struct CommandGate<C> {
    safety_gate: bool,
    estop: bool,
    pending: Option<C>,
    target: C,
}

impl<C: Copy> CommandGate<C> {
    pub closed spec fn estop(&self) -> bool {
        self.estop
    }

    /// Physical moves wait for approval.
    pub closed spec fn gate_on(&self) -> bool {
        self.safety_gate
    }

    pub closed spec fn pending(&self) -> Option<C> {
        self.pending
    }

    /// The command the arm is being driven to.
    pub closed spec fn target(&self) -> C {
        self.target
    }

    /// Whether a command must wait for approval.
    pub open spec fn gated(&self, physical: bool) -> bool {
        self.gate_on() && physical
    }

    pub fn new(initial: C) -> (g: Self)
        ensures
            !g.gate_on(),
            !g.estop(),
            g.pending() is None,
            g.target() == initial,
    {
        CommandGate { safety_gate: false, estop: false, pending: None, target: initial }
    }

    /// Submit `cmd`, whose limit check gave `validation`. Under emergency stop it is
    /// refused; an invalid command is refused; on a gated physical arm an unapproved
    /// command waits (answer `false`); otherwise it becomes the target (answer `true`)
    /// and any waiting command is dropped.
    pub fn submit<E>(&mut self, cmd: C, approved: bool, physical: bool, validation: Result<(), E>) -> (r: Result<
        bool,
        GateError<E>,
    >)
        ensures
            final(self).gate_on() == old(self).gate_on(),
            final(self).estop() == old(self).estop(),
            old(self).estop() ==> (r matches Err(GateError::EStopEngaged) && final(self).pending() == old(
                self,
            ).pending() && final(self).target() == old(self).target()),
            !old(self).estop() && validation is Err ==> (r matches Err(GateError::Invalid(_))
                && final(self).pending() == old(self).pending() && final(self).target() == old(self).target()),
            !old(self).estop() && validation is Ok && old(self).gated(physical) && !approved ==> r == Ok::<
                bool,
                GateError<E>,
            >(false) && final(self).pending() == Some(cmd) && final(self).target() == old(self).target(),
            !old(self).estop() && validation is Ok && !(old(self).gated(physical) && !approved) ==> r == Ok::<
                bool,
                GateError<E>,
            >(true) && final(self).pending() is None && final(self).target() == cmd,
    {
        if self.estop {
            return Err(GateError::EStopEngaged);
        }
        match validation {
            Err(e) => Err(GateError::Invalid(e)),
            Ok(()) => {
                if self.safety_gate && physical && !approved {
                    self.pending = Some(cmd);
                    Ok(false)
                } else {
                    self.pending = None;
                    self.target = cmd;
                    Ok(true)
                }
            },
        }
    }

    /// The command waiting for approval.
    pub fn pending_command(&self) -> (p: Option<C>)
        ensures
            p == self.pending(),
    {
        self.pending
    }

    /// Approve the waiting command, whose limit check gave `validation`: it is taken
    /// out and submitted as approved. Nothing waiting answers `false`.
    pub fn approve_pending<E>(&mut self, physical: bool, validation: Result<(), E>) -> (r: Result<
        bool,
        GateError<E>,
    >)
        ensures
            final(self).gate_on() == old(self).gate_on(),
            final(self).estop() == old(self).estop(),
            old(self).pending() is None ==> r == Ok::<bool, GateError<E>>(false) && final(self).pending() is None
                && final(self).target() == old(self).target(),
            old(self).pending() matches Some(cmd) ==> {
                &&& old(self).estop() ==> (r matches Err(GateError::EStopEngaged) && final(self).pending() is None
                    && final(self).target() == old(self).target())
                &&& !old(self).estop() && validation is Err ==> (r matches Err(GateError::Invalid(_))
                    && final(self).pending() is None && final(self).target() == old(self).target())
                &&& !old(self).estop() && validation is Ok ==> r == Ok::<bool, GateError<E>>(true)
                    && final(self).pending() is None && final(self).target() == cmd
            },
    {
        match self.pending {
            Some(cmd) => {
                self.pending = None;
                self.submit(cmd, true, physical, validation)
            },
            None => Ok(false),
        }
    }

    /// Engage the emergency stop: nothing waits any more and the arm holds `current`.
    pub fn emergency_stop(&mut self, current: C)
        ensures
            final(self).gate_on() == old(self).gate_on(),
            final(self).estop(),
            final(self).pending() is None,
            final(self).target() == current,
    {
        self.estop = true;
        self.pending = None;
        self.target = current;
    }

    /// Release the emergency stop.
    pub fn reset_safety(&mut self)
        ensures
            final(self).gate_on() == old(self).gate_on(),
            !final(self).estop(),
            final(self).pending() == old(self).pending(),
            final(self).target() == old(self).target(),
    {
        self.estop = false;
    }

    /// Turn the approval gate on or off.
    pub fn set_safety_gate(&mut self, on: bool)
        ensures
            final(self).gate_on() == on,
            final(self).estop() == old(self).estop(),
            final(self).pending() == old(self).pending(),
            final(self).target() == old(self).target(),
    {
        self.safety_gate = on;
    }

    /// The approval gate as requested by a mode change: a physical arm keeps it on
    /// whatever is asked.
    pub fn request_safety_gate(&mut self, on: bool, physical: bool)
        ensures
            final(self).gate_on() == (on || physical),
            final(self).estop() == old(self).estop(),
            final(self).pending() == old(self).pending(),
            final(self).target() == old(self).target(),
    {
        self.safety_gate = on || physical;
    }

    /// The arm is now driven through a new backend, which reports it at `current`:
    /// the target becomes `current`, a waiting command is dropped, and on a physical
    /// arm the approval gate is switched on.
    pub fn backend_switched(&mut self, current: C, physical: bool)
        ensures
            final(self).gate_on() == (old(self).gate_on() || physical),
            final(self).estop() == old(self).estop(),
            final(self).pending() is None,
            final(self).target() == current,
    {
        self.pending = None;
        self.target = current;
        if physical {
            self.safety_gate = true;
        }
    }

    pub fn safety_gate(&self) -> (r: bool)
        ensures
            r == self.gate_on(),
    {
        self.safety_gate
    }

    pub fn is_estopped(&self) -> (r: bool)
        ensures
            r == self.estop(),
    {
        self.estop
    }

    pub fn target_command(&self) -> (t: C)
        ensures
            t == self.target(),
    {
        self.target
    }
}

} // verus!
