//! The latent agent's phases (Exploring / Mode C): when it waits for a camera
//! observation, when it is moving, when the goal view counts as reached, when the
//! search has stalled on a plateau, and how often a converged arm re-checks its view.
//! The energies themselves are compared by the caller; the phase machine takes the
//! outcome of those comparisons.

use vstd::prelude::*;

use crate::robot::{RobotMode, CONTROL_HZ};

verus! {

/// Observations without improving the best energy after which the search is declared
/// a plateau.
pub const PLATEAU_STEPS: u32 = 60;

#[derive(Debug, Clone, Copy, PartialEq, Eq, Structural)]
pub enum AgentPhase {
    Idle,
    /// Settled; the next camera embedding is the observation of the current pose.
    AwaitObservation,
    /// An action is being executed under the ramp.
    Moving,
    Converged,
    /// No improvement for `PLATEAU_STEPS` observations.
    Plateau,
}

/// How an observation compares with the goal, as measured by the caller.
#[derive(Debug, Clone, Copy, PartialEq, Eq, Structural)]
pub enum Assessment {
    /// No goal is set: the agent explores.
    NoGoal,
    /// A goal is set: whether the energy is under the reach threshold, and whether it
    /// improved on the best energy so far.
    Measured { reached: bool, improved: bool },
}

/// What the agent does with an observation.
#[derive(Debug, Clone, Copy, PartialEq, Eq, Structural)]
pub enum ObserveVerdict {
    /// Not waiting for an observation: nothing happens.
    Ignored,
    /// The goal view is reached; the arm holds.
    Converged,
    /// The search stalled; the arm holds.
    Plateau,
    /// An action is chosen and executed.
    Act,
}

/// The counters and the phase of the latent agent.
pub struct AgentState {
    phase: AgentPhase,
    /// Control ticks spent converged since the view was last re-checked.
    converged_ticks: u32,
    /// Observations since the best energy last improved.
    stalled_steps: u32,
    /// Actions taken since the goal was set.
    steps: u32,
}

pub open spec fn spec_phase_label(p: AgentPhase) -> Seq<char> {
    match p {
        AgentPhase::Idle => "idle"@,
        AgentPhase::AwaitObservation => "awaiting observation"@,
        AgentPhase::Moving => "moving"@,
        AgentPhase::Converged => "converged"@,
        AgentPhase::Plateau => "plateau"@,
    }
}

/// The state after the arm reports that it is settled.
pub open spec fn spec_arrived(s: AgentView) -> AgentView {
    match s.phase {
        AgentPhase::Moving => AgentView { phase: AgentPhase::AwaitObservation, ..s },
        AgentPhase::Converged | AgentPhase::Plateau => if s.converged_ticks + 1 >= CONTROL_HZ {
            AgentView { phase: AgentPhase::AwaitObservation, converged_ticks: 0, ..s }
        } else {
            AgentView { converged_ticks: s.converged_ticks + 1, ..s }
        },
        _ => s,
    }
}

/// The state after `n` settled reports in a row.
pub open spec fn spec_arrivals(s: AgentView, n: nat) -> AgentView
    decreases n,
{
    if n == 0 {
        s
    } else {
        spec_arrivals(spec_arrived(s), (n - 1) as nat)
    }
}

/// The stalled-step count after an observation measured against a goal.
pub open spec fn spec_stalled_after(stalled: int, improved: bool) -> int {
    if improved {
        0
    } else {
        stalled + 1
    }
}

/// The state and verdict after an observation.
pub open spec fn spec_observe(s: AgentView, a: Assessment) -> (AgentView, ObserveVerdict) {
    if s.phase != AgentPhase::AwaitObservation {
        (s, ObserveVerdict::Ignored)
    } else {
        match a {
            Assessment::Measured { reached, improved } => {
                let stalled = spec_stalled_after(s.stalled_steps, improved);
                if reached {
                    (AgentView { phase: AgentPhase::Converged, stalled_steps: stalled, ..s }, ObserveVerdict::Converged)
                } else if stalled >= PLATEAU_STEPS {
                    (AgentView { phase: AgentPhase::Plateau, stalled_steps: 0, ..s }, ObserveVerdict::Plateau)
                } else {
                    (
                        AgentView { phase: AgentPhase::Moving, stalled_steps: stalled, steps: s.steps + 1, ..s },
                        ObserveVerdict::Act,
                    )
                }
            },
            Assessment::NoGoal => (
                AgentView { phase: AgentPhase::Moving, steps: s.steps + 1, ..s },
                ObserveVerdict::Act,
            ),
        }
    }
}

/// The state after `n` observations in a row that neither reach the goal nor improve.
pub open spec fn spec_stalls(s: AgentView, n: nat) -> AgentView
    decreases n,
{
    if n == 0 {
        s
    } else {
        let next = spec_observe(s, Assessment::Measured { reached: false, improved: false }).0;
        spec_stalls(spec_arrived(next), (n - 1) as nat)
    }
}

/// The agent's state as plain values.
pub struct AgentView {
    pub phase: AgentPhase,
    pub converged_ticks: int,
    pub stalled_steps: int,
    pub steps: int,
}

impl View for AgentState {
    type V = AgentView;

    closed spec fn view(&self) -> AgentView {
        AgentView {
            phase: self.phase,
            converged_ticks: self.converged_ticks as int,
            stalled_steps: self.stalled_steps as int,
            steps: self.steps as int,
        }
    }
}

impl AgentView {
    /// Counter bounds every state keeps.
    pub open spec fn well_formed(self) -> bool {
        &&& 0 <= self.converged_ticks < CONTROL_HZ
        &&& 0 <= self.stalled_steps
        &&& 0 <= self.steps
    }
}

impl AgentState {
    /// An idle agent with nothing counted.
    pub fn new() -> (s: Self)
        ensures
            s@ == (AgentView { phase: AgentPhase::Idle, converged_ticks: 0, stalled_steps: 0, steps: 0 }),
            s@.well_formed(),
    {
        AgentState { phase: AgentPhase::Idle, converged_ticks: 0, stalled_steps: 0, steps: 0 }
    }

    pub fn phase(&self) -> (p: AgentPhase)
        ensures
            p == self@.phase,
    {
        self.phase
    }

    /// Actions taken since the goal was set.
    pub fn steps(&self) -> (n: u32)
        ensures
            n == self@.steps,
    {
        self.steps
    }

    /// Observations since the best energy last improved.
    pub fn stalled_steps(&self) -> (n: u32)
        ensures
            n == self@.stalled_steps,
    {
        self.stalled_steps
    }

    /// Whether the next observation is taken.
    pub fn awaiting(&self) -> (r: bool)
        ensures
            r == (self@.phase == AgentPhase::AwaitObservation),
    {
        self.phase == AgentPhase::AwaitObservation
    }

    /// A new goal: the counts start over and the next observation is taken.
    pub fn set_goal(&mut self)
        ensures
            final(self)@ == (AgentView {
                phase: AgentPhase::AwaitObservation,
                stalled_steps: 0,
                steps: 0,
                ..old(self)@
            }),
    {
        self.steps = 0;
        self.stalled_steps = 0;
        self.phase = AgentPhase::AwaitObservation;
    }

    /// The goal is dropped: a converged or stalled agent goes back to exploring.
    pub fn clear_goal(&mut self)
        ensures
            final(self)@ == (if old(self)@.phase == AgentPhase::Converged || old(self)@.phase == AgentPhase::Plateau {
                AgentView { phase: AgentPhase::AwaitObservation, ..old(self)@ }
            } else {
                old(self)@
            }),
    {
        if self.phase == AgentPhase::Converged || self.phase == AgentPhase::Plateau {
            self.phase = AgentPhase::AwaitObservation;
        }
    }

    /// Begin acting. Answers whether the agent (re)started, in which case the last
    /// observation and action are to be forgotten.
    pub fn start(&mut self) -> (restarted: bool)
        ensures
            restarted == (old(self)@.phase == AgentPhase::Idle || old(self)@.phase == AgentPhase::Converged
                || old(self)@.phase == AgentPhase::Plateau),
            final(self)@ == (if restarted {
                AgentView { phase: AgentPhase::AwaitObservation, ..old(self)@ }
            } else {
                old(self)@
            }),
    {
        if self.phase == AgentPhase::Idle || self.phase == AgentPhase::Converged || self.phase == AgentPhase::Plateau {
            self.phase = AgentPhase::AwaitObservation;
            true
        } else {
            false
        }
    }

    /// Pause acting.
    pub fn stop(&mut self)
        ensures
            final(self)@ == (AgentView { phase: AgentPhase::Idle, ..old(self)@ }),
    {
        self.phase = AgentPhase::Idle;
    }

    /// The arm reports that it is settled. After an action the next observation is
    /// asked for; once converged (or stalled) the view is re-checked every
    /// `CONTROL_HZ` reports. Answers whether such a re-check begins, in which case
    /// the last observation and action are to be forgotten.
    pub fn arrived(&mut self) -> (recheck: bool)
        requires
            old(self)@.well_formed(),
        ensures
            final(self)@ == spec_arrived(old(self)@),
            final(self)@.well_formed(),
            recheck == ((old(self)@.phase == AgentPhase::Converged || old(self)@.phase == AgentPhase::Plateau)
                && old(self)@.converged_ticks + 1 >= CONTROL_HZ),
    {
        match self.phase {
            AgentPhase::Moving => {
                self.phase = AgentPhase::AwaitObservation;
                false
            },
            AgentPhase::Converged | AgentPhase::Plateau => {
                self.converged_ticks = self.converged_ticks + 1;
                if self.converged_ticks >= CONTROL_HZ {
                    self.converged_ticks = 0;
                    self.phase = AgentPhase::AwaitObservation;
                    true
                } else {
                    false
                }
            },
            _ => false,
        }
    }

    /// Take an observation that the caller measured against the goal (if any). Only
    /// an agent awaiting an observation takes it; the goal view reached converges, a
    /// `PLATEAU_STEPS`-th observation in a row without improvement declares a plateau,
    /// and otherwise an action is taken.
    pub fn observe(&mut self, assessment: Assessment) -> (v: ObserveVerdict)
        requires
            old(self)@.well_formed(),
            old(self)@.steps < u32::MAX,
            old(self)@.stalled_steps < u32::MAX,
        ensures
            (final(self)@, v) == spec_observe(old(self)@, assessment),
            final(self)@.well_formed(),
    {
        if self.phase != AgentPhase::AwaitObservation {
            return ObserveVerdict::Ignored;
        }
        match assessment {
            Assessment::Measured { reached, improved } => {
                self.stalled_steps = if improved {
                    0
                } else {
                    self.stalled_steps + 1
                };
                if reached {
                    self.phase = AgentPhase::Converged;
                    return ObserveVerdict::Converged;
                }
                if self.stalled_steps >= PLATEAU_STEPS {
                    self.stalled_steps = 0;
                    self.phase = AgentPhase::Plateau;
                    return ObserveVerdict::Plateau;
                }
            },
            Assessment::NoGoal => {},
        }
        self.steps = self.steps + 1;
        self.phase = AgentPhase::Moving;
        ObserveVerdict::Act
    }

    /// The arm entered `mode`: the learning modes start the agent (answering whether
    /// it restarted, as [`AgentState::start`]), the others stop it.
    pub fn enter_mode(&mut self, mode: RobotMode) -> (restarted: bool)
        ensures
            (mode == RobotMode::Exploring || mode == RobotMode::GoalSeeking) ==> {
                &&& restarted == (old(self)@.phase == AgentPhase::Idle || old(self)@.phase == AgentPhase::Converged
                    || old(self)@.phase == AgentPhase::Plateau)
                &&& final(self)@ == if restarted {
                    AgentView { phase: AgentPhase::AwaitObservation, ..old(self)@ }
                } else {
                    old(self)@
                }
            },
            !(mode == RobotMode::Exploring || mode == RobotMode::GoalSeeking) ==> !restarted && final(self)@ == (
            AgentView { phase: AgentPhase::Idle, ..old(self)@ }),
    {
        if mode.learning_mode() {
            self.start()
        } else {
            self.stop();
            false
        }
    }

    /// The phase as reported in progress snapshots.
    pub fn phase_label(&self) -> (s: &'static str)
        ensures
            s@ == spec_phase_label(self@.phase),
    {
        match self.phase {
            AgentPhase::Idle => "idle",
            AgentPhase::AwaitObservation => "awaiting observation",
            AgentPhase::Moving => "moving",
            AgentPhase::Converged => "converged",
            AgentPhase::Plateau => "plateau",
        }
    }
}

/// A converged agent holds for `CONTROL_HZ - 1` settled reports and re-checks its view
/// at the `CONTROL_HZ`-th (about once a second), counting from a fresh re-check.
pub proof fn lemma_converged_recheck_period(s: AgentView, n: nat)
    requires
        s.well_formed(),
        s.phase == AgentPhase::Converged,
        s.converged_ticks == 0,
        n <= CONTROL_HZ,
    ensures
        n < CONTROL_HZ ==> spec_arrivals(s, n) == (AgentView { converged_ticks: n as int, ..s }),
        n == CONTROL_HZ ==> spec_arrivals(s, n) == (AgentView {
            phase: AgentPhase::AwaitObservation,
            converged_ticks: 0,
            ..s
        }),
{
    lemma_arrivals_from(s, n);
}

proof fn lemma_arrivals_from(s: AgentView, n: nat)
    requires
        s.phase == AgentPhase::Converged,
        0 <= s.converged_ticks,
        s.converged_ticks + n <= CONTROL_HZ,
    ensures
        s.converged_ticks + n < CONTROL_HZ ==> spec_arrivals(s, n) == (AgentView {
            converged_ticks: s.converged_ticks + n,
            ..s
        }),
        s.converged_ticks + n == CONTROL_HZ && n > 0 ==> spec_arrivals(s, n) == (AgentView {
            phase: AgentPhase::AwaitObservation,
            converged_ticks: 0,
            ..s
        }),
    decreases n,
{
    if n > 0 {
        let next = spec_arrived(s);
        if s.converged_ticks + 1 < CONTROL_HZ {
            lemma_arrivals_from(next, (n - 1) as nat);
        } else {
            assert(n == 1);
            assert(spec_arrivals(next, 0) == next);
        }
    }
}

/// An agent that keeps observing without reaching the goal or improving stops at a
/// plateau after exactly `PLATEAU_STEPS` observations, having taken an action after
/// each of the others.
pub proof fn lemma_stall_to_plateau(s: AgentView)
    requires
        s.well_formed(),
        s.phase == AgentPhase::AwaitObservation,
        s.stalled_steps == 0,
    ensures
        spec_stalls(s, (PLATEAU_STEPS - 1) as nat) == (AgentView {
            stalled_steps: PLATEAU_STEPS - 1,
            steps: s.steps + PLATEAU_STEPS - 1,
            ..s
        }),
        spec_observe(spec_stalls(s, (PLATEAU_STEPS - 1) as nat), Assessment::Measured { reached: false, improved: false })
            == ((AgentView { phase: AgentPhase::Plateau, stalled_steps: 0, steps: s.steps + PLATEAU_STEPS - 1, ..s }),
        ObserveVerdict::Plateau),
{
    lemma_stalls_from(s, (PLATEAU_STEPS - 1) as nat);
}

/// An observation that improves on the best energy clears the stalled count: it
/// never declares a plateau; short of the goal the search goes on with an action.
pub proof fn lemma_improvement_resets_stall(s: AgentView, reached: bool)
    requires
        s.well_formed(),
        s.phase == AgentPhase::AwaitObservation,
    ensures
        ({
            let (t, v) = spec_observe(s, Assessment::Measured { reached, improved: true });
            &&& t.stalled_steps == 0
            &&& v != ObserveVerdict::Plateau
            &&& reached ==> v == ObserveVerdict::Converged && t.phase == AgentPhase::Converged
            &&& !reached ==> v == ObserveVerdict::Act && t.phase == AgentPhase::Moving && t.steps == s.steps + 1
        }),
{
}

/// A plateau is declared only by an observation taken while awaiting one, that
/// neither reaches the goal nor improves, and that ends a run of `PLATEAU_STEPS`
/// such observations (the stalled count before it is at least `PLATEAU_STEPS - 1`);
/// every such observation does declare it.
pub proof fn lemma_plateau_only_after_stalls(s: AgentView, a: Assessment)
    requires
        s.well_formed(),
    ensures
        spec_observe(s, a).1 == ObserveVerdict::Plateau <==> {
            &&& s.phase == AgentPhase::AwaitObservation
            &&& a == (Assessment::Measured { reached: false, improved: false })
            &&& s.stalled_steps + 1 >= PLATEAU_STEPS
        },
{
}

proof fn lemma_stalls_from(s: AgentView, n: nat)
    requires
        s.phase == AgentPhase::AwaitObservation,
        0 <= s.stalled_steps,
        s.stalled_steps + n < PLATEAU_STEPS,
    ensures
        spec_stalls(s, n) == (AgentView {
            stalled_steps: s.stalled_steps + n,
            steps: s.steps + n,
            ..s
        }),
    decreases n,
{
    if n > 0 {
        let next = spec_observe(s, Assessment::Measured { reached: false, improved: false }).0;
        assert(next == (AgentView { phase: AgentPhase::Moving, stalled_steps: s.stalled_steps + 1, steps: s.steps + 1, ..s }));
        let back = spec_arrived(next);
        assert(back == (AgentView { phase: AgentPhase::AwaitObservation, stalled_steps: s.stalled_steps + 1, steps: s.steps + 1, ..s }));
        lemma_stalls_from(back, (n - 1) as nat);
    }
}

} // verus!
