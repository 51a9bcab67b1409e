use crate::automaton::rule::Rule;
use crate::world::coord::Point;
use crate::world::world::World;
use vstd::prelude::*;

verus! {

/// The least speed, in ticks per second.
pub const MIN_TPS: u32 = 1;

/// The greatest speed, in ticks per second.
pub const MAX_TPS: u32 = 1000;

/// The speed of a new simulation, in ticks per second.
pub const DEFAULT_TPS: u32 = 10;

/// How long the control loop rests between two looks at the command queue while the
/// simulation does not run, in milliseconds.
pub const IDLE_INTERVAL_MILLIS: u64 = 10;

#[derive(Debug, Clone, Copy, PartialEq, Eq, Structural)]
pub enum SimulationState {
    Stopped,
    Running,
    Paused,
}

#[derive(Debug, Clone, Copy, PartialEq, Eq, Structural)]
pub enum SimulationCommand {
    Start,
    Stop,
    Pause,
    Resume,
    Step,
    SetSpeed(u32),
    Shutdown,
}

/// What a simulation holds: the live cells, the run state, the number of ticks since
/// the last stop, and the speed in ticks per second.
pub struct SimulationModel {
    pub cells: Set<Point>,
    pub state: SimulationState,
    pub tick_count: nat,
    pub tps: nat,
}

/// The speed nearest to `tps` that a simulation accepts.
pub open spec fn clamp_tps(tps: nat) -> nat {
    if tps < MIN_TPS {
        MIN_TPS as nat
    } else if tps > MAX_TPS {
        MAX_TPS as nat
    } else {
        tps
    }
}

/// One tick: the next generation takes the place of the cells, and the tick is counted.
/// The run state and the speed stay.
pub open spec fn after_tick(m: SimulationModel, next_cells: Set<Point>) -> SimulationModel {
    SimulationModel { cells: next_cells, tick_count: m.tick_count + 1, ..m }
}

/// The simulation after one command, where `next_cells` is the generation that the
/// rule gives for `m.cells`. `Stop` clears the world and the tick count; no other
/// command but `Step` touches the cells.
pub open spec fn after_command(
    m: SimulationModel,
    command: SimulationCommand,
    next_cells: Set<Point>,
) -> SimulationModel {
    match command {
        SimulationCommand::Start => SimulationModel { state: SimulationState::Running, ..m },
        SimulationCommand::Stop => SimulationModel {
            state: SimulationState::Stopped,
            tick_count: 0,
            cells: Set::<Point>::empty(),
            ..m
        },
        SimulationCommand::Pause => SimulationModel { state: SimulationState::Paused, ..m },
        SimulationCommand::Resume => if m.state == SimulationState::Paused {
            SimulationModel { state: SimulationState::Running, ..m }
        } else {
            m
        },
        SimulationCommand::Step => after_tick(m, next_cells),
        SimulationCommand::SetSpeed(tps) => SimulationModel { tps: clamp_tps(tps as nat), ..m },
        SimulationCommand::Shutdown => m,
    }
}

/// The time that one tick may take at `tps` ticks per second, in nanoseconds: a
/// whole number of milliseconds.
pub open spec fn tick_budget_nanos(tps: nat) -> nat {
    ((1000nat / tps) * 1_000_000) as nat
}

/// `Resume` changes nothing but the run state of a paused simulation, which runs
/// again.
pub proof fn lemma_resume_only_from_paused(m: SimulationModel, next_cells: Set<Point>)
    ensures
        m.state != SimulationState::Paused ==> after_command(
            m,
            SimulationCommand::Resume,
            next_cells,
        ) == m,
        m.state == SimulationState::Paused ==> after_command(
            m,
            SimulationCommand::Resume,
            next_cells,
        ) == (SimulationModel { state: SimulationState::Running, ..m }),
{
}

/// `Stop` leaves a stopped simulation of an empty world with no tick counted,
/// whatever its state was, and keeps the speed.
pub proof fn lemma_stop_resets(m: SimulationModel, next_cells: Set<Point>)
    ensures
        after_command(m, SimulationCommand::Stop, next_cells).state == SimulationState::Stopped,
        after_command(m, SimulationCommand::Stop, next_cells).tick_count == 0,
        after_command(m, SimulationCommand::Stop, next_cells).cells == Set::<Point>::empty(),
        after_command(m, SimulationCommand::Stop, next_cells).tps == m.tps,
{
}

/// `SetSpeed` stores a speed between the least and the greatest and changes nothing
/// else: a speed in that range as it is, a lesser one as the least, a greater one as
/// the greatest.
pub proof fn lemma_set_speed_clamps(m: SimulationModel, tps: u32, next_cells: Set<Point>)
    ensures
        MIN_TPS <= after_command(m, SimulationCommand::SetSpeed(tps), next_cells).tps <= MAX_TPS,
        MIN_TPS <= tps <= MAX_TPS ==> after_command(
            m,
            SimulationCommand::SetSpeed(tps),
            next_cells,
        ).tps == tps,
        tps < MIN_TPS ==> after_command(m, SimulationCommand::SetSpeed(tps), next_cells).tps
            == MIN_TPS,
        tps > MAX_TPS ==> after_command(m, SimulationCommand::SetSpeed(tps), next_cells).tps
            == MAX_TPS,
        after_command(m, SimulationCommand::SetSpeed(tps), next_cells) == (SimulationModel {
            tps: after_command(m, SimulationCommand::SetSpeed(tps), next_cells).tps,
            ..m
        }),
{
}

/// `Step` counts one tick and puts the next generation in place, in every run state,
/// and changes neither the run state nor the speed.
pub proof fn lemma_step_advances(m: SimulationModel, next_cells: Set<Point>)
    ensures
        after_command(m, SimulationCommand::Step, next_cells).tick_count == m.tick_count + 1,
        after_command(m, SimulationCommand::Step, next_cells).state == m.state,
        after_command(m, SimulationCommand::Step, next_cells).tps == m.tps,
        after_command(m, SimulationCommand::Step, next_cells).cells == next_cells,
{
}

/// No command but `Stop` lowers the tick count, and only `Step` raises it.
pub proof fn lemma_tick_count_monotonic(
    m: SimulationModel,
    command: SimulationCommand,
    next_cells: Set<Point>,
)
    ensures
        command != SimulationCommand::Stop ==> after_command(m, command, next_cells).tick_count
            >= m.tick_count,
        command != SimulationCommand::Step && command != SimulationCommand::Stop ==> after_command(
            m,
            command,
            next_cells,
        ).tick_count == m.tick_count,
{
}

/// One world with its run state, its tick count and its speed.
#[derive(Debug)]
pub struct Simulation {
    world: World,
    state: SimulationState,
    tick_count: u64,
    tps: u32,
}

impl View for Simulation {
    type V = SimulationModel;

    closed spec fn view(&self) -> SimulationModel {
        SimulationModel {
            cells: self.world@,
            state: self.state,
            tick_count: self.tick_count as nat,
            tps: self.tps as nat,
        }
    }
}

impl Simulation {
    /// The speed stays between the least and the greatest.
    #[verifier::type_invariant]
    closed spec fn speed_in_range(&self) -> bool {
        MIN_TPS <= self.tps <= MAX_TPS
    }

    /// A stopped simulation of an empty world, with no tick counted, at the default
    /// speed.
    pub fn new() -> (sim: Self)
        ensures
            sim@ == (SimulationModel {
                cells: Set::<Point>::empty(),
                state: SimulationState::Stopped,
                tick_count: 0,
                tps: DEFAULT_TPS as nat,
            }),
    {
        Self {
            world: World::new(),
            state: SimulationState::Stopped,
            tick_count: 0,
            tps: DEFAULT_TPS,
        }
    }

    /// An independent copy of the world.
    pub fn get_world(&self) -> (world: World)
        ensures
            world@ == self@.cells,
    {
        self.world.clone()
    }

    pub fn set_world(&mut self, world: World)
        ensures
            final(self)@ == (SimulationModel { cells: world@, ..old(self)@ }),
    {
        proof {
            use_type_invariant(&*self);
        }
        self.world = world;
    }

    pub fn get_state(&self) -> (state: SimulationState)
        ensures
            state == self@.state,
    {
        self.state
    }

    pub fn get_tick_count(&self) -> (tick_count: u64)
        ensures
            tick_count == self@.tick_count,
    {
        self.tick_count
    }

    pub fn get_tps(&self) -> (tps: u32)
        ensures
            tps == self@.tps,
            MIN_TPS <= tps <= MAX_TPS,
    {
        proof {
            use_type_invariant(self);
        }
        self.tps
    }

    /// Stores the speed nearest to `new_tps` that a simulation accepts.
    pub fn set_tps(&mut self, new_tps: u32)
        ensures
            final(self)@ == (SimulationModel { tps: clamp_tps(new_tps as nat), ..old(self)@ }),
    {
        let tps = if new_tps < MIN_TPS {
            MIN_TPS
        } else if new_tps > MAX_TPS {
            MAX_TPS
        } else {
            new_tps
        };
        self.tps = tps;
    }

    /// One tick: the generation that `rule` gives takes the place of the world, and the
    /// tick is counted.
    pub fn step<R: Rule>(&mut self, rule: &R)
        requires
            old(self)@.tick_count < u64::MAX,
        ensures
            final(self)@ == after_tick(old(self)@, rule.next_generation(old(self)@.cells)),
    {
        proof {
            use_type_invariant(&*self);
        }
        let next_world = rule.apply(&self.world);
        self.world = next_world;
        self.tick_count = self.tick_count + 1;
    }

    /// Applies one command of the queue. The result says whether the control loop goes
    /// on: it ends with `Shutdown` and with no other command.
    pub fn handle_command<R: Rule>(&mut self, command: SimulationCommand, rule: &R) -> (goes_on:
        bool)
        requires
            command == SimulationCommand::Step ==> old(self)@.tick_count < u64::MAX,
        ensures
            final(self)@ == after_command(
                old(self)@,
                command,
                rule.next_generation(old(self)@.cells),
            ),
            goes_on == (command != SimulationCommand::Shutdown),
    {
        proof {
            use_type_invariant(&*self);
        }
        match command {
            SimulationCommand::Start => {
                self.state = SimulationState::Running;
                true
            },
            SimulationCommand::Stop => {
                self.state = SimulationState::Stopped;
                self.world = World::new();
                self.reset_tick_count();
                true
            },
            SimulationCommand::Pause => {
                self.state = SimulationState::Paused;
                true
            },
            SimulationCommand::Resume => {
                if self.state == SimulationState::Paused {
                    self.state = SimulationState::Running;
                }
                true
            },
            SimulationCommand::Step => {
                self.step(rule);
                true
            },
            SimulationCommand::SetSpeed(tps) => {
                self.set_tps(tps);
                true
            },
            SimulationCommand::Shutdown => false,
        }
    }

    /// The part of one pass of the control loop that follows the look at the queue: a
    /// running simulation makes one tick, any other rests. The result says whether a
    /// tick was made.
    pub fn tick_if_running<R: Rule>(&mut self, rule: &R) -> (ticked: bool)
        requires
            old(self)@.state == SimulationState::Running ==> old(self)@.tick_count < u64::MAX,
        ensures
            ticked == (old(self)@.state == SimulationState::Running),
            ticked ==> final(self)@ == after_tick(
                old(self)@,
                rule.next_generation(old(self)@.cells),
            ),
            !ticked ==> final(self)@ == old(self)@,
    {
        if self.state == SimulationState::Running {
            self.step(rule);
            true
        } else {
            false
        }
    }

    /// How long the control loop sleeps after a tick that took `elapsed_nanos`, in
    /// nanoseconds: what is left of the time that one tick may take at the present
    /// speed, and nothing where the tick took that long or longer.
    pub fn sleep_after_tick_nanos(&self, elapsed_nanos: u128) -> (rest: u64)
        ensures
            elapsed_nanos < tick_budget_nanos(self@.tps) ==> rest == tick_budget_nanos(self@.tps)
                - elapsed_nanos,
            elapsed_nanos >= tick_budget_nanos(self@.tps) ==> rest == 0,
    {
        proof {
            use_type_invariant(self);
        }
        let millis: u64 = 1000 / (self.tps as u64);
        let budget: u64 = millis * 1_000_000;
        if elapsed_nanos < budget as u128 {
            budget - (elapsed_nanos as u64)
        } else {
            0
        }
    }

    pub fn reset_tick_count(&mut self)
        ensures
            final(self)@ == (SimulationModel { tick_count: 0, ..old(self)@ }),
    {
        proof {
            use_type_invariant(&*self);
        }
        self.tick_count = 0;
    }
}

impl Default for Simulation {
    fn default() -> (sim: Self)
        ensures
            sim@ == (SimulationModel {
                cells: Set::<Point>::empty(),
                state: SimulationState::Stopped,
                tick_count: 0,
                tps: DEFAULT_TPS as nat,
            }),
    {
        Self::new()
    }
}

} // verus!
