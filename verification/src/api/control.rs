use crate::errors::{ApiError, ApiResult};
use crate::simulation::simulation::{
    Simulation, SimulationCommand, SimulationState, MAX_TPS, MIN_TPS,
};
use vstd::prelude::*;

verus! {

/// What a caller is told of a simulation.
#[derive(Debug)]
pub struct StatusResponse {
    pub state: String,
    pub tick_count: u64,
    pub tps: u32,
    pub active_cells: usize,
}

/// A request for another speed.
#[derive(Debug)]
pub struct SetSpeedRequest {
    pub tps: u32,
}

/// The name under which a run state is reported.
pub open spec fn state_label_of(state: SimulationState) -> Seq<char> {
    match state {
        SimulationState::Stopped => "stopped"@,
        SimulationState::Running => "running"@,
        SimulationState::Paused => "paused"@,
    }
}

/// A number of cells as `usize` reports it: itself where it fits, else the greatest
/// value.
pub open spec fn saturated(count: nat) -> usize {
    if count <= usize::MAX {
        count as usize
    } else {
        usize::MAX
    }
}

/// The name under which a run state is reported.
pub fn state_label(state: SimulationState) -> (label: &'static str)
    ensures
        label@ == state_label_of(state),
{
    match state {
        SimulationState::Stopped => "stopped",
        SimulationState::Running => "running",
        SimulationState::Paused => "paused",
    }
}

/// The status of `simulation`: its run state by name, its tick count, its speed and
/// the number of its live cells.
pub fn get_status_response(simulation: &Simulation) -> (status: StatusResponse)
    ensures
        status.state@ == state_label_of(simulation@.state),
        status.tick_count == simulation@.tick_count,
        status.tps == simulation@.tps,
        status.active_cells == saturated(simulation@.cells.len()),
{
    let world = simulation.get_world();
    StatusResponse {
        state: state_label(simulation.get_state()).to_owned(),
        tick_count: simulation.get_tick_count(),
        tps: simulation.get_tps(),
        active_cells: world.active_cell_count(),
    }
}

/// What a request to start puts on the queue: `Start`, unless the simulation runs
/// already.
pub fn start_command(state: SimulationState) -> (command: ApiResult<SimulationCommand>)
    ensures
        state == SimulationState::Running ==> command == Err::<SimulationCommand, ApiError>(
            ApiError::SimulationAlreadyRunning,
        ),
        state != SimulationState::Running ==> command == Ok::<SimulationCommand, ApiError>(
            SimulationCommand::Start,
        ),
{
    if state == SimulationState::Running {
        Err(ApiError::SimulationAlreadyRunning)
    } else {
        Ok(SimulationCommand::Start)
    }
}

/// What a request to pause puts on the queue: `Pause`, if the simulation runs.
pub fn pause_command(state: SimulationState) -> (command: ApiResult<SimulationCommand>)
    ensures
        state != SimulationState::Running ==> command == Err::<SimulationCommand, ApiError>(
            ApiError::SimulationNotRunning,
        ),
        state == SimulationState::Running ==> command == Ok::<SimulationCommand, ApiError>(
            SimulationCommand::Pause,
        ),
{
    if state != SimulationState::Running {
        Err(ApiError::SimulationNotRunning)
    } else {
        Ok(SimulationCommand::Pause)
    }
}

/// What a request to resume puts on the queue: `Resume`, if the simulation is
/// paused.
pub fn resume_command(state: SimulationState) -> (command: ApiResult<SimulationCommand>)
    ensures
        state == SimulationState::Paused ==> command == Ok::<SimulationCommand, ApiError>(
            SimulationCommand::Resume,
        ),
        state != SimulationState::Paused ==> (match command {
            Err(ApiError::InvalidRequest(text)) => text@ == "Simulation is not paused"@,
            _ => false,
        }),
{
    if state != SimulationState::Paused {
        Err(ApiError::InvalidRequest("Simulation is not paused".to_owned()))
    } else {
        Ok(SimulationCommand::Resume)
    }
}

/// What a request for another speed puts on the queue: `SetSpeed` with that speed,
/// if a simulation accepts it as it is.
pub fn speed_command(request: &SetSpeedRequest) -> (command: ApiResult<SimulationCommand>)
    ensures
        MIN_TPS <= request.tps <= MAX_TPS ==> command == Ok::<SimulationCommand, ApiError>(
            SimulationCommand::SetSpeed(request.tps),
        ),
        !(MIN_TPS <= request.tps <= MAX_TPS) ==> command == Err::<SimulationCommand, ApiError>(
            ApiError::InvalidTps(request.tps),
        ),
{
    if request.tps < MIN_TPS || request.tps > MAX_TPS {
        Err(ApiError::InvalidTps(request.tps))
    } else {
        Ok(SimulationCommand::SetSpeed(request.tps))
    }
}

} // verus!
