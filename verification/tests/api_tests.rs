use cellular_automata_backend::api::control::{
    get_status_response, pause_command, resume_command, speed_command, start_command, state_label,
    SetSpeedRequest,
};
use cellular_automata_backend::api::world::{
    clear_world, get_all_cells, get_presets, get_region, load_preset, set_cell, BoundsData,
    CellData, GetRegionQuery, LoadPresetRequest, SetCellRequest, SetCellResponse,
};
use cellular_automata_backend::automaton::GameOfLife;
use cellular_automata_backend::errors::ApiError;
use cellular_automata_backend::presets::Preset;
use cellular_automata_backend::simulation::{Simulation, SimulationCommand, SimulationState};
use cellular_automata_backend::world::{Coord, World};

#[test]
fn states_are_reported_in_lower_case() {
    assert_eq!(state_label(SimulationState::Stopped), "stopped");
    assert_eq!(state_label(SimulationState::Running), "running");
    assert_eq!(state_label(SimulationState::Paused), "paused");
}

#[test]
fn status_tells_state_ticks_speed_and_cells() {
    let rule = GameOfLife::new();
    let mut sim = Simulation::new();
    let status = get_status_response(&sim);
    assert_eq!(status.state, "stopped");
    assert_eq!(status.tick_count, 0);
    assert_eq!(status.tps, 10);
    assert_eq!(status.active_cells, 0);

    sim.set_world(Preset::block().to_world());
    sim.handle_command(SimulationCommand::Start, &rule);
    sim.handle_command(SimulationCommand::SetSpeed(250), &rule);
    sim.tick_if_running(&rule);
    sim.tick_if_running(&rule);
    let status = get_status_response(&sim);
    assert_eq!(status.state, "running");
    assert_eq!(status.tick_count, 2);
    assert_eq!(status.tps, 250);
    assert_eq!(status.active_cells, 4);

    sim.handle_command(SimulationCommand::Pause, &rule);
    assert_eq!(get_status_response(&sim).state, "paused");
}

#[test]
fn start_is_refused_while_running() {
    assert!(matches!(start_command(SimulationState::Stopped), Ok(SimulationCommand::Start)));
    assert!(matches!(start_command(SimulationState::Paused), Ok(SimulationCommand::Start)));
    assert!(matches!(
        start_command(SimulationState::Running),
        Err(ApiError::SimulationAlreadyRunning)
    ));
}

#[test]
fn pause_is_refused_unless_running() {
    assert!(matches!(pause_command(SimulationState::Running), Ok(SimulationCommand::Pause)));
    assert!(matches!(pause_command(SimulationState::Stopped), Err(ApiError::SimulationNotRunning)));
    assert!(matches!(pause_command(SimulationState::Paused), Err(ApiError::SimulationNotRunning)));
}

#[test]
fn resume_is_refused_unless_paused() {
    assert!(matches!(resume_command(SimulationState::Paused), Ok(SimulationCommand::Resume)));
    for state in [SimulationState::Stopped, SimulationState::Running] {
        match resume_command(state) {
            Err(ApiError::InvalidRequest(text)) => assert_eq!(text, "Simulation is not paused"),
            other => panic!("{:?}", other),
        }
    }
}

#[test]
fn speed_is_refused_outside_the_range() {
    for tps in [1u32, 2, 10, 999, 1000] {
        assert!(matches!(
            speed_command(&SetSpeedRequest { tps }),
            Ok(SimulationCommand::SetSpeed(v)) if v == tps
        ));
    }
    for tps in [0u32, 1001, 5000, u32::MAX] {
        assert!(matches!(
            speed_command(&SetSpeedRequest { tps }),
            Err(ApiError::InvalidTps(v)) if v == tps
        ));
    }
}

fn scattered() -> World {
    let mut world = World::new();
    for (x, y) in [(0, 0), (1, 5), (1, -5), (-3, 2), (64, 64), (7, 7), (2, 0)] {
        world.set_cell(Coord::new(x, y), true);
    }
    world
}

#[test]
fn region_lists_its_live_cells_column_by_column() {
    let world = scattered();
    let response = get_region(&world, &GetRegionQuery { x1: -3, y1: -5, x2: 2, y2: 5 });
    assert_eq!(response.bounds, BoundsData { x1: -3, y1: -5, x2: 2, y2: 5 });
    assert_eq!(
        response.cells,
        vec![
            CellData { x: -3, y: 2 },
            CellData { x: 0, y: 0 },
            CellData { x: 1, y: -5 },
            CellData { x: 1, y: 5 },
            CellData { x: 2, y: 0 },
        ]
    );
    let one = get_region(&world, &GetRegionQuery { x1: 64, y1: 64, x2: 64, y2: 64 });
    assert_eq!(one.cells, vec![CellData { x: 64, y: 64 }]);
    let none = get_region(&world, &GetRegionQuery { x1: 5, y1: 5, x2: -5, y2: -5 });
    assert!(none.cells.is_empty());
    assert_eq!(none.bounds, BoundsData { x1: 5, y1: 5, x2: -5, y2: -5 });
}

#[test]
fn region_reaches_the_edge_of_the_lattice() {
    let mut world = World::new();
    world.set_cell(Coord::new(i32::MAX, i32::MAX), true);
    let query = GetRegionQuery { x1: i32::MAX - 2, y1: i32::MAX - 2, x2: i32::MAX, y2: i32::MAX };
    assert_eq!(get_region(&world, &query).cells, vec![CellData { x: i32::MAX, y: i32::MAX }]);
}

#[test]
fn all_cells_are_listed_once() {
    let world = scattered();
    let mut cells: Vec<(i32, i32)> = get_all_cells(&world).iter().map(|c| (c.x, c.y)).collect();
    cells.sort();
    assert_eq!(cells, vec![(-3, 2), (0, 0), (1, -5), (1, 5), (2, 0), (7, 7), (64, 64)]);
    assert!(get_all_cells(&World::new()).is_empty());
}

#[test]
fn set_cell_changes_one_cell_of_the_simulation() {
    let mut sim = Simulation::new();
    let response = set_cell(&mut sim, &SetCellRequest { x: 3, y: -4, alive: true });
    assert_eq!(response, SetCellResponse { x: 3, y: -4, alive: true, active_cells: 1 });
    let response = set_cell(&mut sim, &SetCellRequest { x: 5, y: 5, alive: true });
    assert_eq!(response.active_cells, 2);
    assert!(sim.get_world().get_cell(Coord::new(3, -4)));
    let response = set_cell(&mut sim, &SetCellRequest { x: 3, y: -4, alive: false });
    assert_eq!(response, SetCellResponse { x: 3, y: -4, alive: false, active_cells: 1 });
    assert!(!sim.get_world().get_cell(Coord::new(3, -4)));
    assert!(sim.get_world().get_cell(Coord::new(5, 5)));
    assert_eq!(sim.get_state(), SimulationState::Stopped);
    assert_eq!(sim.get_tick_count(), 0);
}

#[test]
fn presets_are_listed_with_their_sizes() {
    let response = get_presets();
    let all = Preset::all();
    assert_eq!(response.presets.len(), 19);
    for (info, preset) in response.presets.iter().zip(all.iter()) {
        assert_eq!(info.name, preset.name);
        assert_eq!(info.description, preset.description);
        assert_eq!(info.cell_count, preset.cells.len());
    }
    assert_eq!(response.presets[8].name, "Glider");
    assert_eq!(response.presets[8].cell_count, 5);
}

#[test]
fn load_preset_replaces_the_world() {
    let mut sim = Simulation::new();
    set_cell(&mut sim, &SetCellRequest { x: 100, y: 100, alive: true });
    let request = LoadPresetRequest { name: "BLOCK".to_string(), offset_x: 10, offset_y: -10 };
    let loaded = load_preset(&mut sim, &request).unwrap();
    assert_eq!(loaded.preset_name, "Block");
    assert_eq!(loaded.active_cells, 4);
    let world = sim.get_world();
    assert_eq!(world.active_cell_count(), 4);
    assert!(world.get_cell(Coord::new(10, -10)));
    assert!(world.get_cell(Coord::new(11, -10)));
    assert!(world.get_cell(Coord::new(10, -9)));
    assert!(world.get_cell(Coord::new(11, -9)));
    assert!(!world.get_cell(Coord::new(100, 100)));
}

#[test]
fn load_preset_of_an_unknown_name_changes_nothing() {
    let mut sim = Simulation::new();
    set_cell(&mut sim, &SetCellRequest { x: 100, y: 100, alive: true });
    let request = LoadPresetRequest { name: "Nothing".to_string(), offset_x: 0, offset_y: 0 };
    match load_preset(&mut sim, &request) {
        Err(ApiError::PresetNotFound(name)) => assert_eq!(name, "Nothing"),
        other => panic!("{:?}", other),
    }
    assert_eq!(sim.get_world().active_cell_count(), 1);
    assert!(sim.get_world().get_cell(Coord::new(100, 100)));
}

#[test]
fn clear_world_removes_every_cell() {
    let mut sim = Simulation::new();
    sim.set_world(scattered());
    sim.set_tps(77);
    let response = clear_world(&mut sim);
    assert_eq!(response, SetCellResponse { x: 0, y: 0, alive: false, active_cells: 0 });
    assert_eq!(sim.get_world().active_cell_count(), 0);
    assert_eq!(sim.get_tps(), 77);
}
