use cellular_automata_backend::automaton::GameOfLife;
use cellular_automata_backend::simulation::simulation::IDLE_INTERVAL_MILLIS;
use cellular_automata_backend::simulation::{Simulation, SimulationCommand, SimulationState};
use cellular_automata_backend::world::{Coord, World};

#[test]
fn test_simulation_new() {
    let sim = Simulation::new();
    assert_eq!(sim.get_state(), SimulationState::Stopped);
    assert_eq!(sim.get_tick_count(), 0);
    assert_eq!(sim.get_tps(), 10);
}

#[test]
fn test_set_get_world() {
    let mut sim = Simulation::new();
    let mut world = World::new();
    world.set_cell(Coord::new(5, 5), true);

    sim.set_world(world.clone());
    let retrieved = sim.get_world();

    assert_eq!(retrieved.active_cell_count(), 1);
    assert!(retrieved.get_cell(Coord::new(5, 5)));
}

#[test]
fn test_set_tps() {
    let mut sim = Simulation::new();

    sim.set_tps(50);
    assert_eq!(sim.get_tps(), 50);

    sim.set_tps(0);
    assert_eq!(sim.get_tps(), 1);

    sim.set_tps(2000);
    assert_eq!(sim.get_tps(), 1000);
}

#[test]
fn test_step() {
    let mut sim = Simulation::new();
    let rule = GameOfLife::new();

    let mut world = World::new();
    world.set_cell(Coord::new(0, -1), true);
    world.set_cell(Coord::new(0, 0), true);
    world.set_cell(Coord::new(0, 1), true);
    sim.set_world(world);

    assert_eq!(sim.get_tick_count(), 0);

    sim.step(&rule);

    assert_eq!(sim.get_tick_count(), 1);
    let world_after = sim.get_world();
    assert_eq!(world_after.active_cell_count(), 3);
}

#[test]
fn test_reset_tick_count() {
    let mut sim = Simulation::new();
    let rule = GameOfLife::new();

    let mut world = World::new();
    world.set_cell(Coord::new(0, 0), true);
    sim.set_world(world);

    sim.step(&rule);
    sim.step(&rule);
    assert_eq!(sim.get_tick_count(), 2);

    sim.reset_tick_count();
    assert_eq!(sim.get_tick_count(), 0);
}

fn block_world() -> World {
    let mut world = World::new();
    world.set_cell(Coord::new(0, 0), true);
    world.set_cell(Coord::new(1, 0), true);
    world.set_cell(Coord::new(0, 1), true);
    world.set_cell(Coord::new(1, 1), true);
    world
}

fn in_state(state: SimulationState) -> Simulation {
    let rule = GameOfLife::new();
    let mut sim = Simulation::new();
    sim.set_world(block_world());
    match state {
        SimulationState::Stopped => {}
        SimulationState::Running => {
            sim.handle_command(SimulationCommand::Start, &rule);
        }
        SimulationState::Paused => {
            sim.handle_command(SimulationCommand::Pause, &rule);
        }
    }
    assert_eq!(sim.get_state(), state);
    sim
}

const STATES: [SimulationState; 3] =
    [SimulationState::Stopped, SimulationState::Running, SimulationState::Paused];

#[test]
fn commands_walk_through_the_run_states() {
    let rule = GameOfLife::new();
    let mut sim = Simulation::new();
    sim.set_world(block_world());
    assert_eq!(sim.get_state(), SimulationState::Stopped);

    assert!(sim.handle_command(SimulationCommand::Start, &rule));
    assert_eq!(sim.get_state(), SimulationState::Running);
    assert!(sim.tick_if_running(&rule));
    assert!(sim.tick_if_running(&rule));
    assert!(sim.get_tick_count() > 0);

    assert!(sim.handle_command(SimulationCommand::Pause, &rule));
    assert_eq!(sim.get_state(), SimulationState::Paused);
    let ticks_paused = sim.get_tick_count();
    assert!(!sim.tick_if_running(&rule));
    assert_eq!(sim.get_tick_count(), ticks_paused);

    assert!(sim.handle_command(SimulationCommand::Resume, &rule));
    assert_eq!(sim.get_state(), SimulationState::Running);

    assert_eq!(sim.get_world().active_cell_count(), 4);
    assert!(sim.handle_command(SimulationCommand::Stop, &rule));
    assert_eq!(sim.get_state(), SimulationState::Stopped);
    assert_eq!(sim.get_tick_count(), 0);
    assert_eq!(sim.get_world().active_cell_count(), 0);
    assert!(sim.get_world().get_bounds().is_none());

    assert!(!sim.handle_command(SimulationCommand::Shutdown, &rule));
    assert_eq!(sim.get_state(), SimulationState::Stopped);
}

#[test]
fn step_command_ticks_once_in_every_state() {
    let rule = GameOfLife::new();
    for state in STATES {
        let mut sim = in_state(state);
        let mut world = World::new();
        world.set_cell(Coord::new(0, 0), true);
        sim.set_world(world);
        let before = sim.get_tick_count();
        assert!(sim.handle_command(SimulationCommand::Step, &rule));
        assert_eq!(sim.get_tick_count(), before + 1);
        assert_eq!(sim.get_state(), state);
        assert_eq!(sim.get_tps(), 10);
        assert_eq!(sim.get_world().active_cell_count(), 0);
    }
}

#[test]
fn set_speed_command_clamps() {
    let rule = GameOfLife::new();
    for state in STATES {
        let mut sim = in_state(state);
        assert_eq!(sim.get_tps(), 10);
        sim.handle_command(SimulationCommand::SetSpeed(100), &rule);
        assert_eq!(sim.get_tps(), 100);
        sim.handle_command(SimulationCommand::SetSpeed(0), &rule);
        assert_eq!(sim.get_tps(), 1);
        sim.handle_command(SimulationCommand::SetSpeed(5000), &rule);
        assert_eq!(sim.get_tps(), 1000);
        sim.handle_command(SimulationCommand::SetSpeed(1), &rule);
        assert_eq!(sim.get_tps(), 1);
        sim.handle_command(SimulationCommand::SetSpeed(1000), &rule);
        assert_eq!(sim.get_tps(), 1000);
        sim.handle_command(SimulationCommand::SetSpeed(1001), &rule);
        assert_eq!(sim.get_tps(), 1000);
        assert_eq!(sim.get_state(), state);
        assert_eq!(sim.get_tick_count(), 0);
    }
}

#[test]
fn resume_changes_nothing_unless_paused() {
    let rule = GameOfLife::new();
    for state in STATES {
        let mut sim = in_state(state);
        sim.step(&rule);
        sim.handle_command(SimulationCommand::Resume, &rule);
        let expected =
            if state == SimulationState::Paused { SimulationState::Running } else { state };
        assert_eq!(sim.get_state(), expected);
        assert_eq!(sim.get_tick_count(), 1);
        assert_eq!(sim.get_tps(), 10);
        assert_eq!(sim.get_world().active_cell_count(), 4);
    }
}

#[test]
fn stop_resets_the_tick_count_from_every_state() {
    let rule = GameOfLife::new();
    for state in STATES {
        let mut sim = in_state(state);
        sim.step(&rule);
        sim.step(&rule);
        sim.step(&rule);
        assert_eq!(sim.get_tick_count(), 3);
        sim.handle_command(SimulationCommand::Stop, &rule);
        assert_eq!(sim.get_state(), SimulationState::Stopped);
        assert_eq!(sim.get_tick_count(), 0);
        assert_eq!(sim.get_world().active_cell_count(), 0);
        assert_eq!(sim.get_tps(), 10);
    }
}

#[test]
fn start_and_pause_set_the_state_from_every_state() {
    let rule = GameOfLife::new();
    for state in STATES {
        let mut sim = in_state(state);
        sim.handle_command(SimulationCommand::Start, &rule);
        assert_eq!(sim.get_state(), SimulationState::Running);
        let mut sim = in_state(state);
        sim.handle_command(SimulationCommand::Pause, &rule);
        assert_eq!(sim.get_state(), SimulationState::Paused);
        let mut sim = in_state(state);
        assert!(!sim.handle_command(SimulationCommand::Shutdown, &rule));
        assert_eq!(sim.get_state(), state);
    }
}

#[test]
fn tick_needs_a_running_simulation() {
    let rule = GameOfLife::new();
    for state in STATES {
        let mut sim = in_state(state);
        let ticked = sim.tick_if_running(&rule);
        assert_eq!(ticked, state == SimulationState::Running);
        assert_eq!(sim.get_tick_count(), if ticked { 1 } else { 0 });
        assert_eq!(sim.get_state(), state);
    }
}

#[test]
fn sleep_after_tick_is_what_is_left_of_the_budget() {
    let mut sim = Simulation::new();
    assert_eq!(sim.sleep_after_tick_nanos(0), 100_000_000);
    assert_eq!(sim.sleep_after_tick_nanos(1), 99_999_999);
    assert_eq!(sim.sleep_after_tick_nanos(99_999_999), 1);
    assert_eq!(sim.sleep_after_tick_nanos(100_000_000), 0);
    assert_eq!(sim.sleep_after_tick_nanos(u128::MAX), 0);
    sim.set_tps(3);
    assert_eq!(sim.sleep_after_tick_nanos(0), 333_000_000);
    sim.set_tps(1000);
    assert_eq!(sim.sleep_after_tick_nanos(400_000), 600_000);
    sim.set_tps(600);
    assert_eq!(sim.sleep_after_tick_nanos(0), 1_000_000);
    sim.set_tps(1);
    assert_eq!(sim.sleep_after_tick_nanos(0), 1_000_000_000);
    assert_eq!(IDLE_INTERVAL_MILLIS, 10);
}

#[test]
fn get_world_hands_out_a_copy() {
    let mut sim = Simulation::default();
    sim.set_world(block_world());
    let mut copy = sim.get_world();
    copy.clear();
    assert_eq!(sim.get_world().active_cell_count(), 4);
}
