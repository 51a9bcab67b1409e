use cellular_automata_backend::presets::presets::first_match;
use cellular_automata_backend::presets::Preset;
use cellular_automata_backend::world::{Coord, World};

#[test]
fn test_preset_new() {
    let preset = Preset::new("Test", "Test preset", vec![(0, 0), (1, 1)]);
    assert_eq!(preset.name, "Test");
    assert_eq!(preset.description, "Test preset");
    assert_eq!(preset.cells.len(), 2);
}

#[test]
fn test_preset_to_world() {
    let preset = Preset::blinker();
    let world = preset.to_world();
    assert_eq!(world.active_cell_count(), 3);
}

#[test]
fn test_preset_load_into() {
    let preset = Preset::block();
    let mut world = World::new();
    preset.load_into(&mut world, Coord::new(10, 10));

    assert_eq!(world.active_cell_count(), 4);
    assert!(world.get_cell(Coord::new(10, 10)));
    assert!(world.get_cell(Coord::new(11, 10)));
    assert!(world.get_cell(Coord::new(10, 11)));
    assert!(world.get_cell(Coord::new(11, 11)));
}

#[test]
fn test_preset_load_into_clears_world() {
    let preset = Preset::blinker();
    let mut world = World::new();

    world.set_cell(Coord::new(100, 100), true);
    world.set_cell(Coord::new(200, 200), true);
    assert_eq!(world.active_cell_count(), 2);

    preset.load_into(&mut world, Coord::new(0, 0));
    assert_eq!(world.active_cell_count(), 3);
}

#[test]
fn test_empty_preset() {
    let preset = Preset::empty();
    let world = preset.to_world();
    assert_eq!(world.active_cell_count(), 0);
}

#[test]
fn test_blinker_preset() {
    let preset = Preset::blinker();
    assert_eq!(preset.cells.len(), 3);
    assert_eq!(preset.name, "Blinker");
}

#[test]
fn test_glider_preset() {
    let preset = Preset::glider();
    assert_eq!(preset.cells.len(), 5);
    let world = preset.to_world();
    assert_eq!(world.active_cell_count(), 5);
}

#[test]
fn test_gosper_glider_gun_preset() {
    let preset = Preset::gosper_glider_gun();
    assert_eq!(preset.cells.len(), 36);
    let world = preset.to_world();
    assert_eq!(world.active_cell_count(), 36);
}

#[test]
fn test_pulsar_preset() {
    let preset = Preset::pulsar();
    assert_eq!(preset.cells.len(), 48);
}

#[test]
fn test_all_presets() {
    let presets = Preset::all();
    assert!(presets.len() >= 19);

    for preset in &presets {
        assert!(!preset.name.is_empty());
        assert!(!preset.description.is_empty());
    }
}

#[test]
fn test_find_preset() {
    assert!(Preset::find("blinker").is_some());
    assert!(Preset::find("BLINKER").is_some());
    assert!(Preset::find("Blinker").is_some());

    assert!(Preset::find("Glider").is_some());
    assert!(Preset::find("Empty").is_some());
    assert!(Preset::find("Gosper Glider Gun").is_some());

    assert!(Preset::find("NonExistent").is_none());
}

#[test]
fn test_preset_offset() {
    let preset = Preset::block();
    let mut world = World::new();

    preset.load_into(&mut world, Coord::new(-10, -10));

    assert!(world.get_cell(Coord::new(-10, -10)));
    assert!(world.get_cell(Coord::new(-9, -10)));
    assert!(world.get_cell(Coord::new(-10, -9)));
    assert!(world.get_cell(Coord::new(-9, -9)));
    assert!(!world.get_cell(Coord::new(0, 0)));
}

#[test]
fn test_random_presets_are_different() {
    let small = Preset::random_small();
    let medium = Preset::random_medium();

    assert_ne!(small.cells.len(), medium.cells.len());
    assert!(medium.cells.len() > small.cells.len());
}

#[test]
fn test_stable_structures() {
    let preset = Preset::block();
    assert_eq!(preset.cells.len(), 4);

    let preset = Preset::beehive();
    assert_eq!(preset.cells.len(), 6);

    let preset = Preset::loaf();
    assert_eq!(preset.cells.len(), 7);
}

#[test]
fn test_oscillators() {
    let preset = Preset::toad();
    assert_eq!(preset.cells.len(), 6);

    let preset = Preset::beacon();
    assert_eq!(preset.cells.len(), 8);

    let preset = Preset::pentadecathlon();
    assert_eq!(preset.cells.len(), 10);
}

#[test]
fn test_spaceships() {
    let preset = Preset::lightweight_spaceship();
    assert_eq!(preset.cells.len(), 9);

    let preset = Preset::mwss();
    assert_eq!(preset.cells.len(), 11);

    let preset = Preset::hwss();
    assert_eq!(preset.cells.len(), 13);
}

#[test]
fn test_methuselahs() {
    let preset = Preset::r_pentomino();
    assert_eq!(preset.cells.len(), 5);

    let preset = Preset::diehard();
    assert_eq!(preset.cells.len(), 7);

    let preset = Preset::acorn();
    assert_eq!(preset.cells.len(), 7);
}

#[test]
fn catalog_lists_the_presets_in_order() {
    let names: Vec<String> = Preset::all().iter().map(|p| p.name.clone()).collect();
    assert_eq!(
        names,
        vec![
            "Empty",
            "Random Small",
            "Random Medium",
            "Blinker",
            "Toad",
            "Beacon",
            "Pentadecathlon",
            "Pulsar",
            "Glider",
            "LWSS",
            "MWSS",
            "HWSS",
            "Gosper Glider Gun",
            "R-pentomino",
            "Diehard",
            "Acorn",
            "Block",
            "Beehive",
            "Loaf",
        ]
    );
}

#[test]
fn find_gives_the_preset_of_that_name() {
    let found = Preset::find("gOsPeR gLiDeR gUn").unwrap();
    assert_eq!(found.name, "Gosper Glider Gun");
    assert_eq!(found.cells, Preset::gosper_glider_gun().cells);
    let found = Preset::find("lwss").unwrap();
    assert_eq!(found.name, "LWSS");
    assert_eq!(found.cells, Preset::lightweight_spaceship().cells);
    assert!(Preset::find("").is_none());
    assert!(Preset::find("Blinker ").is_none());
}

#[test]
fn first_match_gives_the_first_equal_name() {
    let names = vec!["a".to_string(), "b".to_string(), "a".to_string(), "c".to_string()];
    assert_eq!(first_match(&names, &"a".to_string()), Some(0));
    assert_eq!(first_match(&names, &"b".to_string()), Some(1));
    assert_eq!(first_match(&names, &"c".to_string()), Some(3));
    assert_eq!(first_match(&names, &"A".to_string()), None);
    assert_eq!(first_match(&Vec::new(), &"a".to_string()), None);
}

#[test]
fn glider_preset_cells_are_exact() {
    assert_eq!(Preset::glider().cells, vec![(1, 0), (2, 1), (0, 2), (1, 2), (2, 2)]);
    assert_eq!(Preset::blinker().cells, vec![(0, 0), (1, 0), (2, 0)]);
    assert_eq!(Preset::block().cells, vec![(0, 0), (1, 0), (0, 1), (1, 1)]);
    assert_eq!(Preset::empty().cells, Vec::new());
}

#[test]
fn random_presets_follow_their_formula() {
    let mut expected = Vec::new();
    for x in -10..=10 {
        for y in -10..=10 {
            if (x * 7 + y * 13) % 3 == 0 {
                expected.push((x, y));
            }
        }
    }
    assert_eq!(Preset::random_small().cells, expected);
    assert_eq!(expected.len(), 147);
    let mut expected = Vec::new();
    for x in -25..=25 {
        for y in -25..=25 {
            if (x * 11 + y * 17) % 4 == 0 {
                expected.push((x, y));
            }
        }
    }
    assert_eq!(Preset::random_medium().cells, expected);
}

#[test]
fn load_into_leaves_out_cells_beyond_the_lattice() {
    let preset = Preset::block();
    let mut world = World::new();
    preset.load_into(&mut world, Coord::new(i32::MAX, 5));
    assert_eq!(world.active_cell_count(), 2);
    assert!(world.get_cell(Coord::new(i32::MAX, 5)));
    assert!(world.get_cell(Coord::new(i32::MAX, 6)));
}

#[test]
fn preset_clone_keeps_everything() {
    let preset = Preset::toad();
    let copy = preset.clone();
    assert_eq!(copy.name, preset.name);
    assert_eq!(copy.description, preset.description);
    assert_eq!(copy.cells, preset.cells);
}

#[test]
fn duplicate_cells_count_once_in_the_world() {
    let preset = Preset::new("Twice", "One cell, listed twice", vec![(4, 4), (4, 4)]);
    assert_eq!(preset.to_world().active_cell_count(), 1);
}
