use cellular_automata_backend::world::{Chunk, CHUNK_SIZE};

#[test]
fn test_chunk_new() {
    let chunk = Chunk::new();
    assert!(chunk.is_empty());
    assert_eq!(chunk.active_count(), 0);
}

#[test]
fn chunk_test_set_get_cell() {
    let mut chunk = Chunk::new();

    chunk.set_cell(5, 10, true);
    assert!(chunk.get_cell(5, 10));
    assert!(!chunk.get_cell(5, 11));
    assert_eq!(chunk.active_count(), 1);

    chunk.set_cell(5, 10, false);
    assert!(!chunk.get_cell(5, 10));
    assert!(chunk.is_empty());
}

#[test]
fn test_iter_active() {
    let mut chunk = Chunk::new();
    chunk.set_cell(1, 1, true);
    chunk.set_cell(2, 2, true);
    chunk.set_cell(3, 3, true);

    let active: Vec<_> = chunk.iter_active();
    assert_eq!(active.len(), 3);
    assert!(active.contains(&(1, 1)));
    assert!(active.contains(&(2, 2)));
    assert!(active.contains(&(3, 3)));
}

#[test]
fn test_clear() {
    let mut chunk = Chunk::new();
    chunk.set_cell(1, 1, true);
    chunk.set_cell(2, 2, true);

    assert!(!chunk.is_empty());
    chunk.clear();
    assert!(chunk.is_empty());
}

#[test]
fn chunk_side_is_sixty_four() {
    assert_eq!(CHUNK_SIZE, 64);
}

#[test]
fn chunk_tells_components_apart() {
    let mut chunk = Chunk::new();
    chunk.set_cell(1, 2, true);
    chunk.set_cell(-1, 0, true);
    chunk.set_cell(i32::MIN, i32::MAX, true);
    chunk.set_cell(1, 2, true);
    assert_eq!(chunk.active_count(), 3);
    assert!(chunk.get_cell(1, 2));
    assert!(!chunk.get_cell(2, 1));
    assert!(chunk.get_cell(-1, 0));
    assert!(!chunk.get_cell(0, -1));
    assert!(chunk.get_cell(i32::MIN, i32::MAX));
    assert!(!chunk.get_cell(i32::MAX, i32::MIN));
    let mut active = chunk.iter_active();
    active.sort();
    assert_eq!(active, vec![(i32::MIN, i32::MAX), (-1, 0), (1, 2)]);
}

#[test]
fn chunk_clone_and_default() {
    let mut chunk = Chunk::default();
    assert!(chunk.is_empty());
    chunk.set_cell(7, 8, true);
    let copy = chunk.clone();
    chunk.set_cell(7, 8, false);
    assert!(copy.get_cell(7, 8));
    assert_eq!(copy.active_count(), 1);
    assert!(chunk.is_empty());
}

#[test]
fn removing_a_dead_cell_changes_nothing() {
    let mut chunk = Chunk::new();
    chunk.set_cell(1, 1, true);
    chunk.set_cell(2, 2, false);
    assert_eq!(chunk.active_count(), 1);
    assert!(chunk.get_cell(1, 1));
}
