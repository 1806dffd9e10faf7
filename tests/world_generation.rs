use voxel_arcade::placement::{place_batch, pick_hazards, spawn_balls};
use voxel_arcade::voxel::VoxelField;

fn field_from(width: usize, height: usize, depth: usize, solid: impl Fn(usize, usize, usize) -> bool) -> VoxelField {
    let mut cells = Vec::new();
    for x in 0..width {
        let mut plane = Vec::new();
        for y in 0..height {
            let mut row = Vec::new();
            for z in 0..depth {
                row.push(solid(x, y, z));
            }
            plane.push(row);
        }
        cells.push(plane);
    }
    VoxelField::from_cells(width, height, depth, cells).unwrap()
}

#[test]
fn full_cube_hides_only_its_centre() {
    let f = field_from(3, 3, 3, |_, _, _| true);
    assert!(!f.is_surface(1, 1, 1));
    assert!(f.is_surface(0, 0, 0));
    assert!(f.is_surface(1, 1, 0));
    let cubes = f.spawn_cubes();
    assert_eq!(cubes.len(), 26);
    assert!(!cubes.contains(&(1, 1, 1)));
    assert_eq!(cubes[0], (0, 0, 0));
    assert_eq!(cubes[25], (2, 2, 2));
}

#[test]
fn empty_neighbour_exposes_centre() {
    let f = field_from(3, 3, 3, |x, y, z| !(x == 1 && y == 2 && z == 1));
    assert!(f.is_surface(1, 1, 1));
    assert!(!f.is_surface(1, 2, 1));
    assert_eq!(f.spawn_cubes().len(), 26);
}

#[test]
fn empty_cells_are_never_surface() {
    let f = field_from(3, 3, 3, |x, _, _| x == 0);
    assert!(!f.is_surface(2, 1, 1));
    assert_eq!(f.spawn_cubes().len(), 9);
}

#[test]
fn ragged_cells_are_refused() {
    let cells = vec![vec![vec![true, true], vec![true]]];
    assert!(VoxelField::from_cells(1, 2, 2, cells).is_none());
    let cells = vec![vec![vec![true, true], vec![true, false]]];
    assert!(VoxelField::from_cells(1, 2, 2, cells.clone()).is_some());
    assert!(VoxelField::from_cells(2, 2, 2, cells).is_none());
}

#[test]
fn flat_ground_columns_open_at_layer_two() {
    let f = field_from(4, 4, 4, |_, y, _| y < 2);
    let cols = f.sample_columns();
    assert_eq!(cols.len(), 16);
    let mut i = 0;
    for x in 0..4 {
        for z in 0..4 {
            assert_eq!(cols[i], (x, 2, z));
            i += 1;
        }
    }
    let rolls = vec![199u32; 11];
    let batch = place_batch(&cols, &rolls);
    assert_eq!(batch.blue_balls.len(), 5);
    assert_eq!(batch.hazard_candidates.len(), 11);
    assert!(batch.hazards.is_empty());
}

#[test]
fn column_takes_first_opening_only() {
    // column (0, 0): solid, empty, solid, empty
    let f = field_from(1, 4, 2, |_, y, z| z == 0 && (y == 0 || y == 2));
    assert_eq!(f.sample_columns(), vec![(0, 1, 0)]);
}

#[test]
fn column_solid_to_the_top_gives_nothing() {
    let f = field_from(2, 3, 1, |x, y, _| x == 0 || y == 0);
    assert_eq!(f.sample_columns(), vec![(1, 1, 0)]);
    let empty = field_from(2, 3, 2, |_, _, _| false);
    assert!(empty.sample_columns().is_empty());
}

#[test]
fn short_list_gets_all_pickups() {
    let cols = vec![(0, 1, 0), (1, 1, 0), (2, 1, 0)];
    let batch = place_batch(&cols, &Vec::new());
    assert_eq!(batch.blue_balls, cols);
    assert!(batch.hazard_candidates.is_empty());
    assert!(batch.hazards.is_empty());
    let none = place_batch(&Vec::new(), &Vec::new());
    assert!(none.blue_balls.is_empty());
}

#[test]
fn batch_partitions_the_input() {
    let cols: Vec<(usize, usize, usize)> = (0..8).map(|i| (i, 3, 7 - i)).collect();
    let rolls = vec![1u32, 2, 0];
    let batch = place_batch(&cols, &rolls);
    assert_eq!(batch.blue_balls, cols[..5].to_vec());
    assert_eq!(batch.hazard_candidates, cols[5..].to_vec());
    assert_eq!(batch.hazards, vec![(5, 3, 2), (7, 3, 0)]);
    for p in &batch.blue_balls {
        assert!(!batch.hazard_candidates.contains(p));
    }
}

#[test]
fn hazard_rolls_below_two_place() {
    let c = vec![(0, 0, 0), (1, 0, 0), (2, 0, 0), (3, 0, 0)];
    assert_eq!(pick_hazards(&c, &vec![2, 1, 199, 0]), vec![(1, 0, 0), (3, 0, 0)]);
}

#[test]
fn spawn_balls_uses_every_column_once() {
    let f = field_from(4, 4, 4, |_, y, _| y < 2);
    let batch = spawn_balls(&f);
    assert_eq!(batch.blue_balls.len(), 5);
    assert_eq!(batch.hazard_candidates.len(), 11);
    let mut all: Vec<_> = batch.blue_balls.iter().chain(batch.hazard_candidates.iter()).cloned().collect();
    all.sort();
    assert_eq!(all, f.sample_columns());
    assert!(batch.hazards.len() <= 11);
    for (i, h) in batch.hazards.iter().enumerate() {
        assert!(batch.hazard_candidates.contains(h));
        assert!(!batch.blue_balls.contains(h));
        assert!(!batch.hazards[i + 1..].contains(h));
    }
}
