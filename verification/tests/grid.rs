use std::collections::HashMap;
use vox_scene::shape::Coord;
use vox_scene::voxel::{load_from_model, GridError, Model, ModelSize, ModelVoxel, Voxel, VoxelGrid};

fn model(size: (u32, u32, u32), voxels: &[(u8, u8, u8, u8)]) -> Model {
    Model {
        size: ModelSize { x: size.0, y: size.1, z: size.2 },
        voxels: voxels.iter().map(|&(x, y, z, i)| ModelVoxel { x, y, z, i }).collect(),
    }
}

fn index(shape: Coord, x: u32, y: u32, z: u32) -> usize {
    (x + shape.x * (y + shape.y * z)) as usize
}

fn build(m: &Model, translucent: &HashMap<u8, u32>) -> (VoxelGrid, Vec<u32>) {
    assert!(m.size.x <= 256 && m.size.y <= 256 && m.size.z <= 256);
    load_from_model(m, translucent).expect("all voxels inside the size")
}

#[test]
fn grid_shape_swaps_the_up_axis_and_pads() {
    let (grid, _) = build(&model((2, 3, 4), &[]), &HashMap::new());
    assert_eq!(grid.shape, Coord { x: 4, y: 6, z: 5 });
    assert_eq!(grid.cells.len(), 4 * 6 * 5);
    assert!(grid.cells.iter().all(|c| c.index == 255 && !c.is_translucent));
}

#[test]
fn voxel_lands_at_the_mirrored_and_shifted_position() {
    let (grid, _) = build(&model((2, 3, 4), &[(0, 1, 2, 7)]), &HashMap::new());
    let at = index(grid.shape, 2, 3, 2);
    assert_eq!(at, 2 + 4 * (3 + 6 * 2));
    assert_eq!(grid.cells[at], Voxel { index: 7, is_translucent: false });
    let set = grid.cells.iter().filter(|c| c.index != 255).count();
    assert_eq!(set, 1);
    assert_eq!(grid.get(Coord { x: 2, y: 3, z: 2 }), Voxel { index: 7, is_translucent: false });
}

#[test]
fn last_voxel_along_x_lands_next_to_the_padding() {
    let (grid, _) = build(&model((2, 1, 1), &[(1, 0, 0, 9)]), &HashMap::new());
    assert_eq!(grid.cells[index(grid.shape, 1, 1, 1)].index, 9);
    assert_eq!(grid.cells[index(grid.shape, 2, 1, 1)].index, 255);
}

#[test]
fn a_later_voxel_replaces_an_earlier_one() {
    let (grid, _) = build(&model((1, 1, 1), &[(0, 0, 0, 3), (0, 0, 0, 4)]), &HashMap::new());
    assert_eq!(grid.cells[index(grid.shape, 1, 1, 1)].index, 4);
}

#[test]
fn translucent_indices_mark_cells_and_list_refractions_in_order() {
    let mut translucent = HashMap::new();
    translucent.insert(5u8, 1.3f32.to_bits());
    translucent.insert(6u8, 1.5f32.to_bits());
    let m = model((3, 1, 1), &[(0, 0, 0, 6), (1, 0, 0, 2), (2, 0, 0, 5)]);
    let (grid, refractions) = build(&m, &translucent);
    assert_eq!(refractions, vec![1.5f32.to_bits(), 1.3f32.to_bits()]);
    assert!(grid.cells[index(grid.shape, 3, 1, 1)].is_translucent);
    assert!(!grid.cells[index(grid.shape, 2, 1, 1)].is_translucent);
    assert!(grid.cells[index(grid.shape, 1, 1, 1)].is_translucent);
}

#[test]
fn voxel_outside_the_size_is_reported() {
    let m = model((2, 2, 2), &[(0, 0, 0, 1), (1, 2, 0, 1), (5, 5, 5, 1)]);
    let r = load_from_model(&m, &HashMap::new());
    assert_eq!(r.err(), Some(GridError::VoxelOutOfBounds { voxel: 1 }));
}

#[test]
fn voxel_on_the_edge_of_the_size_is_outside() {
    let m = model((2, 2, 2), &[(2, 0, 0, 1)]);
    assert_eq!(
        load_from_model(&m, &HashMap::new()).err(),
        Some(GridError::VoxelOutOfBounds { voxel: 0 })
    );
}

#[test]
fn empty_size_gives_a_grid_of_padding() {
    let (grid, refractions) = build(&model((0, 1, 1), &[]), &HashMap::new());
    assert_eq!(grid.shape, Coord { x: 2, y: 3, z: 3 });
    assert_eq!(grid.cells.len(), 18);
    assert!(refractions.is_empty());
    assert!(!grid.is_meshable());
}

#[test]
fn empty_voxel_is_the_sentinel() {
    assert_eq!(Voxel::empty(), Voxel { index: 255, is_translucent: false });
}
