use block_mesh::{UnorientedQuad, RIGHT_HANDED_Y_UP_CONFIG};
use std::collections::HashMap;
use vox_scene::face::{right_handed_y_up_faces, Quad};
use vox_scene::greedy::greedy_quads;
use vox_scene::mesh::{mesh_from_quads, mesh_model, AtlasUv, Coloring, MeshBuffers, Rgba};
use vox_scene::shape::{Coord, Point3};
use vox_scene::voxel::{load_from_model, Model, ModelSize, ModelVoxel, VoxelGrid};

fn grid_of(size: (u32, u32, u32), voxels: &[(u8, u8, u8, u8)]) -> VoxelGrid {
    let model = Model {
        size: ModelSize { x: size.0, y: size.1, z: size.2 },
        voxels: voxels.iter().map(|&(x, y, z, i)| ModelVoxel { x, y, z, i }).collect(),
    };
    let (grid, _) = load_from_model(&model, &HashMap::new()).expect("voxels inside the size");
    assert!(grid.is_meshable());
    grid
}

fn palette() -> Vec<Rgba> {
    (0..256u32).map(|i| Rgba { r: i as u8, g: (255 - i) as u8, b: 7, a: 255 }).collect()
}

fn atlas(grid: &VoxelGrid) -> MeshBuffers {
    mesh_model(grid, &right_handed_y_up_faces(), &Coloring::Atlas)
}

fn p(x: i32, y: i32, z: i32) -> Point3 {
    Point3 { x, y, z }
}

#[test]
fn empty_grid_gives_empty_buffers() {
    let mesh = atlas(&grid_of((3, 3, 3), &[]));
    assert!(mesh.positions.is_empty());
    assert!(mesh.normals.is_empty());
    assert!(mesh.uvs.is_empty());
    assert!(mesh.colors.is_empty());
    assert!(mesh.indices.is_empty());
}

#[test]
fn single_voxel_gives_a_cube() {
    let mesh = atlas(&grid_of((2, 1, 1), &[(0, 0, 0, 5)]));
    assert_eq!(mesh.positions.len(), 24);
    assert_eq!(mesh.normals.len(), 24);
    assert_eq!(mesh.uvs.len(), 24);
    assert_eq!(mesh.colors.len(), 0);
    assert_eq!(mesh.indices.len(), 36);
}

#[test]
fn first_quad_of_a_single_voxel_has_these_vertices() {
    // The cell is at (2, 1, 1) in a grid of 4 by 3 by 3; positions are in
    // half cells from the center.
    let mesh = atlas(&grid_of((2, 1, 1), &[(0, 0, 0, 5)]));
    assert_eq!(&mesh.positions[0..4], &[p(0, -1, -1), p(0, -1, 1), p(0, 1, -1), p(0, 1, 1)]);
    assert_eq!(&mesh.normals[0..4], &[p(-1, 0, 0); 4]);
    assert_eq!(&mesh.uvs[0..4], &[AtlasUv { u: 11, v: 1 }; 4]);
    assert_eq!(&mesh.indices[0..6], &[0, 1, 2, 1, 3, 2]);
    // The face towards +x lies one cell further along x.
    assert_eq!(&mesh.positions[12..16], &[p(2, -1, -1), p(2, -1, 1), p(2, 1, -1), p(2, 1, 1)]);
    assert_eq!(&mesh.normals[12..16], &[p(1, 0, 0); 4]);
    assert_eq!(&mesh.indices[18..24], &[12, 14, 13, 13, 14, 15]);
}

#[test]
fn winding_follows_the_face() {
    let mesh = atlas(&grid_of((1, 1, 1), &[(0, 0, 0, 0)]));
    let clockwise = [0u32, 2, 1, 1, 2, 3];
    let counter = [0u32, 1, 2, 1, 3, 2];
    let expected = [counter, clockwise, clockwise, clockwise, counter, counter];
    for (k, pattern) in expected.iter().enumerate() {
        let start = 4 * k as u32;
        let want: Vec<u32> = pattern.iter().map(|i| i + start).collect();
        assert_eq!(&mesh.indices[6 * k..6 * k + 6], &want[..]);
    }
}

#[test]
fn atlas_place_is_the_center_of_the_swatch() {
    for (index, u, v) in [(0u8, 1u8, 1u8), (15, 31, 1), (16, 1, 3), (254, 29, 31), (37, 11, 5)] {
        let mesh = atlas(&grid_of((1, 1, 1), &[(0, 0, 0, index)]));
        assert!(mesh.uvs.iter().all(|uv| *uv == AtlasUv { u, v }));
        let as_float = (mesh.uvs[0].u as f32 / 32.0, mesh.uvs[0].v as f32 / 32.0);
        let centered = (((index % 16) as f32 + 0.5) / 16.0, ((index / 16) as f32 + 0.5) / 16.0);
        assert_eq!(as_float, centered);
    }
}

#[test]
fn palette_coloring_gives_each_vertex_the_color_of_its_index() {
    let grid = grid_of((2, 1, 1), &[(0, 0, 0, 5), (1, 0, 0, 9)]);
    let colors = palette();
    let mesh = mesh_model(&grid, &right_handed_y_up_faces(), &Coloring::Palette(colors.clone()));
    assert_eq!(mesh.uvs.len(), 0);
    assert_eq!(mesh.colors.len(), mesh.positions.len());
    // Towards -x only the cell at grid x = 1 shows a face: the model's
    // voxel at x = 1, of index 9. Towards -y both cells do, in that order.
    assert_eq!(&mesh.colors[0..4], &[colors[9]; 4]);
    assert_eq!(&mesh.colors[4..8], &[colors[9]; 4]);
    assert_eq!(&mesh.colors[8..12], &[colors[5]; 4]);
}

#[test]
fn buffers_hold_four_vertices_and_six_indices_for_each_quad() {
    let mut voxels = Vec::new();
    for k in 0..5u8 {
        voxels.push((k, (k * 2) % 3, k % 2, k % 3));
        voxels.push((k, 0, 0, 1));
    }
    let grid = grid_of((5, 3, 2), &voxels);
    let faces = right_handed_y_up_faces();
    let quads: usize = greedy_quads(&grid, &faces).iter().map(|g| g.len()).sum();
    let mesh = atlas(&grid);
    assert!(quads > 0);
    assert_eq!(mesh.indices.len(), 6 * quads);
    assert_eq!(mesh.positions.len(), 4 * quads);
    assert_eq!(mesh.normals.len(), 4 * quads);
    assert_eq!(mesh.uvs.len(), 4 * quads);
    assert!(mesh.indices.iter().all(|&i| (i as usize) < mesh.positions.len()));
}

#[test]
fn vertices_are_those_of_block_mesh_moved_to_the_center() {
    let mut voxels = Vec::new();
    for k in 0..4u8 {
        voxels.push((k, k % 2, (k + 1) % 3, 2));
        voxels.push((k, 1, 1, 2));
    }
    let grid = grid_of((4, 2, 3), &voxels);
    let faces = right_handed_y_up_faces();
    let groups = greedy_quads(&grid, &faces);
    let mesh = atlas(&grid);
    let size = [
        (grid.shape.x - 2) as f32,
        (grid.shape.y - 2) as f32,
        (grid.shape.z - 2) as f32,
    ];
    let mut at = 0usize;
    for (group, face) in groups.iter().zip(RIGHT_HANDED_Y_UP_CONFIG.faces.iter()) {
        for quad in group {
            let theirs = UnorientedQuad {
                minimum: [quad.minimum.x, quad.minimum.y, quad.minimum.z],
                width: quad.width,
                height: quad.height,
            };
            let indices = face.quad_mesh_indices(4 * at as u32);
            assert_eq!(&mesh.indices[6 * at..6 * at + 6], &indices[..]);
            let positions = face.quad_mesh_positions(&theirs, 1.0);
            let normals = face.quad_mesh_normals();
            for c in 0..4 {
                let mine = mesh.positions[4 * at + c];
                let mine = [mine.x as f32 / 2.0, mine.y as f32 / 2.0, mine.z as f32 / 2.0];
                let want = [
                    positions[c][0] - 1.0 - size[0] / 2.0,
                    positions[c][1] - 1.0 - size[1] / 2.0,
                    positions[c][2] - 1.0 - size[2] / 2.0,
                ];
                assert_eq!(mine, want);
                let normal = mesh.normals[4 * at + c];
                assert_eq!([normal.x as f32, normal.y as f32, normal.z as f32], normals[c]);
            }
            at += 1;
        }
    }
    assert_eq!(4 * at, mesh.positions.len());
}

#[test]
fn quads_given_by_hand_are_meshed_in_order() {
    let grid = grid_of((2, 2, 2), &[(0, 0, 0, 3)]);
    let faces = right_handed_y_up_faces();
    let quad = Quad { minimum: Coord { x: 1, y: 1, z: 1 }, width: 2, height: 1 };
    let groups = vec![vec![], vec![], vec![quad], vec![], vec![], vec![quad]];
    let mesh = mesh_from_quads(&grid, &faces, &groups, &Coloring::Atlas);
    assert_eq!(mesh.positions.len(), 8);
    // Face 2 looks towards -z with `u` along x and `v` along y.
    assert_eq!(&mesh.positions[0..4], &[p(-2, -2, -2), p(2, -2, -2), p(-2, 0, -2), p(2, 0, -2)]);
    // Face 5 looks towards +z and lies one cell further along z.
    assert_eq!(&mesh.positions[4..8], &[p(-2, -2, 0), p(2, -2, 0), p(-2, 0, 0), p(2, 0, 0)]);
    assert_eq!(mesh.indices, vec![0, 2, 1, 1, 2, 3, 4, 5, 6, 5, 7, 6]);
    // The cell at the quads' minimum is empty: index 255.
    assert!(mesh.uvs.iter().all(|uv| *uv == AtlasUv { u: 31, v: 31 }));
}

#[test]
fn flipping_turns_the_atlas_upside_down() {
    let grid = grid_of((1, 1, 1), &[(0, 0, 0, 37)]);
    let mut mesh = atlas(&grid);
    let before = mesh.clone();
    vox_scene::mesh::flip_uvs_vertically(&mut mesh);
    assert!(mesh.uvs.iter().all(|uv| *uv == AtlasUv { u: 11, v: 27 }));
    assert_eq!(mesh.positions, before.positions);
    assert_eq!(mesh.normals, before.normals);
    assert_eq!(mesh.indices, before.indices);
    vox_scene::mesh::flip_uvs_vertically(&mut mesh);
    assert_eq!(mesh, before);
    let mut odd = before.clone();
    odd.uvs[0] = AtlasUv { u: 200, v: 33 };
    odd.uvs[1] = AtlasUv { u: 3, v: 32 };
    vox_scene::mesh::flip_uvs_vertically(&mut odd);
    assert_eq!(odd.uvs[0], AtlasUv { u: 200, v: 0 });
    assert_eq!(odd.uvs[1], AtlasUv { u: 3, v: 0 });
}
