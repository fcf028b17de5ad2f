use building_blocks::mesh::{UnorientedQuad, RIGHT_HANDED_Y_UP_CONFIG};
use building_blocks::prelude::PointN;
use voxel_world::chunk::Chunk;
use voxel_world::coords::ChunkCoord;
use voxel_world::mesh::{build_mesh, check_quads, mesh_chunk, quad_tex_coords, ChunkMesh};
use voxel_world::quads::{Face, Quad};
use voxel_world::voxel::Voxel;

const FACES: [Face; 6] = [Face::NegX, Face::NegY, Face::NegZ, Face::PosX, Face::PosY, Face::PosZ];

fn as_floats3(v: &[[i32; 3]]) -> Vec<[f32; 3]> {
    v.iter().map(|p| [p[0] as f32, p[1] as f32, p[2] as f32]).collect()
}

fn as_floats2(v: &[[i32; 2]]) -> Vec<[f32; 2]> {
    v.iter().map(|p| [p[0] as f32, p[1] as f32]).collect()
}

#[test]
fn face_indices_run_in_the_meshers_order() {
    for (i, face) in FACES.iter().enumerate() {
        assert_eq!(face.index(), i);
        assert_eq!(Face::from_index(i), Some(*face));
    }
    assert_eq!(Face::from_index(6), None);
}

#[test]
fn one_quad_matches_the_meshers_own_buffers() {
    let quad = Quad { minimum: [3, 4, 5], width: 7, height: 2 };
    let outside = UnorientedQuad { minimum: PointN([3, 4, 5]), width: 7, height: 2 };
    let voxel = Voxel::new([10, 20, 30, 255]);
    for (i, face) in FACES.iter().enumerate() {
        let oriented = RIGHT_HANDED_Y_UP_CONFIG.faces[i];
        let mut mesh = ChunkMesh::new();
        // a first quad, so that the second starts at vertex 4
        mesh.add_quad_to_mesh(*face, &quad, &voxel);
        mesh.add_quad_to_mesh(*face, &quad, &voxel);
        assert_eq!(mesh.positions.len(), 8);
        assert_eq!(as_floats3(&mesh.positions[4..]), oriented.quad_mesh_positions(&outside, 1.0).to_vec());
        assert_eq!(as_floats3(&mesh.normals[4..]), oriented.quad_mesh_normals().to_vec());
        assert_eq!(
            as_floats2(&mesh.uv[4..]),
            oriented.tex_coords(RIGHT_HANDED_Y_UP_CONFIG.u_flip_face, false, &outside).to_vec()
        );
        assert_eq!(mesh.indices[6..].to_vec(), oriented.quad_mesh_indices(4).to_vec());
        assert_eq!(mesh.colors[4..].to_vec(), vec![[10, 20, 30, 255]; 4]);
    }
}

#[test]
fn quad_on_the_top_face_has_the_expected_buffers() {
    let quad = Quad { minimum: [0, 3, 0], width: 128, height: 128 };
    let mut mesh = ChunkMesh::new();
    mesh.add_quad_to_mesh(Face::PosY, &quad, &Voxel::new([1, 2, 3, 4]));
    assert_eq!(mesh.positions, vec![[0, 4, 0], [0, 4, 128], [128, 4, 0], [128, 4, 128]]);
    assert_eq!(mesh.normals, vec![[0, 1, 0]; 4]);
    assert_eq!(mesh.uv, vec![[0, 0], [128, 0], [0, 128], [128, 128]]);
    assert_eq!(mesh.indices, vec![0, 1, 2, 1, 3, 2]);
    assert_eq!(mesh.colors, vec![[1, 2, 3, 4]; 4]);
}

#[test]
fn quad_on_the_bottom_face_is_wound_the_other_way() {
    let quad = Quad { minimum: [2, 0, 1], width: 3, height: 5 };
    let mut mesh = ChunkMesh::new();
    mesh.add_quad_to_mesh(Face::NegY, &quad, &Voxel::new([1, 2, 3, 4]));
    assert_eq!(mesh.positions, vec![[2, 0, 1], [2, 0, 4], [7, 0, 1], [7, 0, 4]]);
    assert_eq!(mesh.normals, vec![[0, -1, 0]; 4]);
    assert_eq!(mesh.uv, vec![[3, 0], [0, 0], [3, 5], [0, 5]]);
    assert_eq!(mesh.indices, vec![0, 2, 1, 1, 2, 3]);
}

#[test]
fn tex_coords_flip_on_three_faces() {
    let quad = Quad { minimum: [0, 0, 0], width: 2, height: 9 };
    assert_eq!(quad_tex_coords(Face::NegX, &quad), [[0, 0], [2, 0], [0, 9], [2, 9]]);
    assert_eq!(quad_tex_coords(Face::PosX, &quad), [[2, 0], [0, 0], [2, 9], [0, 9]]);
    assert_eq!(quad_tex_coords(Face::NegZ, &quad), [[2, 0], [0, 0], [2, 9], [0, 9]]);
    assert_eq!(quad_tex_coords(Face::PosZ, &quad), [[0, 0], [2, 0], [0, 9], [2, 9]]);
}

#[test]
fn uniform_slab_gives_one_quad_per_face() {
    let mut chunk = Chunk::new(ChunkCoord::new(0, 0));
    chunk.fill_span([0, 0, 0], [127, 3, 127], Voxel::new([50, 60, 70, 255]));
    let mesh = mesh_chunk(&chunk).unwrap();
    assert_eq!(mesh.positions.len(), 6 * 4);
    assert_eq!(mesh.normals.len(), 6 * 4);
    assert_eq!(mesh.uv.len(), 6 * 4);
    assert_eq!(mesh.colors.len(), 6 * 4);
    assert_eq!(mesh.indices.len(), 6 * 6);
    // one quad per orientation, in the order of the faces
    let normals: Vec<[i32; 3]> = mesh.normals.iter().step_by(4).cloned().collect();
    assert_eq!(normals, vec![[-1, 0, 0], [0, -1, 0], [0, 0, -1], [1, 0, 0], [0, 1, 0], [0, 0, 1]]);
    // the top face spans the whole chunk at height 4
    assert_eq!(mesh.positions[16..20].to_vec(), vec![[0, 4, 0], [0, 4, 128], [128, 4, 0], [128, 4, 128]]);
    assert!(mesh.colors.iter().all(|c| *c == [50, 60, 70, 255]));
}

#[test]
fn two_materials_are_not_merged() {
    let mut chunk = Chunk::new(ChunkCoord::new(0, 0));
    chunk.fill_span([0, 0, 0], [127, 0, 63], Voxel::new([1, 0, 0, 255]));
    chunk.fill_span([0, 0, 64], [127, 0, 127], Voxel::new([2, 0, 0, 255]));
    let mesh = mesh_chunk(&chunk).unwrap();
    // top and bottom split in two, the x sides split in two, each z side is one quad
    assert_eq!(mesh.positions.len() / 4, 2 + 2 + 2 + 2 + 1 + 1);
}

#[test]
fn empty_chunk_has_an_empty_mesh() {
    let chunk = Chunk::new(ChunkCoord::new(0, 0));
    let mesh = mesh_chunk(&chunk).unwrap();
    assert!(mesh.positions.is_empty());
    assert!(mesh.indices.is_empty());
}

#[test]
fn single_voxel_is_coloured_by_its_own_attributes() {
    let mut chunk = Chunk::new(ChunkCoord::new(0, 0));
    chunk.fill_span([5, 6, 7], [5, 6, 7], Voxel::new([9, 9, 9, 1]));
    let mesh = mesh_chunk(&chunk).unwrap();
    assert_eq!(mesh.positions.len(), 24);
    assert!(mesh.colors.iter().all(|c| *c == [9, 9, 9, 1]));
    assert!(mesh.positions.iter().all(|p| (5..=6).contains(&p[0]) && (6..=7).contains(&p[1]) && (7..=8).contains(&p[2])));
}

#[test]
fn quads_outside_a_chunk_are_refused() {
    let good = Quad { minimum: [0, 0, 0], width: 1, height: 1 };
    let groups = |q: Quad| vec![vec![q], vec![], vec![], vec![], vec![], vec![]];
    assert!(check_quads(&groups(good)));
    assert!(!check_quads(&groups(Quad { minimum: [128, 0, 0], width: 1, height: 1 })));
    assert!(!check_quads(&groups(Quad { minimum: [0, -1, 0], width: 1, height: 1 })));
    assert!(!check_quads(&groups(Quad { minimum: [0, 0, 0], width: 0, height: 1 })));
    assert!(!check_quads(&groups(Quad { minimum: [0, 0, 0], width: 1, height: 129 })));
    assert!(!check_quads(&vec![vec![good]]));
}

#[test]
fn build_mesh_walks_the_groups_in_order() {
    let mut chunk = Chunk::new(ChunkCoord::new(0, 0));
    chunk.fill_span([1, 1, 1], [1, 1, 1], Voxel::new([7, 7, 7, 7]));
    chunk.fill_span([2, 2, 2], [2, 2, 2], Voxel::new([8, 8, 8, 8]));
    let a = Quad { minimum: [1, 1, 1], width: 1, height: 1 };
    let b = Quad { minimum: [2, 2, 2], width: 1, height: 1 };
    let groups = vec![vec![a, b], vec![], vec![], vec![], vec![b], vec![]];
    let mesh = build_mesh(&chunk, &groups);
    assert_eq!(mesh.positions.len(), 12);
    assert_eq!(mesh.normals[0], [-1, 0, 0]);
    assert_eq!(mesh.normals[4], [-1, 0, 0]);
    assert_eq!(mesh.normals[8], [0, 1, 0]);
    assert_eq!(mesh.colors[0], [7, 7, 7, 7]);
    assert_eq!(mesh.colors[4], [8, 8, 8, 8]);
    assert_eq!(mesh.colors[8], [8, 8, 8, 8]);
    assert_eq!(mesh.indices[12..].to_vec(), vec![8, 9, 10, 9, 11, 10]);
}

#[test]
fn voxel_answers_the_meshers_questions() {
    let solid = Voxel::new([7, 0, 0, 255]);
    let empty = Voxel::default();
    assert_eq!(empty.attributes, [0, 0, 0, 0]);
    assert!(empty.is_empty());
    assert!(!solid.is_empty());
    assert!(Voxel::new([9, 9, 9, 0]).is_empty());
    assert!(solid.is_opaque());
    assert_eq!(solid.voxel_merge_value(), 7);
    assert_eq!(building_blocks::mesh::MergeVoxel::voxel_merge_value(&solid), 7);
    assert!(building_blocks::prelude::IsEmpty::is_empty(&empty));
    assert!(building_blocks::mesh::IsOpaque::is_opaque(&solid));
}

#[test]
fn hidden_faces_between_solid_voxels_are_not_meshed() {
    let mut chunk = Chunk::new(ChunkCoord::new(0, 0));
    chunk.fill_span([0, 0, 0], [1, 0, 0], Voxel::new([5, 5, 5, 255]));
    let mesh = mesh_chunk(&chunk).unwrap();
    // two voxels side by side: one quad per face, each x face one voxel large
    assert_eq!(mesh.positions.len() / 4, 6);
    assert_eq!(mesh.positions[12..16].to_vec(), vec![[2, 0, 0], [2, 0, 1], [2, 1, 0], [2, 1, 1]]);
}
