use map_gen::BlockType;
use map_gen::CHUNK_BOUNDARY;
use map_gen::Chunk;
use map_gen::MeshBuffer;
use map_gen::Quad;
use map_gen::QuadGroups;
use map_gen::build_mesh;
use map_gen::generate_quads;
use map_gen::mesh_chunk;

fn uniform_chunk(block: BlockType) -> Chunk {
    let mut chunk = Chunk::new((0, 0, 0));
    for x in 0..CHUNK_BOUNDARY {
        for y in 0..CHUNK_BOUNDARY {
            for z in 0..CHUNK_BOUNDARY {
                *chunk.get_mut(x, y, z) = block;
            }
        }
    }
    chunk
}

fn group_lens(g: &QuadGroups) -> [usize; 6] {
    [
        g.left.len(),
        g.right.len(),
        g.bottom.len(),
        g.top.len(),
        g.front.len(),
        g.back.len(),
    ]
}

#[test]
fn all_stone_grid_emits_no_faces() {
    let chunk = uniform_chunk(BlockType::Stone);
    let groups = generate_quads(&chunk);
    assert_eq!(group_lens(&groups), [0, 0, 0, 0, 0, 0]);
}

#[test]
fn all_air_grid_emits_no_faces() {
    let chunk = uniform_chunk(BlockType::Air);
    let groups = generate_quads(&chunk);
    assert_eq!(group_lens(&groups), [0, 0, 0, 0, 0, 0]);
}

#[test]
fn single_stone_emits_six_unit_quads() {
    let mut chunk = Chunk::new((0, 0, 0));
    *chunk.get_mut(5, 6, 7) = BlockType::Stone;
    let groups = generate_quads(&chunk);
    assert_eq!(group_lens(&groups), [1, 1, 1, 1, 1, 1]);
    for quad in [
        &groups.left[0],
        &groups.right[0],
        &groups.bottom[0],
        &groups.top[0],
        &groups.front[0],
        &groups.back[0],
    ] {
        assert_eq!(quad.voxel, [5, 6, 7]);
        assert_eq!(quad.width, 1);
        assert_eq!(quad.height, 1);
    }
}

#[test]
fn halo_voxel_emits_nothing() {
    // A voxel in the halo is never scanned: its faces are not interior.
    let mut chunk = Chunk::new((0, 0, 0));
    *chunk.get_mut(0, 5, 5) = BlockType::Stone;
    let groups = generate_quads(&chunk);
    assert_eq!(group_lens(&groups), [0, 0, 0, 0, 0, 0]);
}

#[test]
fn adjacent_stones_cull_the_shared_face() {
    let mut chunk = Chunk::new((0, 0, 0));
    *chunk.get_mut(5, 6, 7) = BlockType::Stone;
    *chunk.get_mut(6, 6, 7) = BlockType::Stone;
    let groups = generate_quads(&chunk);
    assert_eq!(group_lens(&groups), [1, 1, 2, 2, 2, 2]);
    assert_eq!(groups.left[0].voxel, [5, 6, 7]);
    assert_eq!(groups.right[0].voxel, [6, 6, 7]);
}

#[test]
fn with_offset_keeps_quads() {
    let mut chunk = Chunk::new((0, 0, 0));
    *chunk.get_mut(5, 6, 7) = BlockType::Stone;
    let groups = generate_quads(&chunk).with_offset((16, 0, 32));
    assert_eq!(groups.offset, (16, 0, 32));
    assert_eq!(group_lens(&groups), [1, 1, 1, 1, 1, 1]);
    assert_eq!(groups.top[0].voxel, [5, 6, 7]);
}

#[test]
fn single_stone_mesh_has_expected_buffers() {
    let mut chunk = Chunk::new((0, 0, 0));
    *chunk.get_mut(5, 6, 7) = BlockType::Stone;
    let groups = generate_quads(&chunk);
    let mesh = build_mesh(&groups);
    assert_eq!(mesh.positions.len(), 24);
    assert_eq!(mesh.normals.len(), 24);
    assert_eq!(mesh.uvs.len(), 24);
    assert_eq!(mesh.indices.len(), 36);
    // one quad per direction, emitted in order left, right, bottom, top,
    // front, back, each with the direction's constant outward normal
    let expected_normals: [(i8, i8, i8); 6] = [
        (-1, 0, 0),
        (1, 0, 0),
        (0, -1, 0),
        (0, 1, 0),
        (0, 0, -1),
        (0, 0, 1),
    ];
    for (quad_index, normal) in expected_normals.iter().enumerate() {
        for corner in 0..4 {
            assert_eq!(mesh.normals[quad_index * 4 + corner], *normal);
        }
        assert_eq!(mesh.uvs[quad_index * 4], (0, 0));
        assert_eq!(mesh.uvs[quad_index * 4 + 1], (1, 0));
        assert_eq!(mesh.uvs[quad_index * 4 + 2], (1, 1));
        assert_eq!(mesh.uvs[quad_index * 4 + 3], (0, 1));
        let base = (quad_index * 4) as u32;
        let expected_indices = [base, base + 2, base + 1, base, base + 3, base + 2];
        assert_eq!(&mesh.indices[quad_index * 6..quad_index * 6 + 6], &expected_indices);
    }
    // the top face lies one above the voxel, at y == 7
    for corner in 0..4 {
        assert_eq!(mesh.positions[3 * 4 + corner].1, 7);
    }
    // the bottom face lies at the voxel floor, y == 6
    for corner in 0..4 {
        assert_eq!(mesh.positions[2 * 4 + corner].1, 6);
    }
}

fn cross(a: (i64, i64, i64), b: (i64, i64, i64)) -> (i64, i64, i64) {
    (
        a.1 * b.2 - a.2 * b.1,
        a.2 * b.0 - a.0 * b.2,
        a.0 * b.1 - a.1 * b.0,
    )
}

#[test]
fn every_direction_winds_outward() {
    // For each of the six directions, the cross product of the first
    // triangle's edge vectors points along that direction's normal.
    let mut chunk = Chunk::new((0, 0, 0));
    *chunk.get_mut(5, 6, 7) = BlockType::Stone;
    let groups = generate_quads(&chunk);
    let mesh = build_mesh(&groups);
    for quad_index in 0..6 {
        let i0 = mesh.indices[quad_index * 6] as usize;
        let i1 = mesh.indices[quad_index * 6 + 1] as usize;
        let i2 = mesh.indices[quad_index * 6 + 2] as usize;
        let p = |i: usize| {
            let (x, y, z) = mesh.positions[i];
            (x as i64, y as i64, z as i64)
        };
        let (a, b, c) = (p(i0), p(i1), p(i2));
        let e1 = (b.0 - a.0, b.1 - a.1, b.2 - a.2);
        let e2 = (c.0 - a.0, c.1 - a.1, c.2 - a.2);
        let n = mesh.normals[quad_index * 4];
        assert_eq!(
            cross(e1, e2),
            (n.0 as i64, n.1 as i64, n.2 as i64),
            "direction bucket {} winds against its normal",
            quad_index
        );
    }
}

#[test]
fn offset_translates_vertices_only() {
    // The same local pattern meshed at offsets (0,0,0) and (16,0,0) gives
    // vertex sets differing by exactly (16,0,0), with identical topology.
    let mut chunk = Chunk::new((0, 0, 0));
    *chunk.get_mut(5, 6, 7) = BlockType::Stone;
    *chunk.get_mut(5, 7, 7) = BlockType::Stone;
    let at_origin = generate_quads(&chunk);
    let moved = generate_quads(&chunk).with_offset((16, 0, 0));
    let mesh0 = build_mesh(&at_origin);
    let mesh1 = build_mesh(&moved);
    assert_eq!(mesh0.positions.len(), mesh1.positions.len());
    assert_eq!(mesh0.indices, mesh1.indices);
    assert_eq!(mesh0.normals, mesh1.normals);
    assert_eq!(mesh0.uvs, mesh1.uvs);
    for (p0, p1) in mesh0.positions.iter().zip(mesh1.positions.iter()) {
        assert_eq!((p0.0 + 16, p0.1, p0.2), *p1);
    }
}

#[test]
fn build_mesh_scales_extents() {
    // The vertex formula honours non-unit extents: a 2x3 top quad spans
    // width along x and height along z.
    let groups = QuadGroups {
        left: Vec::new(),
        right: Vec::new(),
        bottom: Vec::new(),
        top: vec![Quad { voxel: [1, 1, 1], width: 2, height: 3 }],
        front: Vec::new(),
        back: Vec::new(),
        offset: (0, 0, 0),
    };
    let mesh = build_mesh(&groups);
    assert_eq!(mesh.positions.len(), 4);
    assert_eq!(mesh.positions[0], (1, 2, 1));
    assert_eq!(mesh.positions[1], (3, 2, 1));
    assert_eq!(mesh.positions[2], (3, 2, 4));
    assert_eq!(mesh.positions[3], (1, 2, 4));
    assert_eq!(mesh.indices, vec![0, 2, 1, 0, 3, 2]);
}

#[test]
fn mesh_chunk_matches_manual_pipeline() {
    let mut chunk = Chunk::new((16, 0, 32));
    *chunk.get_mut(5, 6, 7) = BlockType::Stone;
    let (groups, mesh) = mesh_chunk(&chunk);
    assert_eq!(groups.offset, (16, 0, 32));
    let manual = build_mesh(&generate_quads(&chunk).with_offset((16, 0, 32)));
    assert_eq!(mesh.positions, manual.positions);
    assert_eq!(mesh.normals, manual.normals);
    assert_eq!(mesh.uvs, manual.uvs);
    assert_eq!(mesh.indices, manual.indices);
    // top face translated by the offset: y == 6 + 1, x and z moved
    assert_eq!(mesh.positions[3 * 4], (5 + 16, 7, 7 + 32));
}

#[test]
fn empty_groups_give_empty_mesh() {
    let chunk = Chunk::new((0, 0, 0));
    let groups = generate_quads(&chunk);
    let mesh: MeshBuffer = build_mesh(&groups);
    assert!(mesh.positions.is_empty());
    assert!(mesh.normals.is_empty());
    assert!(mesh.uvs.is_empty());
    assert!(mesh.indices.is_empty());
}
