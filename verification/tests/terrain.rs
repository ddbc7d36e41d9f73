use map_gen::BlockType;
use map_gen::CHUNK_BOUNDARY;
use map_gen::CHUNK_SIZE;
use map_gen::Chunk;
use map_gen::ChunkTransformer;
use map_gen::HeightMapGenerator;
use map_gen::fill_columns;

// heights[x + z * CHUNK_BOUNDARY] is the height of column (x, z)
fn heights_from(f: impl Fn(usize, usize) -> usize) -> Vec<usize> {
    let mut heights = vec![0; CHUNK_BOUNDARY * CHUNK_BOUNDARY];
    for x in 0..CHUNK_BOUNDARY {
        for z in 0..CHUNK_BOUNDARY {
            heights[x + z * CHUNK_BOUNDARY] = f(x, z);
        }
    }
    heights
}

#[test]
fn constant_noise_gives_uniform_columns() {
    // A noise stub returning the fixed constant c for every input: every
    // column gets the same height floor(c * Y), and Stone occupies exactly
    // y < height.
    let c: f64 = 0.4;
    let height = (c * CHUNK_SIZE as f64).floor() as usize;
    assert_eq!(height, 6);
    let heights = heights_from(|_, _| height);
    let mut chunk = Chunk::new((0, 0, 0));
    fill_columns(&mut chunk, &heights);
    for x in 0..CHUNK_BOUNDARY {
        for y in 0..CHUNK_BOUNDARY {
            for z in 0..CHUNK_BOUNDARY {
                let expected = if y < height {
                    BlockType::Stone
                } else {
                    BlockType::Air
                };
                assert_eq!(*chunk.get(x, y, z), expected);
            }
        }
    }
}

#[test]
fn fill_is_deterministic() {
    // Equal height maps over equal grids give byte-identical voxel content.
    let heights = heights_from(|x, z| (x * 3 + z * 5) % (CHUNK_BOUNDARY + 2));
    let mut a = Chunk::new((16, 0, 32));
    let mut b = Chunk::new((16, 0, 32));
    fill_columns(&mut a, &heights);
    fill_columns(&mut b, &heights);
    for x in 0..CHUNK_BOUNDARY {
        for y in 0..CHUNK_BOUNDARY {
            for z in 0..CHUNK_BOUNDARY {
                assert_eq!(*a.get(x, y, z), *b.get(x, y, z));
            }
        }
    }
}

#[test]
fn oversized_height_is_clamped_to_grid_top() {
    let heights = heights_from(|_, _| 1000);
    let mut chunk = Chunk::new((0, 0, 0));
    fill_columns(&mut chunk, &heights);
    for x in 0..CHUNK_BOUNDARY {
        for y in 0..CHUNK_BOUNDARY {
            for z in 0..CHUNK_BOUNDARY {
                assert_eq!(*chunk.get(x, y, z), BlockType::Stone);
            }
        }
    }
}

#[test]
fn zero_height_leaves_air() {
    let heights = heights_from(|_, _| 0);
    let mut chunk = Chunk::new((0, 0, 0));
    fill_columns(&mut chunk, &heights);
    for x in 0..CHUNK_BOUNDARY {
        for z in 0..CHUNK_BOUNDARY {
            assert_eq!(*chunk.get(x, 0, z), BlockType::Air);
        }
    }
}

#[test]
fn height_map_generator_transforms_like_fill() {
    let heights = heights_from(|x, _| x);
    let generator = HeightMapGenerator::new(heights.clone());
    let mut via_trait = Chunk::new((3, 0, 9));
    generator.transform(&mut via_trait);
    let mut direct = Chunk::new((3, 0, 9));
    fill_columns(&mut direct, &heights);
    assert_eq!(via_trait.offset(), (3, 0, 9));
    for x in 0..CHUNK_BOUNDARY {
        for y in 0..CHUNK_BOUNDARY {
            for z in 0..CHUNK_BOUNDARY {
                assert_eq!(*via_trait.get(x, y, z), *direct.get(x, y, z));
                let expected = if y < x {
                    BlockType::Stone
                } else {
                    BlockType::Air
                };
                assert_eq!(*direct.get(x, y, z), expected);
            }
        }
    }
}
