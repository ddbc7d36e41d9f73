use map_gen::BlockType;
use map_gen::CHUNK_BOUNDARY;
use map_gen::CHUNK_SIZE;
use map_gen::Chunk;

#[test]
fn new_chunk_is_all_air_at_offset() {
    let chunk = Chunk::new((5, 0, 7));
    assert_eq!(chunk.offset(), (5, 0, 7));
    for x in 0..CHUNK_BOUNDARY {
        for y in 0..CHUNK_BOUNDARY {
            for z in 0..CHUNK_BOUNDARY {
                assert_eq!(*chunk.get(x, y, z), BlockType::Air);
            }
        }
    }
}

#[test]
fn length_and_size_constants() {
    assert_eq!(Chunk::length(), 16);
    assert_eq!(Chunk::size(), 16 * 16 * 16);
    assert_eq!(CHUNK_SIZE, 16);
    assert_eq!(CHUNK_BOUNDARY, 18);
}

#[test]
fn index_formula_exact() {
    assert_eq!(Chunk::index(0, 0, 0), 0);
    assert_eq!(Chunk::index(1, 0, 0), 1);
    assert_eq!(Chunk::index(0, 1, 0), CHUNK_BOUNDARY);
    assert_eq!(Chunk::index(0, 0, 1), CHUNK_BOUNDARY * CHUNK_BOUNDARY);
    assert_eq!(Chunk::index(3, 2, 1), 3 + 2 * 18 + 324);
}

#[test]
fn index_round_trip_all_coordinates() {
    // linearize(delinearize(i)) == i and delinearize(linearize(x,y,z)) == (x,y,z)
    let b = CHUNK_BOUNDARY;
    for x in 0..b {
        for y in 0..b {
            for z in 0..b {
                let i = Chunk::index(x, y, z);
                assert!(i < b * b * b);
                let (dx, dy, dz) = (i % b, (i / b) % b, i / (b * b));
                assert_eq!((dx, dy, dz), (x, y, z));
            }
        }
    }
    for i in 0..b * b * b {
        let (x, y, z) = (i % b, (i / b) % b, i / (b * b));
        assert_eq!(Chunk::index(x, y, z), i);
    }
}

#[test]
fn get_mut_writes_one_cell_only() {
    let mut chunk = Chunk::new((0, 0, 0));
    *chunk.get_mut(4, 5, 6) = BlockType::Stone;
    for x in 0..CHUNK_BOUNDARY {
        for y in 0..CHUNK_BOUNDARY {
            for z in 0..CHUNK_BOUNDARY {
                let expected = if (x, y, z) == (4, 5, 6) {
                    BlockType::Stone
                } else {
                    BlockType::Air
                };
                assert_eq!(*chunk.get(x, y, z), expected);
            }
        }
    }
    assert_eq!(chunk.offset(), (0, 0, 0));
}
