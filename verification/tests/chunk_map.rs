use map_gen::BlockType;
use map_gen::Chunk;
use map_gen::ChunkMap;

#[test]
fn empty_map_has_no_chunks() {
    let map = ChunkMap::new();
    assert_eq!(map.chunks().len(), 0);
    assert!(map.get_chunk((0, 0, 0)).is_none());
}

#[test]
fn insert_then_get_and_iterate_once() {
    // Inserting a grid at key (1, 0, 2): chunks() must contain it exactly once.
    let mut map = ChunkMap::new();
    map.insert_chunk((1, 0, 2), Chunk::new((16, 0, 32)));
    let chunks = map.chunks();
    assert_eq!(chunks.len(), 1);
    assert_eq!(chunks[0].offset(), (16, 0, 32));
    let found = map.get_chunk((1, 0, 2)).expect("chunk stored at the key");
    assert_eq!(found.offset(), (16, 0, 32));
    assert!(map.get_chunk((2, 0, 1)).is_none());
}

#[test]
fn insert_same_key_replaces() {
    // A second insert at the same key replaces the first: the map keeps its
    // size and reflects the second grid only.
    let mut map = ChunkMap::new();
    map.insert_chunk((1, 0, 2), Chunk::new((0, 0, 0)));
    map.insert_chunk((1, 0, 2), Chunk::new((99, 0, 99)));
    let chunks = map.chunks();
    assert_eq!(chunks.len(), 1);
    assert_eq!(chunks[0].offset(), (99, 0, 99));
    assert_eq!(map.get_chunk((1, 0, 2)).unwrap().offset(), (99, 0, 99));
}

#[test]
fn insert_distinct_keys_keeps_both() {
    let mut map = ChunkMap::new();
    map.insert_chunk((0, 0, 0), Chunk::new((0, 0, 0)));
    map.insert_chunk((1, 0, 0), Chunk::new((16, 0, 0)));
    assert_eq!(map.chunks().len(), 2);
    assert_eq!(map.get_chunk((0, 0, 0)).unwrap().offset(), (0, 0, 0));
    assert_eq!(map.get_chunk((1, 0, 0)).unwrap().offset(), (16, 0, 0));
}

#[test]
fn get_chunk_mut_edits_in_place() {
    let mut map = ChunkMap::new();
    map.insert_chunk((3, 0, 3), Chunk::new((48, 0, 48)));
    assert!(map.get_chunk_mut((9, 9, 9)).is_none());
    {
        let chunk = map.get_chunk_mut((3, 0, 3)).expect("chunk stored at the key");
        *chunk.get_mut(1, 1, 1) = BlockType::Stone;
    }
    let chunk = map.get_chunk((3, 0, 3)).unwrap();
    assert_eq!(*chunk.get(1, 1, 1), BlockType::Stone);
    assert_eq!(*chunk.get(1, 1, 2), BlockType::Air);
}
