//! Chunked voxel terrain: a fixed-size voxel grid with a padded halo, a
//! sparse chunk registry, a height-field terrain filler, and a face-culling
//! mesher that turns voxel occupancy into flat vertex/normal/UV/index
//! buffers.

pub mod chunk_map;
pub mod grid;
pub mod mesh;
pub mod mesh_buffer;
pub mod terrain;

pub use chunk_map::ChunkMap;
pub use grid::BlockType;
pub use grid::CHUNK_BOUNDARY;
pub use grid::CHUNK_SIZE;
pub use grid::Chunk;
pub use mesh::Direction;
pub use mesh::Quad;
pub use mesh::QuadGroups;
pub use mesh::generate_quads;
pub use mesh_buffer::MeshBuffer;
pub use mesh_buffer::build_mesh;
pub use mesh_buffer::mesh_chunk;
pub use terrain::ChunkTransformer;
pub use terrain::HeightMapGenerator;
pub use terrain::fill_columns;
