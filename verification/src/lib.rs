//! Voxel chunk engine core: spatial primitives, block identity resolution,
//! chunk storage, face culling, mesh assembly, procedural generation and a
//! budgeted chunk-streaming scheduler.

pub mod block;
pub mod chunk;
pub mod generator;
pub mod grid;
pub mod pos;
pub mod quad;
pub mod streaming;

pub use block::BlockClient;
pub use block::BlockId;
pub use block::BlockType;
pub use block::IdMapping;
pub use block::Stone;
pub use chunk::Chunk;
pub use chunk::ChunkIter;
pub use chunk::CHUNK_SIZE;
pub use chunk::CHUNK_VOLUME;
pub use generator::ChunkGenerator;
pub use generator::ChunkGeneratorBasic;
pub use generator::Seed;
pub use generator::SimpleGenerator;
pub use pos::BlockFace;
pub use pos::BlockVisibility;
pub use pos::Pos;
pub use pos::PosIterator;
pub use quad::Mesh;
pub use quad::Quad;
pub use quad::QuadGroup;
pub use streaming::delete_chunks;
pub use streaming::new_chunks;
pub use streaming::snap_pos;
pub use streaming::AllChunks;
pub use streaming::GeneratorInfo;
