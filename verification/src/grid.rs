//! The voxel grid: a cubic chunk of block labels stored as one flat vector,
//! with the coordinate-to-index mapping and its round-trip lemmas.

use vstd::prelude::*;

verus! {

/// Side length of the core (unpadded) part of a chunk, in voxels.
pub const CHUNK_SIZE: usize = 16;

/// Side length of a stored chunk: the core plus a one-voxel halo on every
/// side, so neighbour lookups inside the face scan never leave the grid.
pub const CHUNK_BOUNDARY: usize = CHUNK_SIZE + 2;

/// One voxel's material label. `Air` means "no solid matter here".
#[derive(Debug, Clone, Copy, PartialEq, Eq, Structural)]
pub enum BlockType {
    Air,
    Stone,
}

/// Maps a coordinate triple to its slot in the flat voxel vector.
pub open spec fn linearize(x: int, y: int, z: int) -> int {
    x + y * (CHUNK_BOUNDARY as int) + z * (CHUNK_BOUNDARY as int) * (CHUNK_BOUNDARY as int)
}

/// Inverse of `linearize` on in-range indices.
pub open spec fn delinearize(i: int) -> (int, int, int) {
    let b = CHUNK_BOUNDARY as int;
    (i % b, (i / b) % b, i / (b * b))
}

/// Total number of slots in a stored (padded) chunk.
pub open spec fn grid_volume() -> int {
    (CHUNK_BOUNDARY as int) * (CHUNK_BOUNDARY as int) * (CHUNK_BOUNDARY as int)
}

/// The coordinate is inside the stored grid, halo included.
pub open spec fn in_grid(x: int, y: int, z: int) -> bool {
    &&& 0 <= x < CHUNK_BOUNDARY as int
    &&& 0 <= y < CHUNK_BOUNDARY as int
    &&& 0 <= z < CHUNK_BOUNDARY as int
}

/// Linearizing an in-range coordinate lands in range and comes back unchanged.
pub proof fn lemma_linearize_round_trip(x: int, y: int, z: int)
    requires
        in_grid(x, y, z),
    ensures
        0 <= linearize(x, y, z) < grid_volume(),
        delinearize(linearize(x, y, z)) == (x, y, z),
{
    let b = CHUNK_BOUNDARY as int;
    let i = linearize(x, y, z);
    vstd::arithmetic::div_mod::lemma_fundamental_div_mod_converse(i, b, y + z * b, x);
    vstd::arithmetic::div_mod::lemma_fundamental_div_mod_converse(y + z * b, b, z, y);
    vstd::arithmetic::div_mod::lemma_div_denominator(i, b, b);
}

/// Delinearizing an in-range index gives an in-range coordinate that
/// linearizes back to the index.
pub proof fn lemma_delinearize_round_trip(i: int)
    requires
        0 <= i < grid_volume(),
    ensures
        in_grid(delinearize(i).0, delinearize(i).1, delinearize(i).2),
        linearize(delinearize(i).0, delinearize(i).1, delinearize(i).2) == i,
{
    let b = CHUNK_BOUNDARY as int;
    vstd::arithmetic::div_mod::lemma_fundamental_div_mod(i, b);
    vstd::arithmetic::div_mod::lemma_mod_bound(i, b);
    vstd::arithmetic::div_mod::lemma_fundamental_div_mod(i / b, b);
    vstd::arithmetic::div_mod::lemma_mod_bound(i / b, b);
    vstd::arithmetic::div_mod::lemma_div_denominator(i, b, b);
    vstd::arithmetic::div_mod::lemma_fundamental_div_mod(i, b * b);
    vstd::arithmetic::div_mod::lemma_mod_bound(i, b * b);
}

/// A fixed-size cubic voxel grid with a one-voxel halo, placed in the world
/// by an immutable offset in voxel units.
#[derive(Debug, Clone)]
pub struct Chunk {
    voxels: Vec<BlockType>,
    offset_x: usize,
    offset_y: usize,
    offset_z: usize,
}

impl Chunk {
    /// The stored blocks, in linearized order.
    pub closed spec fn blocks(self) -> Seq<BlockType> {
        self.voxels@
    }

    /// The grid's placement in world space, in voxel units.
    pub closed spec fn spec_offset(self) -> (usize, usize, usize) {
        (self.offset_x, self.offset_y, self.offset_z)
    }

    /// The flat voxel vector holds exactly one slot per grid cell.
    pub open spec fn wf(self) -> bool {
        self.blocks().len() == grid_volume()
    }

    /// The block at an in-range coordinate.
    pub open spec fn spec_get(self, x: int, y: int, z: int) -> BlockType {
        self.blocks()[linearize(x, y, z)]
    }

    /// Allocates a grid of all `Air` at the given world offset.
    pub fn new(offset: (usize, usize, usize)) -> (c: Chunk)
        ensures
            c.wf(),
            c.spec_offset() == offset,
            forall|i: int| 0 <= i < grid_volume() ==> c.blocks()[i] == BlockType::Air,
            forall|x: int, y: int, z: int|
                in_grid(x, y, z) ==> c.spec_get(x, y, z) == BlockType::Air,
    {
        let volume: usize = CHUNK_BOUNDARY * CHUNK_BOUNDARY * CHUNK_BOUNDARY;
        let mut voxels: Vec<BlockType> = Vec::new();
        let mut i: usize = 0;
        while i < volume
            invariant
                i <= volume,
                voxels@.len() == i,
                forall|j: int| 0 <= j < i ==> voxels@[j] == BlockType::Air,
            decreases volume - i,
        {
            voxels.push(BlockType::Air);
            i = i + 1;
        }
        let c = Chunk { voxels, offset_x: offset.0, offset_y: offset.1, offset_z: offset.2 };
        proof {
            assert forall|x: int, y: int, z: int| in_grid(x, y, z)
                implies c.spec_get(x, y, z) == BlockType::Air by {
                lemma_linearize_round_trip(x, y, z);
            }
        }
        c
    }

    /// Side length of the core part of a chunk.
    pub fn length() -> (r: usize)
        ensures
            r == CHUNK_SIZE,
    {
        CHUNK_SIZE
    }

    /// Number of voxels in the core part of a chunk.
    pub fn size() -> (r: usize)
        ensures
            r == CHUNK_SIZE * CHUNK_SIZE * CHUNK_SIZE,
    {
        CHUNK_SIZE * CHUNK_SIZE * CHUNK_SIZE
    }

    /// The flat-vector slot of an in-range coordinate.
    pub fn index(x: usize, y: usize, z: usize) -> (r: usize)
        requires
            in_grid(x as int, y as int, z as int),
        ensures
            r == linearize(x as int, y as int, z as int),
            0 <= r < grid_volume(),
    {
        proof {
            lemma_linearize_round_trip(x as int, y as int, z as int);
        }
        x + (y * CHUNK_BOUNDARY) + (z * CHUNK_BOUNDARY * CHUNK_BOUNDARY)
    }

    /// Reads the block at an in-range coordinate.
    pub fn get(&self, x: usize, y: usize, z: usize) -> (r: &BlockType)
        requires
            self.wf(),
            in_grid(x as int, y as int, z as int),
        ensures
            *r == self.spec_get(x as int, y as int, z as int),
    {
        let i = Self::index(x, y, z);
        &self.voxels[i]
    }

    /// Borrows the block at an in-range coordinate for writing.
    pub fn get_mut(&mut self, x: usize, y: usize, z: usize) -> (r: &mut BlockType)
        requires
            old(self).wf(),
            in_grid(x as int, y as int, z as int),
        ensures
            *r == old(self).spec_get(x as int, y as int, z as int),
            final(self).blocks() == old(self).blocks().update(
                linearize(x as int, y as int, z as int),
                *final(r),
            ),
            final(self).spec_offset() == old(self).spec_offset(),
            final(self).wf(),
    {
        let i = Self::index(x, y, z);
        &mut self.voxels[i]
    }

    /// The grid's placement in world space.
    pub fn offset(&self) -> (r: (usize, usize, usize))
        ensures
            r == self.spec_offset(),
    {
        (self.offset_x, self.offset_y, self.offset_z)
    }
}

} // verus!
