//! Terrain generation: a strategy trait for filling a grid in place, and a
//! height-field filler that paints each column with `Stone` from the floor
//! up to a per-column height, clamping heights to the grid.

use vstd::prelude::*;
use crate::grid::BlockType;
use crate::grid::Chunk;
use crate::grid::CHUNK_BOUNDARY;
use crate::grid::delinearize;
use crate::grid::grid_volume;
use crate::grid::in_grid;
use crate::grid::lemma_delinearize_round_trip;
use crate::grid::lemma_linearize_round_trip;
use crate::grid::linearize;

verus! {

/// Index of the height entry for the column at (x, z).
pub open spec fn column_index(x: int, z: int) -> int {
    x + z * (CHUNK_BOUNDARY as int)
}

/// Number of voxel columns in a stored grid, halo included.
pub open spec fn column_count() -> int {
    (CHUNK_BOUNDARY as int) * (CHUNK_BOUNDARY as int)
}

/// The voxel content after painting: a cell is `Stone` when its height is
/// below its column's height entry, and keeps its prior value otherwise.
/// Heights at or above the grid's top are in effect clamped, since no cell
/// lies above it.
pub open spec fn filled_blocks(v: Seq<BlockType>, h: Seq<usize>) -> Seq<BlockType> {
    Seq::new(
        v.len(),
        |i: int|
            {
                let (x, y, z) = delinearize(i);
                if y < h[column_index(x, z)] {
                    BlockType::Stone
                } else {
                    v[i]
                }
            },
    )
}

/// A terrain-generation strategy: fills a voxel grid in place. The grid's
/// placement in the world travels with the grid itself.
pub trait ChunkTransformer {
    /// Fills the grid. Must keep the grid well formed and leave its world
    /// offset unchanged.
    fn transform(&self, chunk: &mut Chunk)
        requires
            old(chunk).wf(),
        ensures
            final(chunk).wf(),
            final(chunk).spec_offset() == old(chunk).spec_offset(),
    ;
}

/// A terrain strategy driven by a precomputed height map, one entry per
/// column of the stored grid, halo columns included.
pub struct HeightMapGenerator {
    heights: Vec<usize>,
}

impl HeightMapGenerator {
    /// The height map carried by the generator.
    pub closed spec fn spec_heights(self) -> Seq<usize> {
        self.heights@
    }

    /// The generator always carries one height per column.
    #[verifier::type_invariant]
    pub closed spec fn wf(self) -> bool {
        self.heights@.len() == column_count()
    }

    /// Wraps a height map with one entry per column of the stored grid,
    /// `heights[column_index(x, z)]` being the height of column (x, z) in
    /// voxels above the grid floor.
    pub fn new(heights: Vec<usize>) -> (r: HeightMapGenerator)
        requires
            heights@.len() == column_count(),
        ensures
            r.spec_heights() == heights@,
    {
        HeightMapGenerator { heights }
    }
}

impl ChunkTransformer for HeightMapGenerator {
    fn transform(&self, chunk: &mut Chunk)
        ensures
            final(chunk).blocks() == filled_blocks(old(chunk).blocks(), self.spec_heights()),
    {
        proof {
            use_type_invariant(self);
        }
        fill_columns(chunk, &self.heights);
    }
}

/// The grid content while the fill is under way: every column before (x, z)
/// in scan order is fully painted, the column at (x, z) is painted below
/// height `y`, and everything after keeps its prior value.
pub open spec fn fill_upto(
    v: Seq<BlockType>,
    h: Seq<usize>,
    x: int,
    z: int,
    y: int,
) -> Seq<BlockType> {
    Seq::new(
        v.len(),
        |i: int|
            {
                let (xi, yi, zi) = delinearize(i);
                if yi < h[column_index(xi, zi)] && (xi < x || (xi == x && (zi < z || (zi == z
                    && yi < y)))) {
                    BlockType::Stone
                } else {
                    v[i]
                }
            },
    )
}

/// Before any column is touched, the grid is unchanged.
proof fn lemma_fill_upto_start(v: Seq<BlockType>, h: Seq<usize>)
    requires
        v.len() == grid_volume(),
    ensures
        fill_upto(v, h, 0, 0, 0) == v,
{
    assert forall|i: int| 0 <= i < v.len() implies fill_upto(v, h, 0, 0, 0)[i] == v[i] by {
        lemma_delinearize_round_trip(i);
    }
    assert(fill_upto(v, h, 0, 0, 0) =~= v);
}

/// Painting one more cell of the current column advances the fill by one.
proof fn lemma_fill_upto_set(v: Seq<BlockType>, h: Seq<usize>, x: int, z: int, y: int)
    requires
        v.len() == grid_volume(),
        in_grid(x, y, z),
        y < h[column_index(x, z)],
    ensures
        fill_upto(v, h, x, z, y).update(linearize(x, y, z), BlockType::Stone) == fill_upto(
            v,
            h,
            x,
            z,
            y + 1,
        ),
{
    lemma_linearize_round_trip(x, y, z);
    let lhs = fill_upto(v, h, x, z, y).update(linearize(x, y, z), BlockType::Stone);
    let rhs = fill_upto(v, h, x, z, y + 1);
    assert forall|i: int| 0 <= i < v.len() implies lhs[i] == rhs[i] by {
        lemma_delinearize_round_trip(i);
    }
    assert(lhs =~= rhs);
}

/// Once the current column is painted up to its (clamped) height, the fill
/// equals the one that starts at the next column.
proof fn lemma_fill_upto_column_done(v: Seq<BlockType>, h: Seq<usize>, x: int, z: int, ylim: int)
    requires
        v.len() == grid_volume(),
        0 <= x < CHUNK_BOUNDARY as int,
        0 <= z < CHUNK_BOUNDARY as int,
        0 <= column_index(x, z) < h.len(),
        ylim == if h[column_index(x, z)] < CHUNK_BOUNDARY as int {
            h[column_index(x, z)] as int
        } else {
            CHUNK_BOUNDARY as int
        },
    ensures
        fill_upto(v, h, x, z, ylim) == fill_upto(v, h, x, z + 1, 0),
{
    let lhs = fill_upto(v, h, x, z, ylim);
    let rhs = fill_upto(v, h, x, z + 1, 0);
    assert forall|i: int| 0 <= i < v.len() implies lhs[i] == rhs[i] by {
        lemma_delinearize_round_trip(i);
    }
    assert(lhs =~= rhs);
}

/// Once the last column of a row is done, the fill equals the one that
/// starts at the next row.
proof fn lemma_fill_upto_row_done(v: Seq<BlockType>, h: Seq<usize>, x: int)
    requires
        v.len() == grid_volume(),
    ensures
        fill_upto(v, h, x, CHUNK_BOUNDARY as int, 0) == fill_upto(v, h, x + 1, 0, 0),
{
    let lhs = fill_upto(v, h, x, CHUNK_BOUNDARY as int, 0);
    let rhs = fill_upto(v, h, x + 1, 0, 0);
    assert forall|i: int| 0 <= i < v.len() implies lhs[i] == rhs[i] by {
        lemma_delinearize_round_trip(i);
    }
    assert(lhs =~= rhs);
}

/// After the last row, every column is fully painted.
proof fn lemma_fill_upto_done(v: Seq<BlockType>, h: Seq<usize>)
    requires
        v.len() == grid_volume(),
    ensures
        fill_upto(v, h, CHUNK_BOUNDARY as int, 0, 0) == filled_blocks(v, h),
{
    let lhs = fill_upto(v, h, CHUNK_BOUNDARY as int, 0, 0);
    let rhs = filled_blocks(v, h);
    assert forall|i: int| 0 <= i < v.len() implies lhs[i] == rhs[i] by {
        lemma_delinearize_round_trip(i);
    }
    assert(lhs =~= rhs);
}

/// Paints every column of the grid with `Stone` from the floor up to its
/// height entry, clamped to the grid's top; all other cells keep their
/// prior value. The resulting content is a function of the prior content
/// and the height map alone.
pub fn fill_columns(chunk: &mut Chunk, heights: &Vec<usize>)
    requires
        old(chunk).wf(),
        heights@.len() == column_count(),
    ensures
        final(chunk).wf(),
        final(chunk).spec_offset() == old(chunk).spec_offset(),
        final(chunk).blocks() == filled_blocks(old(chunk).blocks(), heights@),
{
    let ghost v0 = chunk.blocks();
    let ghost h = heights@;
    proof {
        lemma_fill_upto_start(v0, h);
    }
    let mut x: usize = 0;
    while x < CHUNK_BOUNDARY
        invariant
            x <= CHUNK_BOUNDARY,
            chunk.wf(),
            chunk.spec_offset() == old(chunk).spec_offset(),
            heights@ == h,
            h.len() == column_count(),
            v0.len() == grid_volume(),
            chunk.blocks() == fill_upto(v0, h, x as int, 0, 0),
        decreases CHUNK_BOUNDARY - x,
    {
        let mut z: usize = 0;
        while z < CHUNK_BOUNDARY
            invariant
                x < CHUNK_BOUNDARY,
                z <= CHUNK_BOUNDARY,
                chunk.wf(),
                chunk.spec_offset() == old(chunk).spec_offset(),
                heights@ == h,
                h.len() == column_count(),
                v0.len() == grid_volume(),
                chunk.blocks() == fill_upto(v0, h, x as int, z as int, 0),
            decreases CHUNK_BOUNDARY - z,
        {
            let col: usize = x + z * CHUNK_BOUNDARY;
            let hcol: usize = heights[col];
            let ylim: usize = if hcol < CHUNK_BOUNDARY {
                hcol
            } else {
                CHUNK_BOUNDARY
            };
            let mut y: usize = 0;
            while y < ylim
                invariant
                    x < CHUNK_BOUNDARY,
                    z < CHUNK_BOUNDARY,
                    y <= ylim,
                    col == column_index(x as int, z as int),
                    0 <= col < h.len(),
                    hcol == h[col as int],
                    ylim == if h[col as int] < CHUNK_BOUNDARY as int {
                        h[col as int] as int
                    } else {
                        CHUNK_BOUNDARY as int
                    },
                    chunk.wf(),
                    chunk.spec_offset() == old(chunk).spec_offset(),
                    heights@ == h,
                    h.len() == column_count(),
                    v0.len() == grid_volume(),
                    chunk.blocks() == fill_upto(v0, h, x as int, z as int, y as int),
                decreases ylim - y,
            {
                proof {
                    lemma_fill_upto_set(v0, h, x as int, z as int, y as int);
                }
                let cell = chunk.get_mut(x, y, z);
                *cell = BlockType::Stone;
                y = y + 1;
            }
            proof {
                lemma_fill_upto_column_done(v0, h, x as int, z as int, ylim as int);
            }
            z = z + 1;
        }
        proof {
            lemma_fill_upto_row_done(v0, h, x as int);
        }
        x = x + 1;
    }
    proof {
        lemma_fill_upto_done(v0, h);
    }
}

/// Law: terrain filling is deterministic. The voxel content after a fill is
/// a function of the prior content and the height map alone, so repeated
/// runs over equal grids and equal height maps give identical content.
pub proof fn lemma_fill_deterministic(
    v1: Seq<BlockType>,
    v2: Seq<BlockType>,
    h1: Seq<usize>,
    h2: Seq<usize>,
)
    requires
        v1 == v2,
        h1 == h2,
    ensures
        filled_blocks(v1, h1) == filled_blocks(v2, h2),
{
}

/// Law: under a constant height map, every column of a fresh (all-`Air`)
/// grid gets the same profile — `Stone` exactly below the height, `Air` at
/// and above it.
pub proof fn lemma_constant_height_profile(
    v: Seq<BlockType>,
    h: Seq<usize>,
    hc: usize,
    x: int,
    y: int,
    z: int,
)
    requires
        v.len() == grid_volume(),
        forall|i: int| 0 <= i < v.len() ==> v[i] == BlockType::Air,
        h.len() == column_count(),
        forall|c: int| 0 <= c < h.len() ==> h[c] == hc,
        in_grid(x, y, z),
    ensures
        filled_blocks(v, h)[linearize(x, y, z)] == if y < hc {
            BlockType::Stone
        } else {
            BlockType::Air
        },
{
    lemma_linearize_round_trip(x, y, z);
}

} // verus!
