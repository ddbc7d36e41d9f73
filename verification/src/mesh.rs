//! Face extraction: scans a grid's interior, compares each voxel with its
//! six axis neighbours, and collects one unit quad per visible face, grouped
//! by face direction and in strict scan order.

use vstd::prelude::*;
use crate::grid::BlockType;
use crate::grid::Chunk;
use crate::grid::CHUNK_BOUNDARY;

verus! {

/// One of the six axis-aligned face directions.
#[derive(Debug, Clone, Copy, PartialEq, Eq, Structural)]
pub enum Direction {
    Left,
    Right,
    Bottom,
    Top,
    Front,
    Back,
}

/// The unit step from a voxel to its neighbour in a direction.
pub open spec fn dir_delta(d: Direction) -> (int, int, int) {
    match d {
        Direction::Left => (-1int, 0int, 0int),
        Direction::Right => (1int, 0int, 0int),
        Direction::Bottom => (0int, -1int, 0int),
        Direction::Top => (0int, 1int, 0int),
        Direction::Front => (0int, 0int, -1int),
        Direction::Back => (0int, 0int, 1int),
    }
}

/// The coordinate and all six of its neighbours lie inside the stored grid.
pub open spec fn interior(x: int, y: int, z: int) -> bool {
    &&& 1 <= x < CHUNK_BOUNDARY as int - 1
    &&& 1 <= y < CHUNK_BOUNDARY as int - 1
    &&& 1 <= z < CHUNK_BOUNDARY as int - 1
}

/// The face of the voxel at (x, y, z) towards direction `d` is visible: the
/// voxel is solid and its neighbour holds a different block, so the face
/// lies on a material boundary. A face between equal blocks is culled, and
/// `Air` emits no faces of its own.
pub open spec fn face_visible(c: Chunk, d: Direction, x: int, y: int, z: int) -> bool {
    let (dx, dy, dz) = dir_delta(d);
    &&& c.spec_get(x, y, z) != BlockType::Air
    &&& c.spec_get(x + dx, y + dy, z + dz) != c.spec_get(x, y, z)
}

/// Scan order on voxel coordinates: x outermost, then y, then z.
pub open spec fn scan_lt(x1: int, y1: int, z1: int, x2: int, y2: int, z2: int) -> bool {
    ||| x1 < x2
    ||| (x1 == x2 && y1 < y2)
    ||| (x1 == x2 && y1 == y2 && z1 < z2)
}

/// A single emitted face: the voxel's local coordinate and the quad extent.
/// Extents are always 1x1 today; they are kept so the vertex synthesis
/// already supports merged quads.
#[derive(Debug, Clone, Copy, PartialEq, Eq)]
pub struct Quad {
    pub voxel: [usize; 3],
    pub width: u32,
    pub height: u32,
}

/// The quad sits at exactly this coordinate.
pub open spec fn quad_at(q: Quad, x: int, y: int, z: int) -> bool {
    q.voxel[0] == x && q.voxel[1] == y && q.voxel[2] == z
}

/// The quad's coordinate comes strictly before (x, y, z) in scan order.
pub open spec fn quad_coords_lt(q: Quad, x: int, y: int, z: int) -> bool {
    scan_lt(q.voxel[0] as int, q.voxel[1] as int, q.voxel[2] as int, x, y, z)
}

/// Strict scan order between two quads.
pub open spec fn quad_lt(a: Quad, b: Quad) -> bool {
    quad_coords_lt(a, b.voxel[0] as int, b.voxel[1] as int, b.voxel[2] as int)
}

/// The quad is a unit quad on an interior, visible face of the grid.
pub open spec fn quad_sound(c: Chunk, d: Direction, q: Quad) -> bool {
    &&& q.width == 1
    &&& q.height == 1
    &&& interior(q.voxel[0] as int, q.voxel[1] as int, q.voxel[2] as int)
    &&& face_visible(c, d, q.voxel[0] as int, q.voxel[1] as int, q.voxel[2] as int)
}

/// What the face scan guarantees of one direction's bucket: every entry is
/// a unit quad on an interior, visible face; entries come in strictly
/// increasing scan order (so no face appears twice); and every visible
/// interior face of that direction is present.
pub open spec fn group_ok(c: Chunk, d: Direction, s: Seq<Quad>) -> bool {
    &&& forall|i: int| 0 <= i < s.len() ==> quad_sound(c, d, #[trigger] s[i])
    &&& forall|i: int, j: int| 0 <= i < j < s.len() ==> quad_lt(#[trigger] s[i], #[trigger] s[j])
    &&& forall|x: int, y: int, z: int|
        interior(x, y, z) && #[trigger] face_visible(c, d, x, y, z) ==> exists|i: int|
            0 <= i < s.len() && quad_at(#[trigger] s[i], x, y, z)
}

/// Quads of every visible interior face, grouped by the six directions,
/// with the world offset the emitted vertices will be translated by.
pub struct QuadGroups {
    pub left: Vec<Quad>,
    pub right: Vec<Quad>,
    pub bottom: Vec<Quad>,
    pub top: Vec<Quad>,
    pub front: Vec<Quad>,
    pub back: Vec<Quad>,
    pub offset: (usize, usize, usize),
}

impl QuadGroups {
    /// The bucket of one direction.
    pub open spec fn group(self, d: Direction) -> Seq<Quad> {
        match d {
            Direction::Left => self.left@,
            Direction::Right => self.right@,
            Direction::Bottom => self.bottom@,
            Direction::Top => self.top@,
            Direction::Front => self.front@,
            Direction::Back => self.back@,
        }
    }

    /// Both sides hold the same quads in the same order; only the offset
    /// may differ.
    pub open spec fn same_quads(self, other: QuadGroups) -> bool {
        &&& self.left@ == other.left@
        &&& self.right@ == other.right@
        &&& self.bottom@ == other.bottom@
        &&& self.top@ == other.top@
        &&& self.front@ == other.front@
        &&& self.back@ == other.back@
    }

    /// The same buckets, re-anchored at a new world offset.
    pub fn with_offset(self, offset: (usize, usize, usize)) -> (r: QuadGroups)
        ensures
            r.same_quads(self),
            r.offset == offset,
    {
        QuadGroups { offset, ..self }
    }
}

impl Default for QuadGroups {
    /// Six empty buckets at the world origin.
    fn default() -> (r: QuadGroups)
        ensures
            r.left@.len() == 0,
            r.right@.len() == 0,
            r.bottom@.len() == 0,
            r.top@.len() == 0,
            r.front@.len() == 0,
            r.back@.len() == 0,
            r.offset.0 == 0 && r.offset.1 == 0 && r.offset.2 == 0,
    {
        QuadGroups {
            left: Vec::new(),
            right: Vec::new(),
            bottom: Vec::new(),
            top: Vec::new(),
            front: Vec::new(),
            back: Vec::new(),
            offset: (0, 0, 0),
        }
    }
}

/// The six buckets together hold exactly the visible interior faces.
pub open spec fn quads_ok(c: Chunk, g: QuadGroups) -> bool {
    forall|d: Direction| group_ok(c, d, #[trigger] g.group(d))
}

/// The loop-time shape of one bucket: sound, sorted, bounded by the scan
/// position, and complete for everything before the scan position.
spec fn scan_inv(c: Chunk, d: Direction, s: Seq<Quad>, x: int, y: int, z: int) -> bool {
    &&& forall|i: int|
        0 <= i < s.len() ==> quad_sound(c, d, #[trigger] s[i]) && quad_coords_lt(s[i], x, y, z)
    &&& forall|i: int, j: int| 0 <= i < j < s.len() ==> quad_lt(#[trigger] s[i], #[trigger] s[j])
    &&& forall|xa: int, ya: int, za: int|
        interior(xa, ya, za) && #[trigger] face_visible(c, d, xa, ya, za) && scan_lt(
            xa,
            ya,
            za,
            x,
            y,
            z,
        ) ==> exists|i: int| 0 <= i < s.len() && quad_at(#[trigger] s[i], xa, ya, za)
}

/// Processing the voxel at the scan position advances a bucket's invariant
/// by one step: the bucket grew by exactly the quad of this voxel when its
/// face is visible, and stayed as it was otherwise.
proof fn lemma_scan_step(
    c: Chunk,
    d: Direction,
    s0: Seq<Quad>,
    s1: Seq<Quad>,
    x: int,
    y: int,
    z: int,
)
    requires
        interior(x, y, z),
        scan_inv(c, d, s0, x, y, z),
        if face_visible(c, d, x, y, z) {
            &&& s1.len() == s0.len() + 1
            &&& s1 == s0.push(s1[s0.len() as int])
            &&& quad_at(s1[s0.len() as int], x, y, z)
            &&& s1[s0.len() as int].width == 1
            &&& s1[s0.len() as int].height == 1
        } else {
            s1 == s0
        },
    ensures
        scan_inv(c, d, s1, x, y, z + 1),
{
    if face_visible(c, d, x, y, z) {
        let n = s0.len() as int;
        assert forall|i: int|
            0 <= i < s1.len() implies quad_sound(c, d, #[trigger] s1[i]) && quad_coords_lt(
            s1[i],
            x,
            y,
            z + 1,
        ) by {
            if i < n {
                assert(s1[i] == s0[i]);
            }
        }
        assert forall|i: int, j: int| 0 <= i < j < s1.len() implies quad_lt(
            #[trigger] s1[i],
            #[trigger] s1[j],
        ) by {
            if j < n {
                assert(s1[i] == s0[i] && s1[j] == s0[j]);
            } else {
                assert(s1[i] == s0[i]);
                assert(quad_coords_lt(s0[i], x, y, z));
            }
        }
        assert forall|xa: int, ya: int, za: int|
            interior(xa, ya, za) && #[trigger] face_visible(c, d, xa, ya, za) && scan_lt(
                xa,
                ya,
                za,
                x,
                y,
                z + 1,
            ) implies exists|i: int| 0 <= i < s1.len() && quad_at(#[trigger] s1[i], xa, ya, za) by {
            if scan_lt(xa, ya, za, x, y, z) {
                let i = choose|i: int| 0 <= i < s0.len() && quad_at(#[trigger] s0[i], xa, ya, za);
                assert(s1[i] == s0[i]);
                assert(quad_at(s1[i], xa, ya, za));
            } else {
                assert(xa == x && ya == y && za == z);
                assert(quad_at(s1[n], xa, ya, za));
            }
        }
    } else {
        assert forall|xa: int, ya: int, za: int|
            interior(xa, ya, za) && #[trigger] face_visible(c, d, xa, ya, za) && scan_lt(
                xa,
                ya,
                za,
                x,
                y,
                z + 1,
            ) implies exists|i: int| 0 <= i < s1.len() && quad_at(#[trigger] s1[i], xa, ya, za) by {
            if !scan_lt(xa, ya, za, x, y, z) {
                assert(xa == x && ya == y && za == z);
            }
        }
    }
}

/// A bucket that is complete up to the end of the scan is a finished bucket.
proof fn lemma_scan_finished(c: Chunk, d: Direction, s: Seq<Quad>)
    requires
        scan_inv(c, d, s, CHUNK_BOUNDARY as int - 1, 1, 1),
    ensures
        group_ok(c, d, s),
{
    assert forall|x: int, y: int, z: int|
        interior(x, y, z) && #[trigger] face_visible(c, d, x, y, z) implies exists|i: int|
        0 <= i < s.len() && quad_at(#[trigger] s[i], x, y, z) by {
        assert(scan_lt(x, y, z, CHUNK_BOUNDARY as int - 1, 1, 1));
    }
}

/// Scans the grid's interior and collects, for each of the six directions,
/// one unit quad per visible face, in scan order. The buckets are anchored
/// at the world origin until `with_offset` re-anchors them.
pub fn generate_quads(chunk: &Chunk) -> (g: QuadGroups)
    requires
        chunk.wf(),
    ensures
        quads_ok(*chunk, g),
        g.offset.0 == 0 && g.offset.1 == 0 && g.offset.2 == 0,
{
    let mut buffer = QuadGroups::default();
    let bound = CHUNK_BOUNDARY - 1;
    let mut x: usize = 1;
    while x < bound
        invariant
            bound == CHUNK_BOUNDARY - 1,
            1 <= x <= bound,
            chunk.wf(),
            buffer.offset.0 == 0 && buffer.offset.1 == 0 && buffer.offset.2 == 0,
            scan_inv(*chunk, Direction::Left, buffer.left@, x as int, 1, 1),
            scan_inv(*chunk, Direction::Right, buffer.right@, x as int, 1, 1),
            scan_inv(*chunk, Direction::Bottom, buffer.bottom@, x as int, 1, 1),
            scan_inv(*chunk, Direction::Top, buffer.top@, x as int, 1, 1),
            scan_inv(*chunk, Direction::Front, buffer.front@, x as int, 1, 1),
            scan_inv(*chunk, Direction::Back, buffer.back@, x as int, 1, 1),
        decreases bound - x,
    {
        let mut y: usize = 1;
        while y < bound
            invariant
                bound == CHUNK_BOUNDARY - 1,
                1 <= x < bound,
                1 <= y <= bound,
                chunk.wf(),
                buffer.offset.0 == 0 && buffer.offset.1 == 0 && buffer.offset.2 == 0,
                scan_inv(*chunk, Direction::Left, buffer.left@, x as int, y as int, 1),
                scan_inv(*chunk, Direction::Right, buffer.right@, x as int, y as int, 1),
                scan_inv(*chunk, Direction::Bottom, buffer.bottom@, x as int, y as int, 1),
                scan_inv(*chunk, Direction::Top, buffer.top@, x as int, y as int, 1),
                scan_inv(*chunk, Direction::Front, buffer.front@, x as int, y as int, 1),
                scan_inv(*chunk, Direction::Back, buffer.back@, x as int, y as int, 1),
            decreases bound - y,
        {
            let mut z: usize = 1;
            while z < bound
                invariant
                    bound == CHUNK_BOUNDARY - 1,
                    1 <= x < bound,
                    1 <= y < bound,
                    1 <= z <= bound,
                    chunk.wf(),
                    buffer.offset.0 == 0 && buffer.offset.1 == 0 && buffer.offset.2 == 0,
                    scan_inv(*chunk, Direction::Left, buffer.left@, x as int, y as int, z as int),
                    scan_inv(*chunk, Direction::Right, buffer.right@, x as int, y as int, z as int),
                    scan_inv(
                        *chunk,
                        Direction::Bottom,
                        buffer.bottom@,
                        x as int,
                        y as int,
                        z as int,
                    ),
                    scan_inv(*chunk, Direction::Top, buffer.top@, x as int, y as int, z as int),
                    scan_inv(*chunk, Direction::Front, buffer.front@, x as int, y as int, z as int),
                    scan_inv(*chunk, Direction::Back, buffer.back@, x as int, y as int, z as int),
                decreases bound - z,
            {
                let ghost l0 = buffer.left@;
                let ghost r0 = buffer.right@;
                let ghost b0 = buffer.bottom@;
                let ghost t0 = buffer.top@;
                let ghost f0 = buffer.front@;
                let ghost k0 = buffer.back@;
                let voxel = *chunk.get(x, y, z);
                if voxel != BlockType::Air {
                    if *chunk.get(x - 1, y, z) != voxel {
                        buffer.left.push(Quad { voxel: [x, y, z], width: 1, height: 1 });
                    }
                    if *chunk.get(x + 1, y, z) != voxel {
                        buffer.right.push(Quad { voxel: [x, y, z], width: 1, height: 1 });
                    }
                    if *chunk.get(x, y - 1, z) != voxel {
                        buffer.bottom.push(Quad { voxel: [x, y, z], width: 1, height: 1 });
                    }
                    if *chunk.get(x, y + 1, z) != voxel {
                        buffer.top.push(Quad { voxel: [x, y, z], width: 1, height: 1 });
                    }
                    if *chunk.get(x, y, z - 1) != voxel {
                        buffer.front.push(Quad { voxel: [x, y, z], width: 1, height: 1 });
                    }
                    if *chunk.get(x, y, z + 1) != voxel {
                        buffer.back.push(Quad { voxel: [x, y, z], width: 1, height: 1 });
                    }
                }
                proof {
                    lemma_scan_step(*chunk, Direction::Left, l0, buffer.left@, x as int, y as int, z as int);
                    lemma_scan_step(*chunk, Direction::Right, r0, buffer.right@, x as int, y as int, z as int);
                    lemma_scan_step(*chunk, Direction::Bottom, b0, buffer.bottom@, x as int, y as int, z as int);
                    lemma_scan_step(*chunk, Direction::Top, t0, buffer.top@, x as int, y as int, z as int);
                    lemma_scan_step(*chunk, Direction::Front, f0, buffer.front@, x as int, y as int, z as int);
                    lemma_scan_step(*chunk, Direction::Back, k0, buffer.back@, x as int, y as int, z as int);
                }
                z = z + 1;
            }
            y = y + 1;
        }
        x = x + 1;
    }
    proof {
        lemma_scan_finished(*chunk, Direction::Left, buffer.left@);
        lemma_scan_finished(*chunk, Direction::Right, buffer.right@);
        lemma_scan_finished(*chunk, Direction::Bottom, buffer.bottom@);
        lemma_scan_finished(*chunk, Direction::Top, buffer.top@);
        lemma_scan_finished(*chunk, Direction::Front, buffer.front@);
        lemma_scan_finished(*chunk, Direction::Back, buffer.back@);
        assert forall|d: Direction| group_ok(*chunk, d, #[trigger] buffer.group(d)) by {
            match d {
                Direction::Left => assert(group_ok(*chunk, d, buffer.group(d))),
                Direction::Right => assert(group_ok(*chunk, d, buffer.group(d))),
                Direction::Bottom => assert(group_ok(*chunk, d, buffer.group(d))),
                Direction::Top => assert(group_ok(*chunk, d, buffer.group(d))),
                Direction::Front => assert(group_ok(*chunk, d, buffer.group(d))),
                Direction::Back => assert(group_ok(*chunk, d, buffer.group(d))),
            }
        }
    }
    buffer
}

/// Scan position of a quad as a single integer, for counting.
spec fn quad_key(q: Quad) -> int {
    (q.voxel[0] * CHUNK_BOUNDARY + q.voxel[1]) * CHUNK_BOUNDARY + q.voxel[2]
}

/// In a sound, strictly ordered bucket, scan keys grow at least as fast as
/// the index.
proof fn lemma_key_growth(c: Chunk, d: Direction, s: Seq<Quad>, i: int)
    requires
        group_ok(c, d, s),
        0 <= i < s.len(),
    ensures
        quad_key(s[i]) >= i,
    decreases i,
{
    assert(quad_sound(c, d, s[i]));
    if i > 0 {
        lemma_key_growth(c, d, s, i - 1);
        assert(quad_sound(c, d, s[i - 1]));
        assert(quad_lt(s[i - 1], s[i]));
    }
}

/// A bucket of distinct scan positions can never hold more quads than the
/// grid holds cells.
pub proof fn lemma_group_len_bound(c: Chunk, d: Direction, s: Seq<Quad>)
    requires
        group_ok(c, d, s),
    ensures
        s.len() <= crate::grid::grid_volume(),
{
    if s.len() > 0 {
        let last = s.len() - 1;
        lemma_key_growth(c, d, s, last);
        assert(quad_sound(c, d, s[last]));
    }
}

/// Law: a grid holding one uniform block value everywhere emits no faces
/// at all — a fully occluded (or fully empty) grid has nothing to render.
pub proof fn lemma_uniform_grid_empty(c: Chunk, g: QuadGroups)
    requires
        quads_ok(c, g),
        forall|x: int, y: int, z: int|
            crate::grid::in_grid(x, y, z) ==> #[trigger] c.spec_get(x, y, z) == c.spec_get(
                0,
                0,
                0,
            ),
    ensures
        g.left@.len() == 0,
        g.right@.len() == 0,
        g.bottom@.len() == 0,
        g.top@.len() == 0,
        g.front@.len() == 0,
        g.back@.len() == 0,
{
    assert forall|d: Direction| (#[trigger] g.group(d)).len() == 0 by {
        let s = g.group(d);
        if s.len() > 0 {
            assert(quad_sound(c, d, s[0]));
            let x = s[0].voxel[0] as int;
            let y = s[0].voxel[1] as int;
            let z = s[0].voxel[2] as int;
            let (dx, dy, dz) = dir_delta(d);
            assert(crate::grid::in_grid(x, y, z));
            assert(crate::grid::in_grid(x + dx, y + dy, z + dz));
            assert(c.spec_get(x, y, z) == c.spec_get(0, 0, 0));
            assert(c.spec_get(x + dx, y + dy, z + dz) == c.spec_get(0, 0, 0));
            assert(!face_visible(c, d, x, y, z));
        }
    }
    assert(g.group(Direction::Left) == g.left@);
    assert(g.group(Direction::Right) == g.right@);
    assert(g.group(Direction::Bottom) == g.bottom@);
    assert(g.group(Direction::Top) == g.top@);
    assert(g.group(Direction::Front) == g.front@);
    assert(g.group(Direction::Back) == g.back@);
}

/// Law: a single solid voxel in an interior otherwise of `Air` emits
/// exactly one face per direction, and each sits at that voxel.
pub proof fn lemma_single_block_faces(c: Chunk, g: QuadGroups, x: int, y: int, z: int)
    requires
        quads_ok(c, g),
        interior(x, y, z),
        c.spec_get(x, y, z) != BlockType::Air,
        forall|xa: int, ya: int, za: int|
            crate::grid::in_grid(xa, ya, za) && (xa != x || ya != y || za != z)
                ==> #[trigger] c.spec_get(xa, ya, za) == BlockType::Air,
    ensures
        forall|d: Direction|
            (#[trigger] g.group(d)).len() == 1 && quad_at(g.group(d)[0], x, y, z),
{
    assert forall|d: Direction| (#[trigger] g.group(d)).len() == 1 && quad_at(
        g.group(d)[0],
        x,
        y,
        z,
    ) by {
        let s = g.group(d);
        let (dx, dy, dz) = dir_delta(d);
        assert(crate::grid::in_grid(x + dx, y + dy, z + dz));
        assert(c.spec_get(x + dx, y + dy, z + dz) == BlockType::Air);
        assert(face_visible(c, d, x, y, z));
        assert(exists|i: int| 0 <= i < s.len() && quad_at(#[trigger] s[i], x, y, z));
        assert(s.len() >= 1);
        assert forall|i: int| 0 <= i < s.len() implies quad_at(#[trigger] s[i], x, y, z) by {
            assert(quad_sound(c, d, s[i]));
            let xi = s[i].voxel[0] as int;
            let yi = s[i].voxel[1] as int;
            let zi = s[i].voxel[2] as int;
            assert(face_visible(c, d, xi, yi, zi));
            if xi != x || yi != y || zi != z {
                assert(crate::grid::in_grid(xi, yi, zi));
                assert(c.spec_get(xi, yi, zi) == BlockType::Air);
            }
        }
        if s.len() > 1 {
            assert(quad_at(s[0], x, y, z));
            assert(quad_at(s[1], x, y, z));
            assert(quad_lt(s[0], s[1]));
        }
    }
}

} // verus!
