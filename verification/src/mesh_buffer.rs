//! Vertex synthesis: turns the six quad buckets into flat, parallel
//! vertex/normal/UV/index buffers, four vertices and two triangles per
//! quad, with a per-direction corner table whose winding keeps every
//! triangle facing outward, translated into world space by the buckets'
//! offset.

use vstd::prelude::*;
use crate::grid::CHUNK_BOUNDARY;
use crate::grid::Chunk;
use crate::mesh::Direction;
use crate::mesh::Quad;
use crate::mesh::QuadGroups;

verus! {

/// The renderable output: parallel per-vertex buffers and a triangle index
/// list. Positions are voxel-corner coordinates already translated into
/// world space; normals are unit axis vectors; UVs are corners of the unit
/// square. All entries are exact integers; the rendering layer converts
/// them to its float vertex format unchanged.
pub struct MeshBuffer {
    pub positions: Vec<(usize, usize, usize)>,
    pub normals: Vec<(i8, i8, i8)>,
    pub uvs: Vec<(u8, u8)>,
    pub indices: Vec<u32>,
}

/// The outward unit normal of a face direction.
pub open spec fn dir_normal(d: Direction) -> (int, int, int) {
    crate::mesh::dir_delta(d)
}

/// Local position of corner `k` of a quad's face, before world translation.
/// Each direction has a fixed corner table; together with `tri_pattern`
/// it makes the first triangle of every quad wind outward.
pub open spec fn corner(d: Direction, q: Quad, k: int) -> (int, int, int) {
    let x = q.voxel[0] as int;
    let y = q.voxel[1] as int;
    let z = q.voxel[2] as int;
    let w = q.width as int;
    let h = q.height as int;
    match d {
        Direction::Left => if k == 0 {
            (x, y, z)
        } else if k == 1 {
            (x, y + h, z)
        } else if k == 2 {
            (x, y + h, z + w)
        } else {
            (x, y, z + w)
        },
        Direction::Right => if k == 0 {
            (x + 1, y, z)
        } else if k == 1 {
            (x + 1, y, z + w)
        } else if k == 2 {
            (x + 1, y + h, z + w)
        } else {
            (x + 1, y + h, z)
        },
        Direction::Bottom => if k == 0 {
            (x, y, z)
        } else if k == 1 {
            (x, y, z + h)
        } else if k == 2 {
            (x + w, y, z + h)
        } else {
            (x + w, y, z)
        },
        Direction::Top => if k == 0 {
            (x, y + 1, z)
        } else if k == 1 {
            (x + w, y + 1, z)
        } else if k == 2 {
            (x + w, y + 1, z + h)
        } else {
            (x, y + 1, z + h)
        },
        Direction::Front => if k == 0 {
            (x, y, z)
        } else if k == 1 {
            (x + w, y, z)
        } else if k == 2 {
            (x + w, y + h, z)
        } else {
            (x, y + h, z)
        },
        Direction::Back => if k == 0 {
            (x, y, z + 1)
        } else if k == 1 {
            (x, y + h, z + 1)
        } else if k == 2 {
            (x + w, y + h, z + 1)
        } else {
            (x + w, y, z + 1)
        },
    }
}

/// The fixed corner order of a quad's two triangles.
pub open spec fn tri_pattern(t: int) -> int {
    if t == 0 {
        0
    } else if t == 1 {
        2
    } else if t == 2 {
        1
    } else if t == 3 {
        0
    } else if t == 4 {
        3
    } else {
        2
    }
}

/// The UV coordinate of corner `k`: the unit square, corner by corner.
pub open spec fn uv_val(k: int) -> (u8, u8) {
    if k == 0 {
        (0u8, 0u8)
    } else if k == 1 {
        (1u8, 0u8)
    } else if k == 2 {
        (1u8, 1u8)
    } else {
        (0u8, 1u8)
    }
}

/// The stored normal of a face direction.
pub open spec fn normal_val(d: Direction) -> (i8, i8, i8) {
    match d {
        Direction::Left => (-1i8, 0i8, 0i8),
        Direction::Right => (1i8, 0i8, 0i8),
        Direction::Bottom => (0i8, -1i8, 0i8),
        Direction::Top => (0i8, 1i8, 0i8),
        Direction::Front => (0i8, 0i8, -1i8),
        Direction::Back => (0i8, 0i8, 1i8),
    }
}

/// Corner `k` of a quad as a world-space vertex.
pub open spec fn vert_pos(d: Direction, q: Quad, k: int, off: (usize, usize, usize)) -> (
    usize,
    usize,
    usize,
) {
    let (cx, cy, cz) = corner(d, q, k);
    ((cx + off.0) as usize, (cy + off.1) as usize, (cz + off.2) as usize)
}

/// Every world-space vertex of the quad stays within `usize` range.
pub open spec fn quad_fits(q: Quad, off: (usize, usize, usize)) -> bool {
    &&& q.voxel[0] + q.width + q.height + 1 + off.0 <= usize::MAX
    &&& q.voxel[1] + q.width + q.height + 1 + off.1 <= usize::MAX
    &&& q.voxel[2] + q.width + q.height + 1 + off.2 <= usize::MAX
}

/// Every quad of the bucket fits at the offset.
pub open spec fn group_fits(s: Seq<Quad>, off: (usize, usize, usize)) -> bool {
    forall|i: int| 0 <= i < s.len() ==> quad_fits(#[trigger] s[i], off)
}

/// Number of quads over all six buckets.
pub open spec fn total_quads(g: QuadGroups) -> nat {
    g.left@.len() + g.right@.len() + g.bottom@.len() + g.top@.len() + g.front@.len()
        + g.back@.len()
}

/// Every quad fits at the groups' offset, and the vertex count fits the
/// `u32` index format.
pub open spec fn groups_fit(g: QuadGroups) -> bool {
    &&& group_fits(g.left@, g.offset)
    &&& group_fits(g.right@, g.offset)
    &&& group_fits(g.bottom@, g.offset)
    &&& group_fits(g.top@, g.offset)
    &&& group_fits(g.front@, g.offset)
    &&& group_fits(g.back@, g.offset)
    &&& 4 * total_quads(g) <= u32::MAX
}

/// The vertex stream of one bucket: four corners per quad, in quad order.
pub open spec fn seq_positions(d: Direction, s: Seq<Quad>, off: (usize, usize, usize)) -> Seq<
    (usize, usize, usize),
> {
    Seq::new(4 * s.len(), |v: int| vert_pos(d, s[v / 4], v % 4, off))
}

/// The normal stream of one bucket: the direction's normal, repeated.
pub open spec fn seq_normals(d: Direction, n: nat) -> Seq<(i8, i8, i8)> {
    Seq::new(4 * n, |v: int| normal_val(d))
}

/// The UV stream of one bucket: the unit square, once per quad.
pub open spec fn seq_uvs(n: nat) -> Seq<(u8, u8)> {
    Seq::new(4 * n, |v: int| uv_val(v % 4))
}

/// The index stream of one bucket: two triangles per quad, over the four
/// vertices of that quad, counted from `base`.
pub open spec fn seq_indices(n: nat, base: int) -> Seq<u32> {
    Seq::new(6 * n, |t: int| (base + 4 * (t / 6) + tri_pattern(t % 6)) as u32)
}

/// The buffer is exactly the six buckets' geometry, emitted in the fixed
/// direction order Left, Right, Bottom, Top, Front, Back, translated by
/// the buckets' world offset.
pub open spec fn is_mesh_of(m: MeshBuffer, g: QuadGroups) -> bool {
    let nl = g.left@.len();
    let nr = g.right@.len();
    let nb = g.bottom@.len();
    let nt = g.top@.len();
    let nf = g.front@.len();
    let nk = g.back@.len();
    &&& m.positions@ == seq_positions(Direction::Left, g.left@, g.offset) + seq_positions(
        Direction::Right,
        g.right@,
        g.offset,
    ) + seq_positions(Direction::Bottom, g.bottom@, g.offset) + seq_positions(
        Direction::Top,
        g.top@,
        g.offset,
    ) + seq_positions(Direction::Front, g.front@, g.offset) + seq_positions(
        Direction::Back,
        g.back@,
        g.offset,
    )
    &&& m.normals@ == seq_normals(Direction::Left, nl) + seq_normals(Direction::Right, nr)
        + seq_normals(Direction::Bottom, nb) + seq_normals(Direction::Top, nt) + seq_normals(
        Direction::Front,
        nf,
    ) + seq_normals(Direction::Back, nk)
    &&& m.uvs@ == seq_uvs(nl) + seq_uvs(nr) + seq_uvs(nb) + seq_uvs(nt) + seq_uvs(nf) + seq_uvs(
        nk,
    )
    &&& m.indices@ == seq_indices(nl, 0) + seq_indices(nr, 4 * nl as int) + seq_indices(
        nb,
        4 * (nl + nr) as int,
    ) + seq_indices(nt, 4 * (nl + nr + nb) as int) + seq_indices(nf, 4 * (nl + nr + nb + nt) as int)
        + seq_indices(nk, 4 * (nl + nr + nb + nt + nf) as int)
}

/// Splitting a vertex slot into its quad and corner.
proof fn lemma_split4(j: int, k: int)
    requires
        0 <= j,
        0 <= k < 4,
    ensures
        (4 * j + k) / 4 == j,
        (4 * j + k) % 4 == k,
{
    vstd::arithmetic::div_mod::lemma_fundamental_div_mod_converse(4 * j + k, 4, j, k);
}

/// Splitting an index slot into its quad and triangle corner.
proof fn lemma_split6(j: int, k: int)
    requires
        0 <= j,
        0 <= k < 6,
    ensures
        (6 * j + k) / 6 == j,
        (6 * j + k) % 6 == k,
{
    vstd::arithmetic::div_mod::lemma_fundamental_div_mod_converse(6 * j + k, 6, j, k);
}

/// One more quad extends the bucket's vertex stream by its four corners.
proof fn lemma_seq_positions_snoc(d: Direction, s: Seq<Quad>, j: int, off: (usize, usize, usize))
    requires
        0 <= j < s.len(),
    ensures
        seq_positions(d, s.subrange(0, j + 1), off) == seq_positions(d, s.subrange(0, j), off)
            + Seq::new(4, |k: int| vert_pos(d, s[j], k, off)),
{
    let a = seq_positions(d, s.subrange(0, j), off);
    let b = Seq::new(4, |k: int| vert_pos(d, s[j], k, off));
    let c = seq_positions(d, s.subrange(0, j + 1), off);
    assert forall|v: int| 0 <= v < c.len() implies c[v] == (a + b)[v] by {
        vstd::arithmetic::div_mod::lemma_fundamental_div_mod(v, 4);
        vstd::arithmetic::div_mod::lemma_mod_bound(v, 4);
        if v < 4 * j {
            lemma_split4(v / 4, v % 4);
        } else {
            lemma_split4(j, v - 4 * j);
        }
    }
    assert(c =~= a + b);
}

/// One more quad extends the bucket's normal stream by four copies.
proof fn lemma_seq_normals_snoc(d: Direction, j: nat)
    ensures
        seq_normals(d, j + 1) == seq_normals(d, j) + Seq::new(4, |k: int| normal_val(d)),
{
    let a = seq_normals(d, j);
    let b = Seq::new(4, |k: int| normal_val(d));
    let c = seq_normals(d, (j + 1) as nat);
    assert(c =~= a + b);
}

/// One more quad extends the bucket's UV stream by the unit square.
proof fn lemma_seq_uvs_snoc(j: nat)
    ensures
        seq_uvs(j + 1) == seq_uvs(j) + Seq::new(4, |k: int| uv_val(k)),
{
    let a = seq_uvs(j);
    let b = Seq::new(4, |k: int| uv_val(k));
    let c = seq_uvs((j + 1) as nat);
    assert forall|v: int| 0 <= v < c.len() implies c[v] == (a + b)[v] by {
        vstd::arithmetic::div_mod::lemma_fundamental_div_mod(v, 4);
        vstd::arithmetic::div_mod::lemma_mod_bound(v, 4);
        if v >= 4 * j {
            lemma_split4(j as int, v - 4 * j);
        }
    }
    assert(c =~= a + b);
}

/// One more quad extends the bucket's index stream by its six indices.
proof fn lemma_seq_indices_snoc(j: nat, base: int)
    ensures
        seq_indices(j + 1, base) == seq_indices(j, base) + Seq::new(
            6,
            |t: int| (base + 4 * j + tri_pattern(t)) as u32,
        ),
{
    let a = seq_indices(j, base);
    let b = Seq::new(6, |t: int| (base + 4 * j + tri_pattern(t)) as u32);
    let c = seq_indices((j + 1) as nat, base);
    assert forall|v: int| 0 <= v < c.len() implies c[v] == (a + b)[v] by {
        vstd::arithmetic::div_mod::lemma_fundamental_div_mod(v, 6);
        vstd::arithmetic::div_mod::lemma_mod_bound(v, 6);
        if v < 6 * j {
            lemma_split6(v / 6, v % 6);
        } else {
            lemma_split6(j as int, v - 6 * j);
        }
    }
    assert(c =~= a + b);
}

/// Computes one world-space vertex of a quad.
fn vertex_at(d: Direction, q: &Quad, k: usize, off: (usize, usize, usize)) -> (p: (
    usize,
    usize,
    usize,
))
    requires
        quad_fits(*q, off),
        k < 4,
    ensures
        ({
            let (cx, cy, cz) = corner(d, *q, k as int);
            p.0 == cx + off.0 && p.1 == cy + off.1 && p.2 == cz + off.2
        }),
{
    let x = q.voxel[0];
    let y = q.voxel[1];
    let z = q.voxel[2];
    let w = q.width as usize;
    let h = q.height as usize;
    match d {
        Direction::Left => {
            if k == 0 {
                (x + off.0, y + off.1, z + off.2)
            } else if k == 1 {
                (x + off.0, y + h + off.1, z + off.2)
            } else if k == 2 {
                (x + off.0, y + h + off.1, z + w + off.2)
            } else {
                (x + off.0, y + off.1, z + w + off.2)
            }
        },
        Direction::Right => {
            if k == 0 {
                (x + 1 + off.0, y + off.1, z + off.2)
            } else if k == 1 {
                (x + 1 + off.0, y + off.1, z + w + off.2)
            } else if k == 2 {
                (x + 1 + off.0, y + h + off.1, z + w + off.2)
            } else {
                (x + 1 + off.0, y + h + off.1, z + off.2)
            }
        },
        Direction::Bottom => {
            if k == 0 {
                (x + off.0, y + off.1, z + off.2)
            } else if k == 1 {
                (x + off.0, y + off.1, z + h + off.2)
            } else if k == 2 {
                (x + w + off.0, y + off.1, z + h + off.2)
            } else {
                (x + w + off.0, y + off.1, z + off.2)
            }
        },
        Direction::Top => {
            if k == 0 {
                (x + off.0, y + 1 + off.1, z + off.2)
            } else if k == 1 {
                (x + w + off.0, y + 1 + off.1, z + off.2)
            } else if k == 2 {
                (x + w + off.0, y + 1 + off.1, z + h + off.2)
            } else {
                (x + off.0, y + 1 + off.1, z + h + off.2)
            }
        },
        Direction::Front => {
            if k == 0 {
                (x + off.0, y + off.1, z + off.2)
            } else if k == 1 {
                (x + w + off.0, y + off.1, z + off.2)
            } else if k == 2 {
                (x + w + off.0, y + h + off.1, z + off.2)
            } else {
                (x + off.0, y + h + off.1, z + off.2)
            }
        },
        Direction::Back => {
            if k == 0 {
                (x + off.0, y + off.1, z + 1 + off.2)
            } else if k == 1 {
                (x + off.0, y + h + off.1, z + 1 + off.2)
            } else if k == 2 {
                (x + w + off.0, y + h + off.1, z + 1 + off.2)
            } else {
                (x + w + off.0, y + off.1, z + 1 + off.2)
            }
        },
    }
}

/// The stored normal of a direction.
fn normal_of(d: Direction) -> (n: (i8, i8, i8))
    ensures
        n == normal_val(d),
{
    match d {
        Direction::Left => (-1, 0, 0),
        Direction::Right => (1, 0, 0),
        Direction::Bottom => (0, -1, 0),
        Direction::Top => (0, 1, 0),
        Direction::Front => (0, 0, -1),
        Direction::Back => (0, 0, 1),
    }
}

/// Appends one bucket's geometry to the buffers: four vertices, normals
/// and UVs per quad, and six indices per quad counting from the vertex
/// count at entry.
fn emit_group(d: Direction, quads: &Vec<Quad>, off: (usize, usize, usize), m: &mut MeshBuffer)
    requires
        group_fits(quads@, off),
        old(m).positions@.len() + 4 * quads@.len() <= u32::MAX,
    ensures
        final(m).positions@ == old(m).positions@ + seq_positions(d, quads@, off),
        final(m).normals@ == old(m).normals@ + seq_normals(d, quads@.len()),
        final(m).uvs@ == old(m).uvs@ + seq_uvs(quads@.len()),
        final(m).indices@ == old(m).indices@ + seq_indices(
            quads@.len(),
            old(m).positions@.len() as int,
        ),
{
    let n = quads.len();
    let ghost base = old(m).positions@.len() as int;
    proof {
        assert(m.positions@ =~= old(m).positions@ + seq_positions(d, quads@.subrange(0, 0), off));
        assert(m.normals@ =~= old(m).normals@ + seq_normals(d, 0));
        assert(m.uvs@ =~= old(m).uvs@ + seq_uvs(0));
        assert(m.indices@ =~= old(m).indices@ + seq_indices(0, base));
    }
    let mut j: usize = 0;
    while j < n
        invariant
            n == quads@.len(),
            j <= n,
            group_fits(quads@, off),
            base == old(m).positions@.len() as int,
            base + 4 * n <= u32::MAX,
            m.positions@ == old(m).positions@ + seq_positions(d, quads@.subrange(0, j as int), off),
            m.normals@ == old(m).normals@ + seq_normals(d, j as nat),
            m.uvs@ == old(m).uvs@ + seq_uvs(j as nat),
            m.indices@ == old(m).indices@ + seq_indices(j as nat, base),
        decreases n - j,
    {
        let q = quads[j];
        let start: u32 = m.positions.len() as u32;
        let ghost prev_pos = m.positions@;
        let ghost prev_nrm = m.normals@;
        let ghost prev_uv = m.uvs@;
        let ghost prev_idx = m.indices@;
        let p0 = vertex_at(d, &q, 0, off);
        let p1 = vertex_at(d, &q, 1, off);
        let p2 = vertex_at(d, &q, 2, off);
        let p3 = vertex_at(d, &q, 3, off);
        m.positions.push(p0);
        m.positions.push(p1);
        m.positions.push(p2);
        m.positions.push(p3);
        let nrm = normal_of(d);
        m.normals.push(nrm);
        m.normals.push(nrm);
        m.normals.push(nrm);
        m.normals.push(nrm);
        m.uvs.push((0, 0));
        m.uvs.push((1, 0));
        m.uvs.push((1, 1));
        m.uvs.push((0, 1));
        m.indices.push(start);
        m.indices.push(start + 2);
        m.indices.push(start + 1);
        m.indices.push(start);
        m.indices.push(start + 3);
        m.indices.push(start + 2);
        proof {
            let jj = j as int;
            let bpos = Seq::new(4, |k: int| vert_pos(d, quads@[jj], k, off));
            assert(quad_fits(quads@[jj], off));
            assert(bpos[0] == p0 && bpos[1] == p1 && bpos[2] == p2 && bpos[3] == p3);
            lemma_seq_positions_snoc(d, quads@, jj, off);
            assert(m.positions@ =~= prev_pos + bpos);
            assert(m.positions@ =~= old(m).positions@ + seq_positions(
                d,
                quads@.subrange(0, jj + 1),
                off,
            ));
            let bnrm = Seq::new(4, |k: int| normal_val(d));
            lemma_seq_normals_snoc(d, j as nat);
            assert(m.normals@ =~= prev_nrm + bnrm);
            assert(m.normals@ =~= old(m).normals@ + seq_normals(d, (j + 1) as nat));
            let buv = Seq::new(4, |k: int| uv_val(k));
            lemma_seq_uvs_snoc(j as nat);
            assert(m.uvs@ =~= prev_uv + buv);
            assert(m.uvs@ =~= old(m).uvs@ + seq_uvs((j + 1) as nat));
            let bidx = Seq::new(6, |t: int| (base + 4 * jj + tri_pattern(t)) as u32);
            assert(start == base + 4 * jj);
            assert(bidx[0] == start && bidx[1] == start + 2 && bidx[2] == start + 1);
            assert(bidx[3] == start && bidx[4] == start + 3 && bidx[5] == start + 2);
            lemma_seq_indices_snoc(j as nat, base);
            assert(m.indices@ =~= prev_idx + bidx);
            assert(m.indices@ =~= old(m).indices@ + seq_indices((j + 1) as nat, base));
        }
        j = j + 1;
    }
    proof {
        assert(quads@.subrange(0, n as int) =~= quads@);
    }
}

/// Builds the renderable buffers for the six quad buckets, translated by
/// their world offset. The output is pinned exactly: each bucket
/// contributes four vertices, four normals, four UVs and six indices per
/// quad, in bucket order Left, Right, Bottom, Top, Front, Back.
pub fn build_mesh(groups: &QuadGroups) -> (m: MeshBuffer)
    requires
        groups_fit(*groups),
    ensures
        is_mesh_of(m, *groups),
{
    let mut m = MeshBuffer {
        positions: Vec::new(),
        normals: Vec::new(),
        uvs: Vec::new(),
        indices: Vec::new(),
    };
    let off = groups.offset;
    proof {
        assert(Seq::<(usize, usize, usize)>::empty() + seq_positions(Direction::Left, groups.left@, off)
            =~= seq_positions(Direction::Left, groups.left@, off));
        assert(Seq::<(i8, i8, i8)>::empty() + seq_normals(Direction::Left, groups.left@.len())
            =~= seq_normals(Direction::Left, groups.left@.len()));
        assert(Seq::<(u8, u8)>::empty() + seq_uvs(groups.left@.len()) =~= seq_uvs(
            groups.left@.len(),
        ));
        assert(Seq::<u32>::empty() + seq_indices(groups.left@.len(), 0) =~= seq_indices(
            groups.left@.len(),
            0,
        ));
    }
    emit_group(Direction::Left, &groups.left, off, &mut m);
    emit_group(Direction::Right, &groups.right, off, &mut m);
    emit_group(Direction::Bottom, &groups.bottom, off, &mut m);
    emit_group(Direction::Top, &groups.top, off, &mut m);
    emit_group(Direction::Front, &groups.front, off, &mut m);
    emit_group(Direction::Back, &groups.back, off, &mut m);
    m
}

/// Buckets that came out of the face scan satisfy `build_mesh`'s bounds
/// whenever the world offset leaves room for one chunk: every quad is a
/// unit quad inside the grid, and the six buckets together can never
/// outgrow the `u32` index format.
pub proof fn lemma_scanned_groups_fit(c: Chunk, g: QuadGroups)
    requires
        crate::mesh::quads_ok(c, g),
        g.offset.0 <= usize::MAX - CHUNK_BOUNDARY - 2,
        g.offset.1 <= usize::MAX - CHUNK_BOUNDARY - 2,
        g.offset.2 <= usize::MAX - CHUNK_BOUNDARY - 2,
    ensures
        groups_fit(g),
{
    assert(crate::mesh::group_ok(c, Direction::Left, g.group(Direction::Left)));
    assert(crate::mesh::group_ok(c, Direction::Right, g.group(Direction::Right)));
    assert(crate::mesh::group_ok(c, Direction::Bottom, g.group(Direction::Bottom)));
    assert(crate::mesh::group_ok(c, Direction::Top, g.group(Direction::Top)));
    assert(crate::mesh::group_ok(c, Direction::Front, g.group(Direction::Front)));
    assert(crate::mesh::group_ok(c, Direction::Back, g.group(Direction::Back)));
    crate::mesh::lemma_group_len_bound(c, Direction::Left, g.left@);
    crate::mesh::lemma_group_len_bound(c, Direction::Right, g.right@);
    crate::mesh::lemma_group_len_bound(c, Direction::Bottom, g.bottom@);
    crate::mesh::lemma_group_len_bound(c, Direction::Top, g.top@);
    crate::mesh::lemma_group_len_bound(c, Direction::Front, g.front@);
    crate::mesh::lemma_group_len_bound(c, Direction::Back, g.back@);
    assert forall|i: int| 0 <= i < g.left@.len() implies quad_fits(
        #[trigger] g.left@[i],
        g.offset,
    ) by {
        assert(crate::mesh::quad_sound(c, Direction::Left, g.left@[i]));
    }
    assert forall|i: int| 0 <= i < g.right@.len() implies quad_fits(
        #[trigger] g.right@[i],
        g.offset,
    ) by {
        assert(crate::mesh::quad_sound(c, Direction::Right, g.right@[i]));
    }
    assert forall|i: int| 0 <= i < g.bottom@.len() implies quad_fits(
        #[trigger] g.bottom@[i],
        g.offset,
    ) by {
        assert(crate::mesh::quad_sound(c, Direction::Bottom, g.bottom@[i]));
    }
    assert forall|i: int| 0 <= i < g.top@.len() implies quad_fits(
        #[trigger] g.top@[i],
        g.offset,
    ) by {
        assert(crate::mesh::quad_sound(c, Direction::Top, g.top@[i]));
    }
    assert forall|i: int| 0 <= i < g.front@.len() implies quad_fits(
        #[trigger] g.front@[i],
        g.offset,
    ) by {
        assert(crate::mesh::quad_sound(c, Direction::Front, g.front@[i]));
    }
    assert forall|i: int| 0 <= i < g.back@.len() implies quad_fits(
        #[trigger] g.back@[i],
        g.offset,
    ) by {
        assert(crate::mesh::quad_sound(c, Direction::Back, g.back@[i]));
    }
}

/// The buffers are the mesh of the grid: the quads are exactly the grid's
/// visible interior faces, anchored at the grid's own world offset, and
/// the buffers are exactly their geometry.
pub open spec fn chunk_mesh_ok(c: Chunk, g: QuadGroups, m: MeshBuffer) -> bool {
    &&& crate::mesh::quads_ok(c, g)
    &&& g.offset == c.spec_offset()
    &&& is_mesh_of(m, g)
}

/// Meshes one finished grid: scans its visible interior faces, anchors
/// them at the grid's world offset, and builds the renderable buffers.
/// Returns the quad buckets beside the buffers, so callers can keep the
/// per-direction grouping.
pub fn mesh_chunk(chunk: &Chunk) -> (r: (QuadGroups, MeshBuffer))
    requires
        chunk.wf(),
        chunk.spec_offset().0 <= usize::MAX - CHUNK_BOUNDARY - 2,
        chunk.spec_offset().1 <= usize::MAX - CHUNK_BOUNDARY - 2,
        chunk.spec_offset().2 <= usize::MAX - CHUNK_BOUNDARY - 2,
    ensures
        chunk_mesh_ok(*chunk, r.0, r.1),
{
    let scanned = crate::mesh::generate_quads(chunk);
    let ghost scanned_groups = scanned;
    let groups = scanned.with_offset(chunk.offset());
    proof {
        assert forall|d: Direction| crate::mesh::group_ok(
            *chunk,
            d,
            #[trigger] groups.group(d),
        ) by {
            assert(groups.group(d) == scanned_groups.group(d)) by {
                match d {
                    Direction::Left => assert(groups.left@ == scanned_groups.left@),
                    Direction::Right => assert(groups.right@ == scanned_groups.right@),
                    Direction::Bottom => assert(groups.bottom@ == scanned_groups.bottom@),
                    Direction::Top => assert(groups.top@ == scanned_groups.top@),
                    Direction::Front => assert(groups.front@ == scanned_groups.front@),
                    Direction::Back => assert(groups.back@ == scanned_groups.back@),
                }
            }
        }
        lemma_scanned_groups_fit(*chunk, groups);
    }
    let mesh = build_mesh(&groups);
    (groups, mesh)
}

/// The cross product of two integer vectors.
pub open spec fn cross(a: (int, int, int), b: (int, int, int)) -> (int, int, int) {
    (a.1 * b.2 - a.2 * b.1, a.2 * b.0 - a.0 * b.2, a.0 * b.1 - a.1 * b.0)
}

/// The difference of two integer vectors.
pub open spec fn vec_sub(a: (int, int, int), b: (int, int, int)) -> (int, int, int) {
    (a.0 - b.0, a.1 - b.1, a.2 - b.2)
}

/// Law: the winding of every quad's first triangle matches its direction.
/// The cross product of the triangle's two edge vectors is the direction's
/// outward normal, scaled by the quad's (positive) area — so the face is
/// never inverted, whatever the direction and extent.
pub proof fn lemma_winding_outward(d: Direction, q: Quad)
    requires
        q.width >= 1,
        q.height >= 1,
    ensures
        ({
            let a = corner(d, q, tri_pattern(0));
            let b = corner(d, q, tri_pattern(1));
            let c = corner(d, q, tri_pattern(2));
            let n = dir_normal(d);
            let s = (q.width as int) * (q.height as int);
            &&& s >= 1
            &&& cross(vec_sub(b, a), vec_sub(c, a)) == (s * n.0, s * n.1, s * n.2)
        }),
{
    let w = q.width as int;
    let h = q.height as int;
    vstd::arithmetic::mul::lemma_mul_is_commutative(w, h);
    vstd::arithmetic::mul::lemma_mul_strictly_positive(w, h);
    let a = corner(d, q, tri_pattern(0));
    let b = corner(d, q, tri_pattern(1));
    let c = corner(d, q, tri_pattern(2));
    let e1 = vec_sub(b, a);
    let e2 = vec_sub(c, a);
    let n = dir_normal(d);
    let s = w * h;
    vstd::arithmetic::mul::lemma_mul_basics(s);
    vstd::arithmetic::mul::lemma_mul_is_commutative(s, -1);
    vstd::arithmetic::mul::lemma_mul_unary_negation(1, s);
    vstd::arithmetic::mul::lemma_mul_basics(1);
    match d {
        Direction::Left => {
            assert(e1 == (0int, h, w) && e2 == (0int, h, 0int));
            assert(cross(e1, e2) == (h * 0 - w * h, w * 0 - 0 * 0, 0 * h - h * 0));
            assert(n == (-1int, 0int, 0int));
            assert(s * n.0 == -(w * h) && s * n.1 == 0 && s * n.2 == 0);
            assert(cross(e1, e2) == (s * n.0, s * n.1, s * n.2));
        },
        Direction::Right => {
            assert(e1 == (0int, h, w) && e2 == (0int, 0int, w));
            assert(cross(e1, e2) == (h * w - w * 0, w * 0 - 0 * w, 0 * 0 - h * 0));
        },
        Direction::Bottom => {
            assert(e1 == (w, 0int, h) && e2 == (0int, 0int, h));
            assert(cross(e1, e2) == (0 * h - h * 0, h * 0 - w * h, w * 0 - 0 * 0));
        },
        Direction::Top => {
            assert(e1 == (w, 0int, h) && e2 == (w, 0int, 0int));
            assert(cross(e1, e2) == (0 * 0 - h * 0, h * w - w * 0, w * 0 - 0 * w));
        },
        Direction::Front => {
            assert(e1 == (w, h, 0int) && e2 == (w, 0int, 0int));
            assert(cross(e1, e2) == (h * 0 - 0 * 0, 0 * w - w * 0, w * 0 - h * w));
        },
        Direction::Back => {
            assert(e1 == (w, h, 0int) && e2 == (0int, h, 0int));
            assert(cross(e1, e2) == (h * 0 - 0 * h, 0 * 0 - w * 0, w * h - h * 0));
        },
    }
}

/// The j-th quad in emission order, tagged with its direction.
pub open spec fn quad_seq(g: QuadGroups) -> Seq<(Direction, Quad)> {
    g.left@.map_values(|q: Quad| (Direction::Left, q)) + g.right@.map_values(
        |q: Quad| (Direction::Right, q),
    ) + g.bottom@.map_values(|q: Quad| (Direction::Bottom, q)) + g.top@.map_values(
        |q: Quad| (Direction::Top, q),
    ) + g.front@.map_values(|q: Quad| (Direction::Front, q)) + g.back@.map_values(
        |q: Quad| (Direction::Back, q),
    )
}

/// Locates vertex slot `v` of a built mesh: it is corner `v % 4` of the
/// quad `v / 4` in emission order, translated by the groups' offset.
pub proof fn lemma_positions_index(g: QuadGroups, m: MeshBuffer, v: int)
    requires
        is_mesh_of(m, g),
        groups_fit(g),
        0 <= v < m.positions@.len(),
    ensures
        m.positions@.len() == 4 * total_quads(g),
        quad_seq(g).len() == total_quads(g),
        0 <= v / 4 < total_quads(g),
        0 <= v % 4 < 4,
        quad_fits(quad_seq(g)[v / 4].1, g.offset),
        m.positions@[v] == vert_pos(quad_seq(g)[v / 4].0, quad_seq(g)[v / 4].1, v % 4, g.offset),
{
    let off = g.offset;
    let sl = g.left@;
    let sr = g.right@;
    let sb = g.bottom@;
    let st = g.top@;
    let sf = g.front@;
    let sk = g.back@;
    let p1 = sl.len() as int;
    let p2 = p1 + sr.len();
    let p3 = p2 + sb.len();
    let p4 = p3 + st.len();
    let p5 = p4 + sf.len();
    let p6 = p5 + sk.len();
    vstd::arithmetic::div_mod::lemma_fundamental_div_mod(v, 4);
    vstd::arithmetic::div_mod::lemma_mod_bound(v, 4);
    if v < 4 * p1 {
        let u = v;
        vstd::arithmetic::div_mod::lemma_fundamental_div_mod(u, 4);
        lemma_split4(0 + u / 4, u % 4);
        assert(m.positions@[v] == seq_positions(Direction::Left, sl, off)[u]);
        assert(quad_seq(g)[v / 4] == (Direction::Left, sl[u / 4]));
    } else if v < 4 * p2 {
        let u = v - 4 * p1;
        vstd::arithmetic::div_mod::lemma_fundamental_div_mod(u, 4);
        vstd::arithmetic::div_mod::lemma_mod_bound(u, 4);
        lemma_split4(p1 + u / 4, u % 4);
        assert(m.positions@[v] == seq_positions(Direction::Right, sr, off)[u]);
        assert(quad_seq(g)[v / 4] == (Direction::Right, sr[u / 4]));
    } else if v < 4 * p3 {
        let u = v - 4 * p2;
        vstd::arithmetic::div_mod::lemma_fundamental_div_mod(u, 4);
        vstd::arithmetic::div_mod::lemma_mod_bound(u, 4);
        lemma_split4(p2 + u / 4, u % 4);
        assert(m.positions@[v] == seq_positions(Direction::Bottom, sb, off)[u]);
        assert(quad_seq(g)[v / 4] == (Direction::Bottom, sb[u / 4]));
    } else if v < 4 * p4 {
        let u = v - 4 * p3;
        vstd::arithmetic::div_mod::lemma_fundamental_div_mod(u, 4);
        vstd::arithmetic::div_mod::lemma_mod_bound(u, 4);
        lemma_split4(p3 + u / 4, u % 4);
        assert(m.positions@[v] == seq_positions(Direction::Top, st, off)[u]);
        assert(quad_seq(g)[v / 4] == (Direction::Top, st[u / 4]));
    } else if v < 4 * p5 {
        let u = v - 4 * p4;
        vstd::arithmetic::div_mod::lemma_fundamental_div_mod(u, 4);
        vstd::arithmetic::div_mod::lemma_mod_bound(u, 4);
        lemma_split4(p4 + u / 4, u % 4);
        assert(m.positions@[v] == seq_positions(Direction::Front, sf, off)[u]);
        assert(quad_seq(g)[v / 4] == (Direction::Front, sf[u / 4]));
    } else {
        let u = v - 4 * p5;
        vstd::arithmetic::div_mod::lemma_fundamental_div_mod(u, 4);
        vstd::arithmetic::div_mod::lemma_mod_bound(u, 4);
        lemma_split4(p5 + u / 4, u % 4);
        assert(m.positions@[v] == seq_positions(Direction::Back, sk, off)[u]);
        assert(quad_seq(g)[v / 4] == (Direction::Back, sk[u / 4]));
    }
}

/// Law: meshing the same quads at two different world offsets gives the
/// same topology — identical indices, normals and UVs — and vertex sets
/// that differ, vertex by vertex, by exactly the difference of the offsets.
pub proof fn lemma_offset_translation(g1: QuadGroups, g2: QuadGroups, m1: MeshBuffer, m2: MeshBuffer)
    requires
        g1.same_quads(g2),
        groups_fit(g1),
        groups_fit(g2),
        is_mesh_of(m1, g1),
        is_mesh_of(m2, g2),
    ensures
        m1.normals@ == m2.normals@,
        m1.uvs@ == m2.uvs@,
        m1.indices@ == m2.indices@,
        m1.positions@.len() == m2.positions@.len(),
        forall|v: int|
            0 <= v < m1.positions@.len() ==> {
                let a = #[trigger] m1.positions@[v];
                let b = m2.positions@[v];
                &&& a.0 + g2.offset.0 == b.0 + g1.offset.0
                &&& a.1 + g2.offset.1 == b.1 + g1.offset.1
                &&& a.2 + g2.offset.2 == b.2 + g1.offset.2
            },
{
    assert forall|v: int|
        0 <= v < m1.positions@.len() implies {
        let a = #[trigger] m1.positions@[v];
        let b = m2.positions@[v];
        &&& a.0 + g2.offset.0 == b.0 + g1.offset.0
        &&& a.1 + g2.offset.1 == b.1 + g1.offset.1
        &&& a.2 + g2.offset.2 == b.2 + g1.offset.2
    } by {
        lemma_positions_index(g1, m1, v);
        lemma_positions_index(g2, m2, v);
        assert(quad_seq(g1) == quad_seq(g2));
    }
}

} // verus!
