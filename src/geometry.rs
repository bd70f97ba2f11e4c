//! Decoding of mesh attribute buffers into points and triangles.
//!
//! A position component is carried as the bit pattern of its 32-bit float:
//! the decoding only regroups components and never looks at their values,
//! so the data passes through unchanged.
use vstd::prelude::*;

verus! {

/// One vertex position; each coordinate is the raw bit pattern of a 32-bit float.
#[derive(Clone, Copy, Debug, PartialEq, Eq, Structural)]
pub struct Point {
    pub x: u32,
    pub y: u32,
    pub z: u32,
}

/// Three vertex indices forming one triangle.
#[derive(Clone, Copy, Debug, PartialEq, Eq, Structural)]
pub struct Triangle {
    pub a: u32,
    pub b: u32,
    pub c: u32,
}

/// The encodings a position attribute may be stored in.
#[derive(Debug)]
pub enum Positions {
    /// A flat run of float components, read three at a time.
    Flat(Vec<u32>),
    /// One entry per vertex.
    Triples(Vec<Point>),
    /// Any other numeric encoding; it carries no usable positions.
    Unsupported,
}

/// The encodings an index buffer may be stored in.
#[derive(Debug)]
pub enum Indices {
    U16(Vec<u16>),
    U32(Vec<u32>),
}

/// The attributes of a mesh resource that collider synthesis reads.
#[derive(Debug)]
pub struct MeshData {
    pub positions: Option<Positions>,
    pub indices: Option<Indices>,
}

/// Points and triangles decoded from a mesh, with no transformation applied.
#[derive(Debug)]
pub struct Geometry {
    pub vertices: Vec<Point>,
    pub triangles: Vec<Triangle>,
}

/// Consecutive groups of three components, each one point; a trailing
/// partial group yields nothing.
pub open spec fn points_of_flat(s: Seq<u32>) -> Seq<Point> {
    Seq::new(s.len() / 3, |i: int| Point { x: s[3 * i], y: s[3 * i + 1], z: s[3 * i + 2] })
}

/// Consecutive groups of three indices, each one triangle; a trailing
/// partial group yields nothing.
pub open spec fn triangles_of(s: Seq<u32>) -> Seq<Triangle> {
    Seq::new(s.len() / 3, |i: int| Triangle { a: s[3 * i], b: s[3 * i + 1], c: s[3 * i + 2] })
}

/// 16-bit indices widened to 32 bits.
pub open spec fn widen(s: Seq<u16>) -> Seq<u32> {
    Seq::new(s.len(), |i: int| s[i] as u32)
}

/// The points a position attribute holds, or `None` for an unsupported encoding.
pub open spec fn points_of(p: Positions) -> Option<Seq<Point>> {
    match p {
        Positions::Flat(v) => Some(points_of_flat(v@)),
        Positions::Triples(v) => Some(v@),
        Positions::Unsupported => None,
    }
}

/// The index values of a buffer, widened to 32 bits.
pub open spec fn index_values(i: Indices) -> Seq<u32> {
    match i {
        Indices::U16(v) => widen(v@),
        Indices::U32(v) => v@,
    }
}

/// The triangles an index buffer holds.
pub open spec fn triangles_from(i: Indices) -> Seq<Triangle> {
    triangles_of(index_values(i))
}

/// What extraction yields for a mesh: its points and triangles, or `None`
/// when the positions or the indices are absent or the positions are
/// stored in an unsupported encoding.
pub open spec fn extracted(m: MeshData) -> Option<(Seq<Point>, Seq<Triangle>)> {
    match (m.positions, m.indices) {
        (Some(p), Some(i)) => match points_of(p) {
            Some(pts) => Some((pts, triangles_from(i))),
            None => None,
        },
        _ => None,
    }
}

/// The group that starts at `3 * i` lies within a buffer of `len` entries.
proof fn lemma_group_in_bounds(i: int, len: int)
    requires
        0 <= i < len / 3,
    ensures
        3 * i + 2 < len,
{
}

/// Groups a flat run of components into points.
pub fn group_points(flat: &Vec<u32>) -> (r: Vec<Point>)
    ensures
        r@ == points_of_flat(flat@),
{
    let n: usize = flat.len() / 3;
    let mut r: Vec<Point> = Vec::new();
    let mut i: usize = 0;
    while i < n
        invariant
            n == flat@.len() / 3,
            flat@.len() <= usize::MAX,
            i <= n,
            r@.len() == i,
            forall|j: int| 0 <= j < i ==> #[trigger] r@[j] == points_of_flat(flat@)[j],
        decreases n - i,
    {
        proof {
            lemma_group_in_bounds(i as int, flat@.len() as int);
        }
        let k: usize = 3 * i;
        r.push(Point { x: flat[k], y: flat[k + 1], z: flat[k + 2] });
        i = i + 1;
    }
    assert(r@ =~= points_of_flat(flat@));
    r
}

/// Groups 32-bit indices into triangles.
pub fn group_triangles(idx: &Vec<u32>) -> (r: Vec<Triangle>)
    ensures
        r@ == triangles_of(idx@),
{
    let n: usize = idx.len() / 3;
    let mut r: Vec<Triangle> = Vec::new();
    let mut i: usize = 0;
    while i < n
        invariant
            n == idx@.len() / 3,
            idx@.len() <= usize::MAX,
            i <= n,
            r@.len() == i,
            forall|j: int| 0 <= j < i ==> #[trigger] r@[j] == triangles_of(idx@)[j],
        decreases n - i,
    {
        proof {
            lemma_group_in_bounds(i as int, idx@.len() as int);
        }
        let k: usize = 3 * i;
        r.push(Triangle { a: idx[k], b: idx[k + 1], c: idx[k + 2] });
        i = i + 1;
    }
    assert(r@ =~= triangles_of(idx@));
    r
}

/// Groups 16-bit indices into triangles, widening each index.
pub fn group_triangles_u16(idx: &Vec<u16>) -> (r: Vec<Triangle>)
    ensures
        r@ == triangles_of(widen(idx@)),
{
    let n: usize = idx.len() / 3;
    let mut r: Vec<Triangle> = Vec::new();
    let mut i: usize = 0;
    while i < n
        invariant
            n == idx@.len() / 3,
            idx@.len() <= usize::MAX,
            i <= n,
            r@.len() == i,
            forall|j: int| 0 <= j < i ==> #[trigger] r@[j] == triangles_of(widen(idx@))[j],
        decreases n - i,
    {
        proof {
            lemma_group_in_bounds(i as int, idx@.len() as int);
        }
        let k: usize = 3 * i;
        r.push(Triangle { a: idx[k] as u32, b: idx[k + 1] as u32, c: idx[k + 2] as u32 });
        i = i + 1;
    }
    assert(r@ =~= triangles_of(widen(idx@)));
    r
}

/// Decodes the triangles of an index buffer.
pub fn decode_indices(i: &Indices) -> (r: Vec<Triangle>)
    ensures
        r@ == triangles_from(*i),
{
    match i {
        Indices::U16(v) => group_triangles_u16(v),
        Indices::U32(v) => group_triangles(v),
    }
}

/// Decodes the points of a position attribute; `None` for an unsupported encoding.
pub fn decode_positions(p: &Positions) -> (r: Option<Vec<Point>>)
    ensures
        match (r, points_of(*p)) {
            (Some(v), Some(s)) => v@ == s,
            (None, None) => true,
            _ => false,
        },
{
    match p {
        Positions::Flat(v) => Some(group_points(v)),
        Positions::Triples(v) => Some(v.clone()),
        Positions::Unsupported => None,
    }
}

/// Extracts the points and triangles of a mesh, or `None` where it has no
/// position attribute, no index buffer, or positions in an unsupported encoding.
pub fn extract_geometry(mesh: &MeshData) -> (r: Option<Geometry>)
    ensures
        match (r, extracted(*mesh)) {
            (Some(g), Some((pts, tris))) => g.vertices@ == pts && g.triangles@ == tris,
            (None, None) => true,
            _ => false,
        },
{
    match (&mesh.positions, &mesh.indices) {
        (Some(p), Some(i)) => match decode_positions(p) {
            Some(vertices) => Some(Geometry { vertices, triangles: decode_indices(i) }),
            None => None,
        },
        _ => None,
    }
}

/// Grouping by three ignores whatever follows the last whole group.
proof fn lemma_triangles_whole_prefix(s: Seq<u32>)
    ensures
        triangles_of(s) == triangles_of(s.take(s.len() - s.len() % 3)),
{
    assert(triangles_of(s) =~= triangles_of(s.take(s.len() - s.len() % 3)));
}

/// Grouping by three ignores whatever follows the last whole group.
proof fn lemma_points_whole_prefix(s: Seq<u32>)
    ensures
        points_of_flat(s) == points_of_flat(s.take(s.len() - s.len() % 3)),
{
    assert(points_of_flat(s) =~= points_of_flat(s.take(s.len() - s.len() % 3)));
}

/// Flat positions whose length is not a multiple of three lose their
/// trailing partial group: extraction yields `len / 3` points, those of the
/// longest prefix whose length is a multiple of three, and drops one or two
/// components.
pub proof fn lemma_flat_positions_drop_partial_group(m: MeshData, flat: Vec<u32>)
    requires
        m.positions == Some(Positions::Flat(flat)),
        m.indices is Some,
        flat@.len() % 3 != 0,
    ensures
        extracted(m) is Some,
        extracted(m).unwrap().0.len() == flat@.len() / 3,
        extracted(m).unwrap().0 == points_of_flat(flat@.take(flat@.len() - flat@.len() % 3)),
        1 <= flat@.len() - 3 * (flat@.len() / 3) <= 2,
{
    lemma_points_whole_prefix(flat@);
}

/// Positions stored one entry per vertex give exactly one point per entry,
/// in the same order.
pub proof fn lemma_triple_positions_kept(m: MeshData, triples: Vec<Point>)
    requires
        m.positions == Some(Positions::Triples(triples)),
        m.indices is Some,
    ensures
        extracted(m) is Some,
        extracted(m).unwrap().0.len() == triples@.len(),
        forall|k: int| 0 <= k < triples@.len() ==> #[trigger] extracted(m).unwrap().0[k] == triples@[k],
{
}

/// A mesh without a position attribute or without an index buffer yields no geometry.
pub proof fn lemma_missing_attribute_yields_nothing(m: MeshData)
    requires
        m.positions is None || m.indices is None,
    ensures
        extracted(m) is None,
{
}

/// An index buffer whose length is not a multiple of three loses its final
/// partial group: its triangles are those of the longest prefix whose length
/// is a multiple of three, `len / 3` of them.
pub proof fn lemma_partial_index_group_dropped(i: Indices)
    requires
        index_values(i).len() % 3 != 0,
    ensures
        triangles_from(i).len() == index_values(i).len() / 3,
        triangles_from(i) == triangles_of(
            index_values(i).take(index_values(i).len() - index_values(i).len() % 3),
        ),
{
    lemma_triangles_whole_prefix(index_values(i));
}

} // verus!
