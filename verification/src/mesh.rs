//! Mesh topology, independent of how vertex positions are represented:
//! polygon faces, their fan triangulation, and the set of edges a mesh's
//! triangles use.
use vstd::prelude::*;

verus! {

broadcast use vstd::std_specs::hash::group_hash_axioms;

/// One polygon face: the ordered vertex indices of its corners.
#[derive(Debug, Clone, PartialEq, Eq)]
pub struct Face {
    pub indices: Vec<usize>,
}

/// The fan triangulation of a polygon: `(ix[0], ix[i], ix[i + 1])` for
/// every `i` in `1..ix.len() - 1`.
pub open spec fn fan(ix: Seq<usize>) -> Seq<(usize, usize, usize)> {
    Seq::new(
        if ix.len() >= 2 { (ix.len() - 2) as nat } else { 0 },
        |i: int| (ix[0], ix[i + 1], ix[i + 2]),
    )
}

impl Face {
    pub fn triangle(a: usize, b: usize, c: usize) -> (f: Self)
        ensures
            f.indices@ == seq![a, b, c],
    {
        let mut indices: Vec<usize> = Vec::new();
        indices.push(a);
        indices.push(b);
        indices.push(c);
        assert(indices@ =~= seq![a, b, c]);
        Face { indices }
    }

    /// Fan-triangulates the face (right for convex faces).
    pub fn triangles(&self) -> (r: Vec<(usize, usize, usize)>)
        requires
            self.indices@.len() >= 1,
        ensures
            r@ == fan(self.indices@),
    {
        let ix = &self.indices;
        let first = ix[0];
        let mut out: Vec<(usize, usize, usize)> = Vec::new();
        let mut i: usize = 1;
        while i < ix.len() - 1
            invariant
                ix@.len() >= 1,
                1 <= i <= ix@.len(),
                i == 1 || i <= ix@.len() - 1,
                first == ix@[0],
                out@ == fan(ix@).take(i - 1),
            decreases ix@.len() - i,
        {
            out.push((first, ix[i], ix[i + 1]));
            i = i + 1;
            assert(out@ =~= fan(ix@).take(i - 1));
        }
        assert(out@ =~= fan(ix@));
        out
    }
}

/// An undirected edge, smaller index first.
pub open spec fn edge_key(x: usize, y: usize) -> (usize, usize) {
    if x < y { (x, y) } else { (y, x) }
}

/// The three edges of triangle `t` of a face's fan: `ab`, `bc`, `ca`.
pub open spec fn fan_edge(ix: Seq<usize>, t: int, w: int) -> (usize, usize) {
    let (a, b, c) = fan(ix)[t];
    if w == 0 { edge_key(a, b) } else if w == 1 { edge_key(b, c) } else { edge_key(c, a) }
}

/// Every edge of a face's triangles, triangle by triangle.
pub open spec fn face_edges(ix: Seq<usize>) -> Seq<(usize, usize)> {
    Seq::new(3 * fan(ix).len(), |i: int| fan_edge(ix, i / 3, i % 3))
}

/// The corner indices of each face.
pub open spec fn face_views(faces: Seq<Face>) -> Seq<Seq<usize>> {
    faces.map_values(|f: Face| f.indices@)
}

/// Every edge of every polygon's triangles, polygon by polygon.
pub open spec fn polygon_edges(polys: Seq<Seq<usize>>) -> Seq<(usize, usize)> {
    polys.map_values(|ix: Seq<usize>| face_edges(ix)).flatten()
}

/// Every edge of every face's triangles, face by face.
pub open spec fn mesh_edges(faces: Seq<Face>) -> Seq<(usize, usize)> {
    polygon_edges(face_views(faces))
}

pub proof fn lemma_polygon_edges_push(polys: Seq<Seq<usize>>, ix: Seq<usize>)
    ensures
        polygon_edges(polys.push(ix)) == polygon_edges(polys) + face_edges(ix),
{
    let g = |p: Seq<usize>| face_edges(p);
    assert(polys.push(ix).map_values(g) =~= polys.map_values(g).push(g(ix)));
    polys.map_values(g).lemma_flatten_push(g(ix));
}

/// `s` with every element after its first occurrence removed.
pub open spec fn first_occurrences<A>(s: Seq<A>) -> Seq<A>
    decreases s.len(),
{
    if s.len() == 0 {
        s
    } else {
        let d = first_occurrences(s.drop_last());
        if d.contains(s.last()) { d } else { d.push(s.last()) }
    }
}

/// Keeping first occurrences leaves each element exactly once, and
/// exactly the elements there were.
pub proof fn lemma_first_occurrences<A>(s: Seq<A>)
    ensures
        first_occurrences(s).no_duplicates(),
        forall|e: A| #[trigger] first_occurrences(s).contains(e) <==> s.contains(e),
    decreases s.len(),
{
    if s.len() > 0 {
        let p = s.drop_last();
        lemma_first_occurrences(p);
        let d = first_occurrences(p);
        let r = first_occurrences(s);
        let last = s.last();
        assert forall|e: A| #[trigger] r.contains(e) <==> s.contains(e) by {
            if s.contains(e) {
                let i = choose|i: int| 0 <= i < s.len() && s[i] == e;
                if i < s.len() - 1 {
                    assert(p[i] == e);
                }
            }
            if p.contains(e) {
                let i = choose|i: int| 0 <= i < p.len() && p[i] == e;
                assert(s[i] == e);
            }
            if e == last {
                assert(s[s.len() - 1] == e);
            }
            if !d.contains(last) {
                assert(r == d.push(last));
                if r.contains(e) {
                    let i = choose|i: int| 0 <= i < r.len() && r[i] == e;
                    if i < d.len() {
                        assert(d[i] == e);
                    }
                }
                if d.contains(e) {
                    let i = choose|i: int| 0 <= i < d.len() && d[i] == e;
                    assert(r[i] == e);
                }
                if e == last {
                    assert(r[d.len() as int] == e);
                }
            }
        }
        if !d.contains(last) {
            assert forall|i: int, j: int| 0 <= i < r.len() && 0 <= j < r.len() && i != j implies r[i] != r[j] by {
                if i == d.len() {
                    assert(d[j] != last);
                } else if j == d.len() {
                    assert(d[i] != last);
                }
            }
        }
    }
}

spec fn edge_code_spec(e: (usize, usize)) -> int {
    e.0 * 0x1_0000_0000_0000_0000 + e.1
}

proof fn lemma_edge_code_injective(a: (usize, usize), b: (usize, usize))
    requires
        edge_code_spec(a) == edge_code_spec(b),
    ensures
        a == b,
{
    let (x1, y1) = a;
    let (x2, y2) = b;
    assert(x1 == x2 && y1 == y2) by (nonlinear_arith)
        requires
            x1 * 0x1_0000_0000_0000_0000 + y1 == x2 * 0x1_0000_0000_0000_0000 + y2,
            0 <= y1 < 0x1_0000_0000_0000_0000,
            0 <= y2 < 0x1_0000_0000_0000_0000,
            0 <= x1,
            0 <= x2,
    ;
}

fn edge_code(e: (usize, usize)) -> (k: u128)
    ensures
        k == edge_code_spec(e),
{
    assert(e.0 * 0x1_0000_0000_0000_0000 + e.1 <= 0xFFFF_FFFF_FFFF_FFFF * 0x1_0000_0000_0000_0000
        + 0xFFFF_FFFF_FFFF_FFFF) by (nonlinear_arith)
        requires
            e.0 <= 0xFFFF_FFFF_FFFF_FFFF,
            e.1 <= 0xFFFF_FFFF_FFFF_FFFF,
    ;
    (e.0 as u128) * 0x1_0000_0000_0000_0000u128 + (e.1 as u128)
}

fn key(x: usize, y: usize) -> (e: (usize, usize))
    ensures
        e == edge_key(x, y),
{
    if x < y { (x, y) } else { (y, x) }
}

/// Every edge of every face's triangles, in order.
fn all_edges(faces: &Vec<Face>) -> (r: Vec<(usize, usize)>)
    requires
        forall|f: int| 0 <= f < faces@.len() ==> #[trigger] faces@[f].indices@.len() >= 1,
    ensures
        r@ == mesh_edges(faces@),
{
    let mut out: Vec<(usize, usize)> = Vec::new();
    let mut f: usize = 0;
    while f < faces.len()
        invariant
            f <= faces@.len(),
            forall|g: int| 0 <= g < faces@.len() ==> #[trigger] faces@[g].indices@.len() >= 1,
            out@ == mesh_edges(faces@.take(f as int)),
        decreases faces@.len() - f,
    {
        let face = &faces[f];
        let tris = face.triangles();
        let ghost start = out@;
        let ghost ix = face.indices@;
        let mut t: usize = 0;
        while t < tris.len()
            invariant
                t <= tris@.len(),
                tris@ == fan(ix),
                out@ == start + face_edges(ix).take(3 * t),
            decreases tris@.len() - t,
        {
            let (a, b, c) = tris[t];
            out.push(key(a, b));
            out.push(key(b, c));
            out.push(key(c, a));
            t = t + 1;
            assert(out@ =~= start + face_edges(ix).take(3 * t));
        }
        assert(face_edges(ix).take(3 * t) =~= face_edges(ix));
        proof {
            assert(face_views(faces@.take(f + 1)) =~= face_views(faces@.take(f as int)).push(ix));
            lemma_polygon_edges_push(face_views(faces@.take(f as int)), ix);
        }
        f = f + 1;
    }
    assert(faces@.take(faces@.len() as int) =~= faces@);
    out
}

/// Every edge of the faces' fan triangulations, each once (smaller index
/// first), in the order the edges first appear.
pub fn unique_edges(faces: &Vec<Face>) -> (r: Vec<(usize, usize)>)
    requires
        forall|f: int| 0 <= f < faces@.len() ==> #[trigger] faces@[f].indices@.len() >= 1,
    ensures
        r@ == first_occurrences(mesh_edges(faces@)),
        r@.no_duplicates(),
        forall|e: (usize, usize)| #[trigger] r@.contains(e) <==> mesh_edges(faces@).contains(e),
{
    let all = all_edges(faces);
    let mut seen: std::collections::HashSet<u128> = std::collections::HashSet::new();
    let mut edges: Vec<(usize, usize)> = Vec::new();
    let mut k: usize = 0;
    while k < all.len()
        invariant
            k <= all@.len(),
            edges@ == first_occurrences(all@.take(k as int)),
            forall|e: (usize, usize)| seen@.contains(edge_code_spec(e) as u128) <==> #[trigger] edges@.contains(e),
            forall|c: u128| #[trigger] seen@.contains(c) ==> exists|e: (usize, usize)| edge_code_spec(e) == c,
        decreases all@.len() - k,
    {
        let e = all[k];
        let code = edge_code(e);
        let ghost before_edges = edges@;
        let ghost before_seen = seen@;
        assert(all@.take(k + 1).drop_last() =~= all@.take(k as int));
        assert(all@.take(k + 1).last() == e);
        if seen.insert(code) {
            edges.push(e);
            assert forall|x: (usize, usize)| seen@.contains(edge_code_spec(x) as u128) <==> #[trigger] edges@.contains(x) by {
                if seen@.contains(edge_code_spec(x) as u128) && edge_code_spec(x) as u128 == code {
                    lemma_edge_code_injective(x, e);
                }
                if edges@.contains(x) && x != e {
                    let i = choose|i: int| 0 <= i < edges@.len() && edges@[i] == x;
                    assert(before_edges[i] == x);
                }
                if before_edges.contains(x) {
                    let i = choose|i: int| 0 <= i < before_edges.len() && before_edges[i] == x;
                    assert(edges@[i] == x);
                }
                assert(edges@[before_edges.len() as int] == e);
            }
        } else {
            assert(before_seen.contains(code));
            assert(before_edges.contains(e));
        }
        k = k + 1;
    }
    assert(all@.take(all@.len() as int) =~= all@);
    proof {
        lemma_first_occurrences(all@);
    }
    edges
}


// ---------------------------------------------------------------------
// Icosphere topology
// ---------------------------------------------------------------------

/// Vertices of the base icosahedron.
pub const ICOSAHEDRON_VERTICES: usize = 12;

/// The twenty faces of the base icosahedron, over its twelve vertices.
pub open spec fn base_faces() -> Seq<Seq<usize>> {
    seq![
        seq![0usize, 11, 5], seq![0usize, 5, 1], seq![0usize, 1, 7], seq![0usize, 7, 10],
        seq![0usize, 10, 11], seq![1usize, 5, 9], seq![5usize, 11, 4], seq![11usize, 10, 2],
        seq![10usize, 7, 6], seq![7usize, 1, 8], seq![3usize, 9, 4], seq![3usize, 4, 2],
        seq![3usize, 2, 6], seq![3usize, 6, 8], seq![3usize, 8, 9], seq![4usize, 9, 5],
        seq![2usize, 4, 11], seq![6usize, 2, 10], seq![8usize, 6, 7], seq![9usize, 8, 1],
    ]
}

/// Where `e` first occurs in `s` (`s.len()` when it does not).
pub open spec fn position<A>(s: Seq<A>, e: A) -> int
    decreases s.len(),
{
    if s.len() == 0 {
        0
    } else if s[0] == e {
        0
    } else {
        1 + position(s.drop_first(), e)
    }
}

pub proof fn lemma_position<A>(s: Seq<A>, e: A)
    ensures
        s.contains(e) ==> 0 <= position(s, e) < s.len() && s[position(s, e)] == e,
        !s.contains(e) ==> position(s, e) == s.len(),
    decreases s.len(),
{
    if s.len() > 0 {
        lemma_position(s.drop_first(), e);
        if s[0] != e {
            if s.contains(e) {
                let i = choose|i: int| 0 <= i < s.len() && s[i] == e;
                assert(s.drop_first()[i - 1] == e);
            }
            if s.drop_first().contains(e) {
                let i = choose|i: int| 0 <= i < s.drop_first().len() && s.drop_first()[i] == e;
                assert(s[i + 1] == e);
            }
        }
    }
}

pub proof fn lemma_position_append<A>(s: Seq<A>, t: Seq<A>, e: A)
    ensures
        s.contains(e) ==> position(s + t, e) == position(s, e),
        !s.contains(e) ==> position(s + t, e) == s.len() + position(t, e),
    decreases s.len(),
{
    if s.len() == 0 {
        assert(s + t =~= t);
    } else {
        assert((s + t).drop_first() =~= s.drop_first() + t);
        lemma_position_append(s.drop_first(), t, e);
        if s[0] != e {
            if s.contains(e) {
                let i = choose|i: int| 0 <= i < s.len() && s[i] == e;
                assert(s.drop_first()[i - 1] == e);
            }
            if s.drop_first().contains(e) {
                let i = choose|i: int| 0 <= i < s.drop_first().len() && s.drop_first()[i] == e;
                assert(s[i + 1] == e);
            }
        }
    }
}

/// Growing a list by at most one element keeps what it held, where it
/// was.
proof fn lemma_grown<A>(l0: Seq<A>, l1: Seq<A>, y: A, x: A)
    requires
        l1 == l0 || l1 == l0.push(y),
        l0.contains(x),
    ensures
        l1.contains(x),
        position(l1, x) == position(l0, x),
{
    lemma_position(l0, x);
    if l1 == l0.push(y) {
        assert(l0.push(y) =~= l0 + seq![y]);
        lemma_position_append(l0, seq![y], x);
        let i = position(l0, x);
        assert(l1[i] == x);
    }
}

/// Sub-face `i % 4` of face `i / 4` of a subdivision: the corner triangle
/// at each corner of the parent, then the middle triangle, over the midpoint
/// vertices `first_new + position(splits, edge)`.
pub open spec fn sub_face(polys: Seq<Seq<usize>>, splits: Seq<(usize, usize)>, first_new: int, i: int) -> Seq<
    usize,
> {
    let f = polys[i / 4];
    let (a, b, c) = (f[0], f[1], f[2]);
    let ab = (first_new + position(splits, edge_key(a, b))) as usize;
    let bc = (first_new + position(splits, edge_key(b, c))) as usize;
    let ca = (first_new + position(splits, edge_key(c, a))) as usize;
    if i % 4 == 0 {
        seq![a, ab, ca]
    } else if i % 4 == 1 {
        seq![b, bc, ab]
    } else if i % 4 == 2 {
        seq![c, ca, bc]
    } else {
        seq![ab, bc, ca]
    }
}

/// The edges one subdivision splits, in the order their midpoints are
/// created: each triangle's `ab`, `bc`, `ca`, each edge once.
pub open spec fn level_splits(polys: Seq<Seq<usize>>) -> Seq<(usize, usize)> {
    first_occurrences(polygon_edges(polys))
}

/// The triangles after `n` subdivisions of the icosahedron, and every
/// split edge in the order its midpoint vertex was added (vertex
/// `12 + k` is the midpoint of split `k`).
pub open spec fn icosphere_spec(n: nat) -> (Seq<Seq<usize>>, Seq<(usize, usize)>)
    decreases n,
{
    if n == 0 {
        (base_faces(), Seq::empty())
    } else {
        let (polys, splits) = icosphere_spec((n - 1) as nat);
        let level = level_splits(polys);
        (
            Seq::new(4 * polys.len(), |i: int| sub_face(polys, level, 12 + splits.len() as int, i)),
            splits + level,
        )
    }
}

/// Faces after `n` subdivisions: twenty, times four per subdivision.
pub open spec fn icosphere_face_count(n: nat) -> nat
    decreases n,
{
    if n == 0 { 20 } else { 4 * icosphere_face_count((n - 1) as nat) }
}

proof fn lemma_face_count_grows(k: nat, n: nat)
    requires
        k <= n,
    ensures
        icosphere_face_count(k) <= icosphere_face_count(n),
        icosphere_face_count(k) >= 20,
    decreases n,
{
    if n > 0 && k < n {
        lemma_face_count_grows(k, (n - 1) as nat);
    } else if n > 0 {
        lemma_face_count_grows(0, (n - 1) as nat);
    }
}

/// The cache of one subdivision level: which edges were split, and the
/// index of each one's midpoint vertex.
spec fn cache_ok(m: Map<u128, usize>, local: Seq<(usize, usize)>, first_new: int) -> bool {
    &&& forall|e: (usize, usize)| m.contains_key(edge_code_spec(e) as u128) <==> #[trigger] local.contains(e)
    &&& forall|e: (usize, usize)|
        #[trigger] local.contains(e) ==> m[edge_code_spec(e) as u128] == first_new + position(local, e)
}

/// The midpoint vertex of edge `e` at the current level: reused when the
/// edge was split already, else a new vertex recorded as a split.
fn midpoint(
    cache: &mut std::collections::HashMap<u128, usize>,
    splits: &mut Vec<(usize, usize)>,
    level_start: usize,
    e: (usize, usize),
    Ghost(seen): Ghost<Seq<(usize, usize)>>,
) -> (idx: usize)
    requires
        level_start <= old(splits)@.len(),
        old(splits)@.skip(level_start as int) == first_occurrences(seen),
        cache_ok(old(cache)@, old(splits)@.skip(level_start as int), 12 + level_start),
        12 + old(splits)@.len() < usize::MAX,
    ensures
        final(splits)@.take(level_start as int) == old(splits)@.take(level_start as int),
        final(splits)@.skip(level_start as int) == first_occurrences(seen.push(e)),
        final(splits)@.skip(level_start as int) == old(splits)@.skip(level_start as int) || final(splits)@.skip(
            level_start as int,
        ) == old(splits)@.skip(level_start as int).push(e),
        final(splits)@.skip(level_start as int).contains(e),
        cache_ok(final(cache)@, final(splits)@.skip(level_start as int), 12 + level_start),
        old(splits)@.len() <= final(splits)@.len() <= old(splits)@.len() + 1,
        idx == 12 + level_start + position(final(splits)@.skip(level_start as int), e),
{
    let ghost local = splits@.skip(level_start as int);
    assert(seen.push(e).drop_last() =~= seen);
    let code = edge_code(e);
    match cache.get(&code) {
        Some(found) => {
            let idx = *found;
            assert(local.contains(e));
            return idx;
        },
        None => {},
    }
    assert(!local.contains(e));
    let idx = 12 + splits.len();
    splits.push(e);
    cache.insert(code, idx);
    proof {
        let l1 = splits@.skip(level_start as int);
        assert(l1 =~= local.push(e));
        assert(splits@.take(level_start as int) =~= old(splits)@.take(level_start as int));
        assert(l1[local.len() as int] == e);
        assert(local.push(e) =~= local + seq![e]);
        lemma_position_append(local, seq![e], e);
        lemma_position(local, e);
        assert forall|x: (usize, usize)| cache@.contains_key(edge_code_spec(x) as u128) <==> #[trigger] l1.contains(x) by {
            if edge_code_spec(x) as u128 == code {
                lemma_edge_code_injective(x, e);
            }
            if x != e && l1.contains(x) {
                let i = choose|i: int| 0 <= i < l1.len() && l1[i] == x;
                assert(local[i] == x);
            }
            if local.contains(x) {
                let i = choose|i: int| 0 <= i < local.len() && local[i] == x;
                assert(l1[i] == x);
            }
        }
        assert forall|x: (usize, usize)| #[trigger] l1.contains(x) implies cache@[edge_code_spec(x) as u128] == 12
            + level_start + position(l1, x) by {
            if x == e {
            } else {
                let i = choose|i: int| 0 <= i < l1.len() && l1[i] == x;
                assert(local[i] == x);
                assert(local.contains(x));
                lemma_position_append(local, seq![e], x);
                if edge_code_spec(x) as u128 == code {
                    lemma_edge_code_injective(x, e);
                }
            }
        }
    }
    idx
}

/// The topology of a subdivided icosahedron: its triangles, and the edge
/// whose midpoint each vertex after the first twelve is.
#[derive(Debug, Clone)]
pub struct IcosphereTopology {
    pub faces: Vec<Face>,
    pub splits: Vec<(usize, usize)>,
}

/// The icosahedron subdivided `subdivisions` times: each level splits
/// every triangle into four by its edge midpoints, each shared edge split
/// once (a cache per level), new midpoint vertices numbered in the order
/// they are first needed.
pub fn icosphere_topology(subdivisions: u32) -> (r: IcosphereTopology)
    requires
        icosphere_face_count(subdivisions as nat) <= usize::MAX,
    ensures
        face_views(r.faces@) == icosphere_spec(subdivisions as nat).0,
        r.splits@ == icosphere_spec(subdivisions as nat).1,
{
    let base: [[usize; 3]; 20] = [
        [0, 11, 5], [0, 5, 1], [0, 1, 7], [0, 7, 10], [0, 10, 11], [1, 5, 9], [5, 11, 4],
        [11, 10, 2], [10, 7, 6], [7, 1, 8], [3, 9, 4], [3, 4, 2], [3, 2, 6], [3, 6, 8],
        [3, 8, 9], [4, 9, 5], [2, 4, 11], [6, 2, 10], [8, 6, 7], [9, 8, 1],
    ];
    let mut faces: Vec<Face> = Vec::new();
    let mut b: usize = 0;
    while b < 20
        invariant
            b <= 20,
            base@.len() == 20,
            faces@.len() == b,
            forall|i: int| 0 <= i < b ==> (#[trigger] faces@[i]).indices@ == base@[i]@,
        decreases 20 - b,
    {
        let row = base[b];
        faces.push(Face::triangle(row[0], row[1], row[2]));
        assert(base@[b as int]@ =~= seq![row[0], row[1], row[2]]);
        b = b + 1;
    }
    assert(face_views(faces@) =~= base_faces());
    let mut splits: Vec<(usize, usize)> = Vec::new();
    let mut k: u32 = 0;
    proof {
        lemma_face_count_grows(0, subdivisions as nat);
    }
    while k < subdivisions
        invariant
            k <= subdivisions,
            icosphere_face_count(subdivisions as nat) <= usize::MAX,
            face_views(faces@) == icosphere_spec(k as nat).0,
            splits@ == icosphere_spec(k as nat).1,
            faces@.len() == icosphere_face_count(k as nat),
            splits@.len() + 20 <= icosphere_face_count(k as nat),
            forall|i: int| 0 <= i < faces@.len() ==> (#[trigger] faces@[i]).indices@.len() == 3,
        decreases subdivisions - k,
    {
        proof {
            lemma_face_count_grows((k + 1) as nat, subdivisions as nat);
        }
        let ghost pv = face_views(faces@);
        let ghost prior = splits@;
        let level_start = splits.len();
        let mut cache: std::collections::HashMap<u128, usize> = std::collections::HashMap::new();
        let mut next: Vec<Face> = Vec::new();
        let mut t: usize = 0;
        assert(splits@.skip(level_start as int) =~= Seq::<(usize, usize)>::empty());
        assert(pv.take(0) =~= Seq::<Seq<usize>>::empty());
        assert(polygon_edges(pv.take(0)) =~= Seq::<(usize, usize)>::empty());
        assert(cache@ =~= Map::<u128, usize>::empty());
        while t < faces.len()
            invariant
                pv == face_views(faces@),
                faces@.len() == icosphere_face_count(k as nat),
                4 * icosphere_face_count(k as nat) <= usize::MAX,
                forall|i: int| 0 <= i < faces@.len() ==> (#[trigger] faces@[i]).indices@.len() == 3,
                level_start == prior.len(),
                level_start + 20 <= icosphere_face_count(k as nat),
                t <= faces@.len(),
                splits@.take(level_start as int) == prior,
                level_start <= splits@.len() <= level_start + 3 * t,
                splits@.skip(level_start as int) == first_occurrences(polygon_edges(pv.take(t as int))),
                cache_ok(cache@, splits@.skip(level_start as int), 12 + level_start),
                forall|j: int|
                    0 <= j < t ==> {
                        let l = splits@.skip(level_start as int);
                        let f = #[trigger] pv[j];
                        &&& l.contains(edge_key(f[0], f[1]))
                        &&& l.contains(edge_key(f[1], f[2]))
                        &&& l.contains(edge_key(f[2], f[0]))
                    },
                next@.len() == 4 * t,
                face_views(next@) == Seq::new(
                    4 * t as nat,
                    |i: int| sub_face(pv, splits@.skip(level_start as int), 12 + level_start, i),
                ),
                forall|i: int| 0 <= i < next@.len() ==> (#[trigger] next@[i]).indices@.len() == 3,
            decreases faces@.len() - t,
        {
            let ghost l0 = splits@.skip(level_start as int);
            let ghost seen0 = polygon_edges(pv.take(t as int));
            assert(pv[t as int] == faces@[t as int].indices@);
            let a = faces[t].indices[0];
            let bb = faces[t].indices[1];
            let c = faces[t].indices[2];
            let e1 = key(a, bb);
            let e2 = key(bb, c);
            let e3 = key(c, a);
            let ab = midpoint(&mut cache, &mut splits, level_start, e1, Ghost(seen0));
            let ghost l1 = splits@.skip(level_start as int);
            let bc = midpoint(&mut cache, &mut splits, level_start, e2, Ghost(seen0.push(e1)));
            let ghost l2 = splits@.skip(level_start as int);
            let ca = midpoint(&mut cache, &mut splits, level_start, e3, Ghost(seen0.push(e1).push(e2)));
            let ghost l3 = splits@.skip(level_start as int);
            proof {
                lemma_grown(l1, l2, e2, e1);
                lemma_grown(l2, l3, e3, e1);
                lemma_grown(l2, l3, e3, e2);
            }
            let ghost next0 = next@;
            next.push(Face::triangle(a, ab, ca));
            next.push(Face::triangle(bb, bc, ab));
            next.push(Face::triangle(c, ca, bc));
            next.push(Face::triangle(ab, bc, ca));
            proof {
                let f = pv[t as int];
                assert(f =~= seq![a, bb, c]);
                assert(face_edges(f) =~= seq![e1, e2, e3]);
                assert(pv.take(t + 1) =~= pv.take(t as int).push(f));
                lemma_polygon_edges_push(pv.take(t as int), f);
                assert(seen0 + seq![e1, e2, e3] =~= seen0.push(e1).push(e2).push(e3));
                assert forall|j: int| 0 <= j < t implies {
                    let g = #[trigger] pv[j];
                    &&& l3.contains(edge_key(g[0], g[1]))
                    &&& l3.contains(edge_key(g[1], g[2]))
                    &&& l3.contains(edge_key(g[2], g[0]))
                } by {
                    let g = pv[j];
                    lemma_grown(l0, l1, e1, edge_key(g[0], g[1]));
                    lemma_grown(l1, l2, e2, edge_key(g[0], g[1]));
                    lemma_grown(l2, l3, e3, edge_key(g[0], g[1]));
                    lemma_grown(l0, l1, e1, edge_key(g[1], g[2]));
                    lemma_grown(l1, l2, e2, edge_key(g[1], g[2]));
                    lemma_grown(l2, l3, e3, edge_key(g[1], g[2]));
                    lemma_grown(l0, l1, e1, edge_key(g[2], g[0]));
                    lemma_grown(l1, l2, e2, edge_key(g[2], g[0]));
                    lemma_grown(l2, l3, e3, edge_key(g[2], g[0]));
                }
                let first_new = 12 + level_start;
                assert forall|i: int| 0 <= i < 4 * t + 4 implies #[trigger] face_views(next@)[i] == sub_face(
                    pv,
                    l3,
                    first_new,
                    i,
                ) by {
                    if i < 4 * t {
                        assert(face_views(next@)[i] == face_views(next0)[i]);
                        assert(face_views(next0)[i] == sub_face(pv, l0, first_new, i));
                        let j = i / 4;
                        let g = pv[j];
                        assert(0 <= j < t);
                        lemma_grown(l0, l1, e1, edge_key(g[0], g[1]));
                        lemma_grown(l1, l2, e2, edge_key(g[0], g[1]));
                        lemma_grown(l2, l3, e3, edge_key(g[0], g[1]));
                        lemma_grown(l0, l1, e1, edge_key(g[1], g[2]));
                        lemma_grown(l1, l2, e2, edge_key(g[1], g[2]));
                        lemma_grown(l2, l3, e3, edge_key(g[1], g[2]));
                        lemma_grown(l0, l1, e1, edge_key(g[2], g[0]));
                        lemma_grown(l1, l2, e2, edge_key(g[2], g[0]));
                        lemma_grown(l2, l3, e3, edge_key(g[2], g[0]));
                    } else {
                        assert(i / 4 == t as int);
                    }
                }
                assert(face_views(next@) =~= Seq::new(
                    (4 * t + 4) as nat,
                    |i: int| sub_face(pv, l3, first_new, i),
                ));
            }
            t = t + 1;
        }
        proof {
            assert(pv.take(faces@.len() as int) =~= pv);
            assert(splits@ =~= splits@.take(level_start as int) + splits@.skip(level_start as int));
            assert(icosphere_face_count((k + 1) as nat) == 4 * icosphere_face_count(k as nat));
        }
        faces = next;
        k = k + 1;
    }
    IcosphereTopology { faces, splits }
}
} // verus!
