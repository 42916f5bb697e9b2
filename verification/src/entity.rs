use vstd::prelude::*;
use std::collections::HashMap;
use crate::algebra::{Triangle, TriangleView};

verus! {

broadcast use vstd::std_specs::hash::group_hash_axioms;

/// An RGB material colour.
#[derive(Clone, Copy, Debug)]
pub struct MatColor {
    pub r: u8,
    pub g: u8,
    pub b: u8,
}

impl MatColor {
    /// The colour (r, g, b).
    pub fn new(r: u8, g: u8, b: u8) -> (c: Self)
        ensures
            c == (MatColor { r, g, b }),
    {
        MatColor { r, g, b }
    }
}

/// White, the colour of a material without a diffuse colour and of the default material.
pub open spec fn white() -> MatColor {
    MatColor { r: 255, g: 255, b: 255 }
}

/// A vertex position rounded to a grid: each coordinate in thousandths.
pub type PosKey = (i32, i32, i32);

/// The number that stands for a grid position: its three coordinates, each shifted
/// to be non-negative, as the digits of a number in base 2^32.
pub open spec fn key_code(k: PosKey) -> int {
    (k.0 + 0x8000_0000) * 0x1_0000_0000_0000_0000 + (k.1 + 0x8000_0000) * 0x1_0000_0000 + (k.2
        + 0x8000_0000)
}

/// Two grid positions share a code only when they are the same position.
pub proof fn lemma_key_code_injective(a: PosKey, b: PosKey)
    ensures
        key_code(a) == key_code(b) ==> a == b,
        0 <= key_code(a) < 0x1_0000_0000_0000_0000_0000_0000,
{
    let (a0, a1, a2) = (a.0 + 0x8000_0000, a.1 + 0x8000_0000, a.2 + 0x8000_0000);
    let (b0, b1, b2) = (b.0 + 0x8000_0000, b.1 + 0x8000_0000, b.2 + 0x8000_0000);
    assert(0 <= a0 * 0x1_0000_0000_0000_0000 + a1 * 0x1_0000_0000 + a2 < 0x1_0000_0000_0000_0000_0000_0000)
        by (nonlinear_arith)
        requires
            0 <= a0 < 0x1_0000_0000,
            0 <= a1 < 0x1_0000_0000,
            0 <= a2 < 0x1_0000_0000,
    ;
    if key_code(a) == key_code(b) {
        assert(a0 == b0 && a1 == b1 && a2 == b2) by (nonlinear_arith)
            requires
                a0 * 0x1_0000_0000_0000_0000 + a1 * 0x1_0000_0000 + a2 == b0
                    * 0x1_0000_0000_0000_0000 + b1 * 0x1_0000_0000 + b2,
                0 <= a0 < 0x1_0000_0000,
                0 <= a1 < 0x1_0000_0000,
                0 <= a2 < 0x1_0000_0000,
                0 <= b0 < 0x1_0000_0000,
                0 <= b1 < 0x1_0000_0000,
                0 <= b2 < 0x1_0000_0000,
        ;
    }
}

/// The code of a grid position (see [`key_code`]).
pub fn pack_key(k: PosKey) -> (code: u128)
    ensures
        code == key_code(k),
{
    proof {
        lemma_key_code_injective(k, k);
    }
    let a = (k.0 as i64 + 0x8000_0000i64) as u128;
    let b = (k.1 as i64 + 0x8000_0000i64) as u128;
    let c = (k.2 as i64 + 0x8000_0000i64) as u128;
    a * 0x1_0000_0000_0000_0000u128 + b * 0x1_0000_0000u128 + c
}


/// A triangle mesh: its points, its triangles (indices into the points), and the
/// colours of its materials (the triangles' material indices point into them).
/// The type of a point is left to the caller.
pub struct Mesh<P> {
    pub points: Vec<P>,
    pub triangles: Vec<Triangle>,
    pub material_color: Vec<MatColor>,
}

/// Whether a triangle refers to one of `n_points` points at each corner and to one of
/// `n_materials` materials.
pub open spec fn triangle_ok(t: TriangleView, n_points: nat, n_materials: nat) -> bool {
    &&& t.v0 < n_points
    &&& t.v1 < n_points
    &&& t.v2 < n_points
    &&& t.material < n_materials
}

/// Whether the triangles from position `from` on (all of them when `whole`) are
/// [`triangle_ok`].
pub open spec fn triangles_ok_from(
    ts: Seq<TriangleView>,
    n_points: nat,
    n_materials: nat,
    from: int,
    whole: bool,
) -> bool {
    forall|i: int|
        0 <= i < ts.len() && (whole || from <= i) ==> triangle_ok(#[trigger] ts[i], n_points, n_materials)
}

/// Whether every triangle of a mesh refers to existing points and an existing material.
pub open spec fn mesh_wf<P>(m: &Mesh<P>) -> bool {
    triangles_ok_from(triangle_views(m.triangles@), m.points@.len(), m.material_color@.len(), 0, true)
}

/// The points of a mesh being filled, and which point each grid code already has.
pub struct Placement<P> {
    pub points: Seq<P>,
    pub index: Map<u128, usize>,
}

/// The index of the point that a corner at grid position `key` gets: the point that
/// already has its code, else a new point at the end.
pub open spec fn place_index<P>(s: Placement<P>, key: PosKey) -> int {
    let c = key_code(key) as u128;
    if s.index.contains_key(c) {
        s.index[c] as int
    } else {
        s.points.len() as int
    }
}

/// The placement after a corner at grid position `key` with point `p` is placed:
/// unchanged when a point already has its code, else `p` appended and its code
/// recorded.
pub open spec fn place<P>(s: Placement<P>, key: PosKey, p: P) -> Placement<P> {
    let c = key_code(key) as u128;
    if s.index.contains_key(c) {
        s
    } else {
        Placement { points: s.points.push(p), index: s.index.insert(c, s.points.len() as usize) }
    }
}

impl<P: Copy> Mesh<P> {
    /// An empty mesh.
    pub fn new() -> (m: Self)
        ensures
            m.points@.len() == 0,
            m.triangles@.len() == 0,
            m.material_color@.len() == 0,
            mesh_wf(&m),
    {
        Mesh { points: Vec::new(), triangles: Vec::new(), material_color: Vec::new() }
    }

    /// Whether every triangle refers to existing points and an existing material
    /// (see [`mesh_wf`]).
    pub fn is_well_formed(&self) -> (ok: bool)
        ensures
            ok == mesh_wf(self),
    {
        let np = self.points.len();
        let nm = self.material_color.len();
        let n = self.triangles.len();
        let mut i: usize = 0;
        while i < n
            invariant
                n == self.triangles@.len(),
                np == self.points@.len(),
                nm == self.material_color@.len(),
                i <= n,
                forall|j: int|
                    0 <= j < i ==> triangle_ok(#[trigger] triangle_views(self.triangles@)[j], np as nat, nm as nat),
            decreases n - i,
        {
            let (a, b, c) = self.triangles[i].return_indices();
            let m = self.triangles[i].return_mat_idx();
            if a >= np || b >= np || c >= np || m >= nm {
                assert(!mesh_wf(self)) by {
                    let t = triangle_views(self.triangles@)[i as int];
                    assert(t == self.triangles@[i as int]@);
                    assert(t.v0 == a && t.v1 == b && t.v2 == c && t.material == m);
                }
                return false;
            }
            assert(triangle_views(self.triangles@)[i as int] == self.triangles@[i as int]@);
            i = i + 1;
        }
        true
    }

    /// Places one corner: the index of the point that already has the code of `key`, or
    /// of `p`, appended.
    fn place_point(&mut self, key: PosKey, p: P, map: &mut HashMap<u128, usize>) -> (idx: usize)
        ensures
            idx == place_index(Placement { points: old(self).points@, index: old(map)@ }, key),
            (Placement { points: final(self).points@, index: final(map)@ }) == place(
                Placement { points: old(self).points@, index: old(map)@ },
                key,
                p,
            ),
            final(self).triangles@ == old(self).triangles@,
            final(self).material_color@ == old(self).material_color@,
    {
        let code = pack_key(key);
        match map.get(&code) {
            Some(i) => *i,
            None => {
                let idx = self.points.len();
                self.points.push(p);
                map.insert(code, idx);
                idx
            },
        }
    }

    /// Adds the triangle with corners `c0`, `c1`, `c2` (each a grid position and its
    /// point) and material `material_idx`. Each corner reuses the point that `map` gives
    /// for its grid position, or appends its point and records it in `map`.
    pub fn add_triangle(
        &mut self,
        c0: (PosKey, P),
        c1: (PosKey, P),
        c2: (PosKey, P),
        map: &mut HashMap<u128, usize>,
        material_idx: usize,
    )
        ensures
            mesh_state(final(self), final(map)@) == with_triangle(
                mesh_state(old(self), old(map)@),
                c0,
                c1,
                c2,
                material_idx,
            ),
            final(self).material_color@ == old(self).material_color@,
    {
        let i0 = self.place_point(c0.0, c0.1, map);
        let i1 = self.place_point(c1.0, c1.1, map);
        let i2 = self.place_point(c2.0, c2.1, map);
        let ghost tris = old(self).triangles@;
        self.triangles.push(Triangle::with_material(i0, i1, i2, material_idx));
        assert(triangle_views(self.triangles@) =~= triangle_views(tris).push(
            self.triangles@.last()@,
        ));
    }
}

/// The views of a list of triangles.
pub open spec fn triangle_views(ts: Seq<Triangle>) -> Seq<TriangleView> {
    ts.map_values(|t: Triangle| t@)
}

/// What a mesh being filled holds, with the grid codes of its points.
pub struct MeshState<P> {
    pub points: Seq<P>,
    pub index: Map<u128, usize>,
    pub triangles: Seq<TriangleView>,
}

/// The state of mesh `m` whose points have the grid codes `index`.
pub open spec fn mesh_state<P>(m: &Mesh<P>, index: Map<u128, usize>) -> MeshState<P> {
    MeshState { points: m.points@, index, triangles: triangle_views(m.triangles@) }
}

/// The state after the triangle with corners `c0`, `c1`, `c2` and material `mat` is
/// added: the corners are placed in order (see [`place`]) and the triangle refers to
/// the points they got.
pub open spec fn with_triangle<P>(
    s: MeshState<P>,
    c0: (PosKey, P),
    c1: (PosKey, P),
    c2: (PosKey, P),
    mat: usize,
) -> MeshState<P> {
    let s0 = Placement { points: s.points, index: s.index };
    let s1 = place(s0, c0.0, c0.1);
    let s2 = place(s1, c1.0, c1.1);
    let s3 = place(s2, c2.0, c2.1);
    MeshState {
        points: s3.points,
        index: s3.index,
        triangles: s.triangles.push(
            TriangleView {
                v0: place_index(s0, c0.0) as usize,
                v1: place_index(s1, c1.0) as usize,
                v2: place_index(s2, c2.0) as usize,
                material: mat,
            },
        ),
    }
}

/// The points from position `base` on are the ones this placement made: each has
/// exactly one grid code, and each code at most one point.
pub open spec fn placement_wf<P>(s: Placement<P>, base: nat) -> bool {
    &&& base <= s.points.len()
    &&& forall|c: u128| #[trigger]
        s.index.contains_key(c) ==> base <= s.index[c] < s.points.len()
    &&& forall|c1: u128, c2: u128|
        #[trigger] s.index.contains_key(c1) && #[trigger] s.index.contains_key(c2) && s.index[c1]
            == s.index[c2] ==> c1 == c2
    &&& forall|i: int| base <= i < s.points.len() ==> #[trigger] index_reaches(s.index, i)
}

/// Whether some grid code in `index` gives point `i`.
pub open spec fn index_reaches(index: Map<u128, usize>, i: int) -> bool {
    exists|c: u128| #[trigger] index.contains_key(c) && index[c] == i
}

/// Placing a corner keeps a placement well formed, keeps its earlier points, and gives
/// the corner a point that has its grid code.
pub proof fn lemma_place_wf<P>(s: Placement<P>, base: nat, key: PosKey, p: P)
    requires
        placement_wf(s, base),
        s.points.len() <= usize::MAX,
    ensures
        placement_wf(place(s, key, p), base),
        place(s, key, p).points.len() >= s.points.len(),
        place(s, key, p).points.subrange(0, s.points.len() as int) == s.points,
        base <= place_index(s, key) < place(s, key, p).points.len(),
        place(s, key, p).index.contains_key(key_code(key) as u128),
        place(s, key, p).index[key_code(key) as u128] == place_index(s, key),
{
    let c = key_code(key) as u128;
    let t = place(s, key, p);
    if !s.index.contains_key(c) {
        assert(t.points.subrange(0, s.points.len() as int) =~= s.points);
        assert forall|i: int| base <= i < t.points.len() implies #[trigger] index_reaches(t.index, i) by {
            if i == s.points.len() {
                assert(t.index.contains_key(c) && t.index[c] == i);
            } else {
                assert(index_reaches(s.index, i));
                let d = choose|d: u128| #[trigger] s.index.contains_key(d) && s.index[d] == i;
                assert(t.index.contains_key(d) && t.index[d] == i);
            }
        }
    } else {
        assert(t.points.subrange(0, s.points.len() as int) =~= s.points);
    }
}

/// Corners at the same grid position share a point: after a triangle is added, each of
/// its corners refers to the point that the grid code of the corner's position gives.
pub proof fn lemma_corners_share_points<P>(
    s: MeshState<P>,
    c0: (PosKey, P),
    c1: (PosKey, P),
    c2: (PosKey, P),
    mat: usize,
)
    ensures
        ({
            let t = with_triangle(s, c0, c1, c2, mat);
            let tri = t.triangles.last();
            &&& t.index.contains_key(key_code(c0.0) as u128)
            &&& t.index.contains_key(key_code(c1.0) as u128)
            &&& t.index.contains_key(key_code(c2.0) as u128)
            &&& tri.v0 == t.index[key_code(c0.0) as u128]
            &&& tri.v1 == t.index[key_code(c1.0) as u128]
            &&& tri.v2 == t.index[key_code(c2.0) as u128]
            &&& tri.material == mat
        }),
{
    let s0 = Placement { points: s.points, index: s.index };
    let s1 = place(s0, c0.0, c0.1);
    let s2 = place(s1, c1.0, c1.1);
    lemma_place_keeps(s1, c1.0, c1.1, key_code(c0.0) as u128);
    lemma_place_keeps(s2, c2.0, c2.1, key_code(c0.0) as u128);
    lemma_place_keeps(s2, c2.0, c2.1, key_code(c1.0) as u128);
}

/// Placing a corner keeps every grid code already recorded, with its point.
proof fn lemma_place_keeps<P>(s: Placement<P>, key: PosKey, p: P, c: u128)
    requires
        s.index.contains_key(c),
    ensures
        place(s, key, p).index.contains_key(c),
        place(s, key, p).index[c] == s.index[c],
{
}

/// Whether every grid code recorded in `index` is the code of the grid position that
/// `key` gives for the point it names.
pub open spec fn codes_match_points<P>(
    points: Seq<P>,
    index: Map<u128, usize>,
    key: spec_fn(P) -> PosKey,
) -> bool {
    forall|c: u128| #[trigger]
        index.contains_key(c) ==> index[c] < points.len() && key_code(key(points[index[c] as int]))
            == c as int
}

/// Placing a corner whose grid position is `key` of its point keeps every recorded code
/// the code of its point's position, and the corner's point has the corner's position.
proof fn lemma_place_keeps_codes<P>(s: Placement<P>, k: PosKey, p: P, key: spec_fn(P) -> PosKey)
    requires
        codes_match_points(s.points, s.index, key),
        k == key(p),
        s.points.len() <= usize::MAX,
    ensures
        codes_match_points(place(s, k, p).points, place(s, k, p).index, key),
        place(s, k, p).points.subrange(0, s.points.len() as int) == s.points,
        0 <= place_index(s, k) < place(s, k, p).points.len(),
        key(place(s, k, p).points[place_index(s, k)]) == k,
        s.index.contains_key(key_code(k) as u128) ==> place_index(s, k) == s.index[key_code(k) as u128],
        place(s, k, p).index.dom() == s.index.dom().insert(key_code(k) as u128),
{
    let c = key_code(k) as u128;
    let t = place(s, k, p);
    lemma_key_code_injective(k, k);
    assert(t.points.subrange(0, s.points.len() as int) =~= s.points);
    if s.index.contains_key(c) {
        let q = s.points[s.index[c] as int];
        lemma_key_code_injective(key(q), k);
        assert(s.index.dom().insert(c) =~= s.index.dom());
    } else {
        assert forall|d: u128| #[trigger] t.index.contains_key(d) implies t.index[d] < t.points.len()
            && key_code(key(t.points[t.index[d] as int])) == d as int by {
            if d != c {
                assert(t.points[t.index[d] as int] == s.points[s.index[d] as int]);
            }
        }
    }
    assert(t.index.dom() =~= s.index.dom().insert(c));
}

/// Each recorded grid code is the code of the grid position of the point it names:
/// when every corner's position is `key` of its point, adding a triangle keeps this,
/// keeps the earlier points, gives each corner a point at the corner's position (the
/// point already recorded for that position, when there is one), and records exactly
/// the codes of the corners' positions besides the earlier ones.
pub proof fn lemma_add_triangle_keeps_codes<P>(
    s: MeshState<P>,
    c0: (PosKey, P),
    c1: (PosKey, P),
    c2: (PosKey, P),
    mat: usize,
    key: spec_fn(P) -> PosKey,
)
    requires
        codes_match_points(s.points, s.index, key),
        c0.0 == key(c0.1),
        c1.0 == key(c1.1),
        c2.0 == key(c2.1),
        with_triangle(s, c0, c1, c2, mat).points.len() <= usize::MAX,
    ensures
        ({
            let t = with_triangle(s, c0, c1, c2, mat);
            let tri = t.triangles.last();
            &&& codes_match_points(t.points, t.index, key)
            &&& t.points.subrange(0, s.points.len() as int) == s.points
            &&& t.triangles.drop_last() == s.triangles
            &&& tri.v0 < t.points.len() && key(t.points[tri.v0 as int]) == c0.0
            &&& tri.v1 < t.points.len() && key(t.points[tri.v1 as int]) == c1.0
            &&& tri.v2 < t.points.len() && key(t.points[tri.v2 as int]) == c2.0
            &&& tri.material == mat
            &&& (s.index.contains_key(key_code(c0.0) as u128) ==> tri.v0 == s.index[key_code(c0.0) as u128])
            &&& t.index.dom() == s.index.dom().insert(key_code(c0.0) as u128).insert(
                key_code(c1.0) as u128,
            ).insert(key_code(c2.0) as u128)
        }),
{
    let s0 = Placement { points: s.points, index: s.index };
    let s1 = place(s0, c0.0, c0.1);
    let s2 = place(s1, c1.0, c1.1);
    let s3 = place(s2, c2.0, c2.1);
    assert(s1.points.len() <= s2.points.len() <= s3.points.len());
    lemma_place_keeps_codes(s0, c0.0, c0.1, key);
    lemma_place_keeps_codes(s1, c1.0, c1.1, key);
    lemma_place_keeps_codes(s2, c2.0, c2.1, key);
    let t = with_triangle(s, c0, c1, c2, mat);
    assert(t.triangles.drop_last() =~= s.triangles);
    assert(s3.points.subrange(0, s0.points.len() as int) =~= s0.points) by {
        assert(s3.points.subrange(0, s2.points.len() as int) == s2.points);
        assert(s2.points.subrange(0, s1.points.len() as int) == s1.points);
        assert(s1.points.subrange(0, s0.points.len() as int) == s0.points);
    }
    let i0 = place_index(s0, c0.0);
    let i1 = place_index(s1, c1.0);
    assert(s3.points[i0] == s1.points[i0]) by {
        assert(s3.points.subrange(0, s2.points.len() as int) == s2.points);
        assert(s2.points.subrange(0, s1.points.len() as int) == s1.points);
        assert(s3.points[i0] == s2.points[i0]);
    }
    assert(s3.points[i1] == s2.points[i1]) by {
        assert(s3.points.subrange(0, s2.points.len() as int) == s2.points);
    }
}

} // verus!
