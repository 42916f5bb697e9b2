use vstd::prelude::*;
use std::collections::HashMap;
use crate::algebra::TriangleView;
use crate::entity::{
    codes_match_points,
    key_code, lemma_place_wf, mesh_state, mesh_wf, place, place_index, placement_wf,
    triangle_ok, triangle_views, triangles_ok_from, white, with_triangle, MatColor, Mesh,
    MeshState, Placement, PosKey,
};
use crate::obj::{
    argument, classify_obj_line, corner_indices, face_corner_indices, flush,
    lemma_mtl_after_grows, mtl_after, mtl_start, read_materials, MaterialCommand, NameTable,
    ObjError, ObjLine,
};
use crate::text::{views, words};

verus! {

/// Every index that a good face yields names a vertex read so far.
proof fn lemma_corner_indices_in_range(ts: Seq<Seq<char>>, vertex_count: nat)
    ensures
        corner_indices(ts, vertex_count) matches Ok(ix) ==> ix.len() == ts.len() && forall|k: int|
            0 <= k < ix.len() ==> #[trigger] ix[k] < vertex_count,
    decreases ts.len(),
{
    if ts.len() > 0 {
        lemma_corner_indices_in_range(ts.drop_last(), vertex_count);
    }
}

/// What a face line did to the mesh.
#[derive(Debug, PartialEq, Eq, Structural)]
pub enum FaceOutcome {
    /// This many triangles were added: one for a triangle, two for a quad.
    Added(usize),
    /// The face had this many corners, neither three nor four, and was skipped.
    Skipped(usize),
}

/// What the caller does next with a line of an OBJ file.
#[derive(Debug)]
pub enum LineAction {
    /// Nothing: the line is done with.
    Done,
    /// Read the material library with this file name, and hand its commands to
    /// [`ObjLoader::load_materials`].
    LoadLibrary(Vec<char>),
    /// Read the coordinates of a vertex from these words, and hand the vertex to
    /// [`ObjLoader::add_vertex`].
    ReadVertex(Vec<Vec<char>>),
    /// No material has this name; the faces to come get the default material.
    MaterialMissing(Vec<char>),
    /// A face added this many triangles.
    FaceAdded(usize),
    /// A face with this many corners was skipped.
    FaceSkipped(usize),
    /// The line is bad, and the file does not load.
    Failed(ObjError),
}

/// The state of a mesh being read from an OBJ file: the mesh, the vertices read so far
/// (each with its grid position and its point), which point of the mesh each grid
/// position got, the material names of the library last read, the material of the
/// faces to come, how many points and triangles the mesh had before this file, and
/// whether all of those earlier triangles referred to existing points and materials.
pub struct ObjLoader<P> {
    pub mesh: Mesh<P>,
    pub vertices: Vec<(PosKey, P)>,
    pub point_of_code: HashMap<u128, usize>,
    pub names: NameTable,
    pub current_material: usize,
    pub base: usize,
    pub tri_base: usize,
    pub started_whole: Ghost<bool>,
}

/// Whether some vertex read has grid code `c` and point `p`.
pub open spec fn vertex_gives<P>(vs: Seq<(PosKey, P)>, c: u128, p: P) -> bool {
    exists|j: int| 0 <= j < vs.len() && key_code(#[trigger] vs[j].0) == c as int && vs[j].1 == p
}

/// Whether the point that each recorded grid code names is the point of a vertex read
/// with that code.
pub open spec fn codes_from_vertices<P>(
    points: Seq<P>,
    index: Map<u128, usize>,
    vs: Seq<(PosKey, P)>,
) -> bool {
    forall|c: u128| #[trigger]
        index.contains_key(c) ==> vertex_gives(vs, c, points[index[c] as int])
}

/// Whether two loaders hold the same mesh and grid codes.
pub open spec fn same_mesh<P>(a: &ObjLoader<P>, b: &ObjLoader<P>) -> bool {
    &&& a.mesh.points@ == b.mesh.points@
    &&& a.mesh.triangles@ == b.mesh.triangles@
    &&& a.mesh.material_color@ == b.mesh.material_color@
    &&& a.point_of_code@ == b.point_of_code@
}

/// Whether two loaders agree on everything but the mesh, its grid codes and the
/// current material.
pub open spec fn same_reading<P>(a: &ObjLoader<P>, b: &ObjLoader<P>) -> bool {
    &&& a.vertices@ == b.vertices@
    &&& a.names@ == b.names@
    &&& a.base == b.base
    &&& a.tri_base == b.tri_base
    &&& a.started_whole@ == b.started_whole@
}

/// Whether two loaders are alike in every part.
pub open spec fn unchanged<P>(a: &ObjLoader<P>, b: &ObjLoader<P>) -> bool {
    same_mesh(a, b) && same_reading(a, b) && a.current_material == b.current_material
}

/// What reading the face with corners `corners` does: the first bad corner fails the
/// face and changes nothing; three corners add one triangle, four add two (corners
/// 0, 1, 2 and 0, 2, 3), each with the current material; any other number of corners
/// is skipped.
pub open spec fn face_effect<P>(
    before: &ObjLoader<P>,
    after: &ObjLoader<P>,
    corners: Seq<Seq<char>>,
    r: Result<FaceOutcome, ObjError>,
) -> bool {
    let vs = before.vertices@;
    let s0 = mesh_state(&before.mesh, before.point_of_code@);
    let s1 = mesh_state(&after.mesh, after.point_of_code@);
    let m = before.current_material;
    &&& same_reading(before, after)
    &&& after.current_material == before.current_material
    &&& after.mesh.material_color@ == before.mesh.material_color@
    &&& match corner_indices(corners, vs.len()) {
        Err(e) => r == Err::<FaceOutcome, ObjError>(e) && s1 == s0,
        Ok(ix) => if ix.len() == 3 {
            &&& r == Ok::<FaceOutcome, ObjError>(FaceOutcome::Added(1))
            &&& s1 == with_triangle(s0, vs[ix[0] as int], vs[ix[1] as int], vs[ix[2] as int], m)
        } else if ix.len() == 4 {
            &&& r == Ok::<FaceOutcome, ObjError>(FaceOutcome::Added(2))
            &&& s1 == with_triangle(
                with_triangle(s0, vs[ix[0] as int], vs[ix[1] as int], vs[ix[2] as int], m),
                vs[ix[0] as int],
                vs[ix[2] as int],
                vs[ix[3] as int],
                m,
            )
        } else {
            &&& r == Ok::<FaceOutcome, ObjError>(FaceOutcome::Skipped(ix.len() as usize))
            &&& s1 == s0
        },
    }
}

/// What choosing the material `name` does: the material with that name in the library
/// last read becomes current, or the default material (index 0) when there is none.
pub open spec fn use_effect<P>(before: &ObjLoader<P>, after: &ObjLoader<P>, name: Seq<char>) -> bool {
    &&& same_mesh(before, after)
    &&& same_reading(before, after)
    &&& after.current_material == (if before.names@.contains_key(name) {
        before.names@[name]
    } else {
        0
    })
}

/// The face outcome that a line action reports.
pub open spec fn face_result(r: LineAction) -> Result<FaceOutcome, ObjError> {
    match r {
        LineAction::FaceAdded(n) => Ok(FaceOutcome::Added(n)),
        LineAction::FaceSkipped(n) => Ok(FaceOutcome::Skipped(n)),
        LineAction::Failed(e) => Err(e),
        _ => Err(ObjError::InvalidFaceIndex),
    }
}

/// What reading a line with words `ws` does and asks for: blank lines, comments and
/// statements that are not read change nothing; `mtllib` asks for its library;
/// `usemtl` chooses a material (see [`use_effect`]) and reports a missing one; `v`
/// asks for its vertex to be read; `f` reads a face (see [`face_effect`]).
pub open spec fn line_effect<P>(
    before: &ObjLoader<P>,
    after: &ObjLoader<P>,
    ws: Seq<Seq<char>>,
    r: LineAction,
) -> bool {
    if ws.len() == 0 || ws[0][0] == '#' {
        r is Done && unchanged(before, after)
    } else if ws[0] == seq!['m', 't', 'l', 'l', 'i', 'b'] {
        r matches LineAction::LoadLibrary(n) && n@ == argument(ws) && unchanged(before, after)
    } else if ws[0] == seq!['u', 's', 'e', 'm', 't', 'l'] {
        &&& use_effect(before, after, argument(ws))
        &&& if before.names@.contains_key(argument(ws)) {
            r is Done
        } else {
            r matches LineAction::MaterialMissing(n) && n@ == argument(ws)
        }
    } else if ws[0] == seq!['v'] {
        r matches LineAction::ReadVertex(args) && views(args@) == ws.drop_first() && unchanged(
            before,
            after,
        )
    } else if ws[0] == seq!['f'] {
        &&& (r is FaceAdded || r is FaceSkipped || r is Failed)
        &&& face_effect(before, after, ws.drop_first(), face_result(r))
    } else {
        r is Done && unchanged(before, after)
    }
}

/// A triangle that fits some points and materials still fits more of them.
proof fn lemma_triangles_ok_grow(ts: Seq<TriangleView>, np: nat, nm: nat, np2: nat, nm2: nat, from: int, whole: bool)
    requires
        triangles_ok_from(ts, np, nm, from, whole),
        np <= np2,
        nm <= nm2,
    ensures
        triangles_ok_from(ts, np2, nm2, from, whole),
{
    assert forall|i: int| 0 <= i < ts.len() && (whole || from <= i) implies triangle_ok(#[trigger] ts[i], np2, nm2) by {
        assert(triangle_ok(ts[i], np, nm));
    }
}

/// Placing the corner of vertex `j` keeps every recorded code naming a vertex's point.
proof fn lemma_place_from_vertices<P>(s: Placement<P>, base: nat, vs: Seq<(PosKey, P)>, j: int)
    requires
        placement_wf(s, base),
        codes_from_vertices(s.points, s.index, vs),
        0 <= j < vs.len(),
        s.points.len() <= usize::MAX,
    ensures
        codes_from_vertices(place(s, vs[j].0, vs[j].1).points, place(s, vs[j].0, vs[j].1).index, vs),
{
    let t = place(s, vs[j].0, vs[j].1);
    let c = key_code(vs[j].0) as u128;
    lemma_place_wf(s, base, vs[j].0, vs[j].1);
    crate::entity::lemma_key_code_injective(vs[j].0, vs[j].0);
    assert forall|d: u128| #[trigger] t.index.contains_key(d) implies vertex_gives(vs, d, t.points[t.index[d] as int]) by {
        if s.index.contains_key(d) {
            assert(t.index[d] == s.index[d]);
            assert(t.points[t.index[d] as int] == s.points[s.index[d] as int]) by {
                assert(t.points.subrange(0, s.points.len() as int) == s.points);
                assert(t.points.subrange(0, s.points.len() as int)[s.index[d] as int] == t.points[s.index[d] as int]);
            }
        } else {
            assert(d == c);
            assert(t.points[t.index[d] as int] == vs[j].1);
            assert(key_code(vs[j].0) == d as int);
        }
    }
}

/// Adding a triangle whose corners are the vertices `j0`, `j1`, `j2` keeps the
/// placement well formed, the triangles fitting, and every recorded code naming a
/// vertex's point.
proof fn lemma_with_triangle_wf<P>(
    s: MeshState<P>,
    base: nat,
    vs: Seq<(PosKey, P)>,
    j0: int,
    j1: int,
    j2: int,
    mat: usize,
    n_materials: nat,
    tri_base: int,
    whole: bool,
)
    requires
        placement_wf(Placement { points: s.points, index: s.index }, base),
        codes_from_vertices(s.points, s.index, vs),
        triangles_ok_from(s.triangles, s.points.len(), n_materials, tri_base, whole),
        tri_base <= s.triangles.len(),
        0 <= j0 < vs.len(),
        0 <= j1 < vs.len(),
        0 <= j2 < vs.len(),
        mat < n_materials,
        with_triangle(s, vs[j0], vs[j1], vs[j2], mat).points.len() <= usize::MAX,
    ensures
        ({
            let t = with_triangle(s, vs[j0], vs[j1], vs[j2], mat);
            &&& placement_wf(Placement { points: t.points, index: t.index }, base)
            &&& codes_from_vertices(t.points, t.index, vs)
            &&& t.points.len() >= s.points.len()
            &&& t.points.subrange(0, s.points.len() as int) == s.points
            &&& triangles_ok_from(t.triangles, t.points.len(), n_materials, tri_base, whole)
            &&& tri_base <= t.triangles.len()
        }),
{
    let (c0, c1, c2) = (vs[j0], vs[j1], vs[j2]);
    let s0 = Placement { points: s.points, index: s.index };
    let s1 = place(s0, c0.0, c0.1);
    let s2 = place(s1, c1.0, c1.1);
    let s3 = place(s2, c2.0, c2.1);
    assert(s1.points.len() <= s2.points.len() <= s3.points.len());
    lemma_place_wf(s0, base, c0.0, c0.1);
    lemma_place_wf(s1, base, c1.0, c1.1);
    lemma_place_wf(s2, base, c2.0, c2.1);
    lemma_place_from_vertices(s0, base, vs, j0);
    lemma_place_from_vertices(s1, base, vs, j1);
    lemma_place_from_vertices(s2, base, vs, j2);
    assert(s3.points.subrange(0, s.points.len() as int) =~= s.points) by {
        assert(s3.points.subrange(0, s2.points.len() as int) == s2.points);
        assert(s2.points.subrange(0, s1.points.len() as int) == s1.points);
        assert(s1.points.subrange(0, s0.points.len() as int) == s0.points);
    }
    let t = with_triangle(s, c0, c1, c2, mat);
    lemma_triangles_ok_grow(s.triangles, s.points.len(), n_materials, t.points.len(), n_materials, tri_base, whole);
    assert forall|i: int| 0 <= i < t.triangles.len() && (whole || tri_base <= i) implies triangle_ok(#[trigger] t.triangles[i], t.points.len(), n_materials) by {
        if i < s.triangles.len() {
            assert(t.triangles[i] == s.triangles[i]);
        }
    }
}

impl<P: Copy> ObjLoader<P> {
    /// Whether the loader's parts agree: the triangles added by this file (and the
    /// earlier ones too, when they all fitted at the start) refer to existing points
    /// and materials; the current material and every named material exist; the points
    /// added by this file correspond one to one with the grid codes recorded; and the
    /// point each code names is the point of a vertex read with that code.
    pub open spec fn wf(&self) -> bool {
        &&& self.tri_base <= self.mesh.triangles@.len()
        &&& triangles_ok_from(
            triangle_views(self.mesh.triangles@),
            self.mesh.points@.len(),
            self.mesh.material_color@.len(),
            self.tri_base as int,
            self.started_whole@,
        )
        &&& self.current_material < self.mesh.material_color@.len()
        &&& forall|n: Seq<char>| #[trigger]
            self.names@.contains_key(n) ==> self.names@[n] < self.mesh.material_color@.len()
        &&& placement_wf(
            Placement { points: self.mesh.points@, index: self.point_of_code@ },
            self.base as nat,
        )
        &&& codes_from_vertices(self.mesh.points@, self.point_of_code@, self.vertices@)
    }

    /// Starts reading an OBJ file into `mesh`: white is appended to its material colours,
    /// and the current material is the mesh's first, index 0 (the white of the first
    /// file read into it).
    pub fn new(mesh: Mesh<P>) -> (l: Self)
        ensures
            l.wf(),
            l.mesh.points@ == mesh.points@,
            l.mesh.triangles@ == mesh.triangles@,
            l.mesh.material_color@ == mesh.material_color@.push(white()),
            l.vertices@.len() == 0,
            l.point_of_code@ == Map::<u128, usize>::empty(),
            l.names@ == Map::<Seq<char>, usize>::empty(),
            l.current_material == 0,
            l.base == mesh.points@.len(),
            l.tri_base == mesh.triangles@.len(),
            l.started_whole@ == mesh_wf(&mesh),
    {
        let ghost whole = mesh_wf(&mesh);
        let mut mesh = mesh;
        let ghost np = mesh.points@.len();
        let ghost nm = mesh.material_color@.len();
        mesh.material_color.push(MatColor::new(255, 255, 255));
        let base = mesh.points.len();
        let tri_base = mesh.triangles.len();
        proof {
            if whole {
                lemma_triangles_ok_grow(triangle_views(mesh.triangles@), np, nm, np, nm + 1, 0, true);
            }
        }
        let l = ObjLoader {
            mesh,
            vertices: Vec::new(),
            point_of_code: HashMap::new(),
            names: NameTable::new(),
            current_material: 0,
            base,
            tri_base,
            started_whole: Ghost(whole),
        };
        assert(placement_wf(Placement { points: l.mesh.points@, index: l.point_of_code@ }, base as nat));
        l
    }

    /// Records a vertex: its grid position and its point.
    pub fn add_vertex(&mut self, key: PosKey, p: P)
        requires
            old(self).wf(),
        ensures
            final(self).wf(),
            final(self).vertices@ == old(self).vertices@.push((key, p)),
            same_mesh(old(self), final(self)),
            final(self).names@ == old(self).names@,
            final(self).current_material == old(self).current_material,
            final(self).base == old(self).base,
            final(self).tri_base == old(self).tri_base,
            final(self).started_whole@ == old(self).started_whole@,
    {
        let ghost vs = self.vertices@;
        self.vertices.push((key, p));
        assert forall|c: u128| #[trigger] self.point_of_code@.contains_key(c) implies vertex_gives(
            self.vertices@,
            c,
            self.mesh.points@[self.point_of_code@[c] as int],
        ) by {
            assert(vertex_gives(vs, c, self.mesh.points@[self.point_of_code@[c] as int]));
            let j = choose|j: int| 0 <= j < vs.len() && key_code(#[trigger] vs[j].0) == c as int
                && vs[j].1 == self.mesh.points@[self.point_of_code@[c] as int];
            assert(self.vertices@[j] == vs[j]);
        }
    }

    /// Makes the material called `name` in the library last read the material of the
    /// faces to come, and answers `true`; when no material has that name, the default
    /// material (index 0) is used and the answer is `false`.
    pub fn use_material(&mut self, name: &Vec<char>) -> (found: bool)
        requires
            old(self).wf(),
        ensures
            final(self).wf(),
            found == old(self).names@.contains_key(name@),
            use_effect(old(self), final(self), name@),
    {
        match self.names.get(name) {
            Some(idx) => {
                self.current_material = idx;
                true
            },
            None => {
                self.current_material = 0;
                false
            },
        }
    }

    /// Reads a material library, given as its commands, into the mesh's material colours
    /// (see [`read_materials`]). When `complete`, its names replace the names of the
    /// library read before; otherwise they are dropped.
    pub fn load_materials(&mut self, cmds: &Vec<MaterialCommand>, complete: bool)
        requires
            old(self).wf(),
        ensures
            final(self).wf(),
            ({
                let s = mtl_after(mtl_start(old(self).mesh.material_color@), cmds@);
                let f = if complete {
                    flush(s)
                } else {
                    s
                };
                &&& final(self).mesh.material_color@ == f.materials
                &&& final(self).names@ == (if complete {
                    f.names
                } else {
                    old(self).names@
                })
            }),
            final(self).mesh.points@ == old(self).mesh.points@,
            final(self).mesh.triangles@ == old(self).mesh.triangles@,
            final(self).vertices@ == old(self).vertices@,
            final(self).point_of_code@ == old(self).point_of_code@,
            final(self).current_material == old(self).current_material,
            final(self).base == old(self).base,
            final(self).tri_base == old(self).tri_base,
            final(self).started_whole@ == old(self).started_whole@,
    {
        let ghost old_mats = self.mesh.material_color@;
        let names = read_materials(cmds, complete, &mut self.mesh.material_color);
        proof {
            lemma_mtl_after_grows(mtl_start(old_mats), cmds@);
            let s = mtl_after(mtl_start(old_mats), cmds@);
            assert(flush(s).materials.len() >= s.materials.len());
            assert forall|n: Seq<char>| #[trigger] flush(s).names.contains_key(n) implies flush(s).names[n]
                < flush(s).materials.len() by {
                if s.name is Some && n == s.name->0 {
                } else {
                    assert(s.names.contains_key(n));
                }
            }
            lemma_triangles_ok_grow(
                triangle_views(self.mesh.triangles@),
                self.mesh.points@.len(),
                old_mats.len(),
                self.mesh.points@.len(),
                self.mesh.material_color@.len(),
                self.tri_base as int,
                self.started_whole@,
            );
        }
        if complete {
            self.names = names;
        }
    }

    /// Reads the corners of a face (see [`face_effect`]). Each triangle reuses the mesh
    /// point of any corner whose grid position already has one.
    pub fn add_face(&mut self, corners: &Vec<Vec<char>>) -> (r: Result<FaceOutcome, ObjError>)
        requires
            old(self).wf(),
        ensures
            final(self).wf(),
            face_effect(old(self), final(self), views(corners@), r),
    {
        proof {
            lemma_corner_indices_in_range(views(corners@), self.vertices@.len());
        }
        let ix = match face_corner_indices(corners, self.vertices.len()) {
            Ok(ix) => ix,
            Err(e) => {
                return Err(e);
            },
        };
        let m = self.current_material;
        let ghost s0 = mesh_state(&self.mesh, self.point_of_code@);
        let ghost nm = self.mesh.material_color@.len();
        let ghost vs = self.vertices@;
        if ix.len() == 3 {
            let c0 = self.vertices[ix[0]];
            let c1 = self.vertices[ix[1]];
            let c2 = self.vertices[ix[2]];
            self.mesh.add_triangle(c0, c1, c2, &mut self.point_of_code, m);
            // A vector's length always fits a `usize`.
            let points_len = self.mesh.points.len();
            proof {
                assert(with_triangle(s0, c0, c1, c2, m).points.len() == points_len);
                lemma_with_triangle_wf(s0, self.base as nat, vs, ix[0] as int, ix[1] as int, ix[2] as int, m, nm, self.tri_base as int, self.started_whole@);
            }
            Ok(FaceOutcome::Added(1))
        } else if ix.len() == 4 {
            let c0 = self.vertices[ix[0]];
            let c1 = self.vertices[ix[1]];
            let c2 = self.vertices[ix[2]];
            let c3 = self.vertices[ix[3]];
            self.mesh.add_triangle(c0, c1, c2, &mut self.point_of_code, m);
            let ghost s1 = mesh_state(&self.mesh, self.point_of_code@);
            self.mesh.add_triangle(c0, c2, c3, &mut self.point_of_code, m);
            // A vector's length always fits a `usize`.
            let points_len = self.mesh.points.len();
            proof {
                assert(with_triangle(s1, c0, c2, c3, m).points.len() == points_len);
                assert(s1.points.len() <= points_len);
                lemma_with_triangle_wf(s0, self.base as nat, vs, ix[0] as int, ix[1] as int, ix[2] as int, m, nm, self.tri_base as int, self.started_whole@);
                lemma_with_triangle_wf(s1, self.base as nat, vs, ix[0] as int, ix[2] as int, ix[3] as int, m, nm, self.tri_base as int, self.started_whole@);
            }
            Ok(FaceOutcome::Added(2))
        } else {
            Ok(FaceOutcome::Skipped(ix.len()))
        }
    }

    /// Reads one line of an OBJ file (see [`line_effect`]), and says what the caller
    /// does next with it.
    pub fn read_line(&mut self, line: &str) -> (r: LineAction)
        requires
            old(self).wf(),
        ensures
            final(self).wf(),
            line_effect(old(self), final(self), words(line@), r),
    {
        match classify_obj_line(line) {
            ObjLine::Ignored => LineAction::Done,
            ObjLine::MaterialLibrary(name) => LineAction::LoadLibrary(name),
            ObjLine::UseMaterial(name) => {
                if self.use_material(&name) {
                    LineAction::Done
                } else {
                    LineAction::MaterialMissing(name)
                }
            },
            ObjLine::Vertex(args) => LineAction::ReadVertex(args),
            ObjLine::Face(corners) => match self.add_face(&corners) {
                Ok(FaceOutcome::Added(n)) => LineAction::FaceAdded(n),
                Ok(FaceOutcome::Skipped(n)) => LineAction::FaceSkipped(n),
                Err(e) => LineAction::Failed(e),
            },
        }
    }

    /// The mesh read: the triangles this file added refer to existing points and
    /// materials, and so does every triangle when the mesh given to
    /// [`ObjLoader::new`] was well formed.
    pub fn finish(self) -> (m: Mesh<P>)
        requires
            self.wf(),
        ensures
            m == self.mesh,
            triangles_ok_from(
                triangle_views(m.triangles@),
                m.points@.len(),
                m.material_color@.len(),
                self.tri_base as int,
                false,
            ),
            self.started_whole@ ==> mesh_wf(&m),
    {
        proof {
            let ts = triangle_views(self.mesh.triangles@);
            assert forall|i: int| 0 <= i < ts.len() && (false || self.tri_base <= i) implies triangle_ok(
                #[trigger] ts[i],
                self.mesh.points@.len(),
                self.mesh.material_color@.len(),
            ) by {}
        }
        self.mesh
    }
}

/// When every vertex handed to the loader has the grid position that `key` gives for
/// its point, each grid code the loader records is the code of the grid position of
/// the point it names.
pub proof fn lemma_loader_codes_match_points<P: Copy>(l: &ObjLoader<P>, key: spec_fn(P) -> PosKey)
    requires
        l.wf(),
        forall|j: int| 0 <= j < l.vertices@.len() ==> (#[trigger] l.vertices@[j]).0 == key(l.vertices@[j].1),
    ensures
        codes_match_points(l.mesh.points@, l.point_of_code@, key),
{
    assert forall|c: u128| #[trigger] l.point_of_code@.contains_key(c) implies l.point_of_code@[c] < l.mesh.points@.len()
        && key_code(key(l.mesh.points@[l.point_of_code@[c] as int])) == c as int by {
        let pl = Placement { points: l.mesh.points@, index: l.point_of_code@ };
        assert(placement_wf(pl, l.base as nat));
        assert(pl.index.contains_key(c));
        assert(l.point_of_code@[c] < l.mesh.points@.len());
        let p = l.mesh.points@[l.point_of_code@[c] as int];
        assert(vertex_gives(l.vertices@, c, p));
        let j = choose|j: int| 0 <= j < l.vertices@.len() && key_code(#[trigger] l.vertices@[j].0) == c as int
            && l.vertices@[j].1 == p;
        assert(l.vertices@[j].0 == key(l.vertices@[j].1));
    }
}

} // verus!
