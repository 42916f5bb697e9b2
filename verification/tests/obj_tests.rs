use terminal3d::algebra::Triangle;
use terminal3d::entity::{pack_key, MatColor, Mesh};
use terminal3d::loader::{FaceOutcome, LineAction, ObjLoader};
use terminal3d::obj::{
    classify_mtl_line, classify_obj_line, face_corner_index, face_corner_indices, read_materials,
    vertex_field, MaterialCommand, MtlLine, NameTable, ObjError, ObjLine,
};
use std::collections::HashMap;

fn chars(s: &str) -> Vec<char> {
    s.chars().collect()
}

fn words(ws: &[&str]) -> Vec<Vec<char>> {
    ws.iter().map(|w| chars(w)).collect()
}

fn name_of(v: &Vec<char>) -> String {
    v.iter().collect()
}

fn triangles(m: &Mesh<u32>) -> Vec<((usize, usize, usize), usize)> {
    m.triangles.iter().map(|t| (t.return_indices(), t.return_mat_idx())).collect()
}

#[test]
fn triangle_new_and_indices() {
    let t = Triangle::new(3, 1, 2);
    assert_eq!(t.return_indices(), (3, 1, 2));
    assert_eq!(t.return_mat_idx(), 0);
    let u = Triangle::with_material(0, 1, 2, 5);
    assert_eq!(u.return_mat_idx(), 5);
}

#[test]
fn mat_color_new() {
    let c = MatColor::new(2, 100, 50);
    assert_eq!((c.r, c.g, c.b), (2, 100, 50));
}

#[test]
fn pack_key_is_distinct() {
    assert_eq!(pack_key((0, 0, 0)), (0x8000_0000u128 << 64) | (0x8000_0000u128 << 32) | 0x8000_0000u128);
    assert_eq!(pack_key((i32::MIN, i32::MIN, i32::MIN)), 0);
    assert_ne!(pack_key((1, 0, 0)), pack_key((0, 1, 0)));
    assert_ne!(pack_key((0, 0, -1)), pack_key((0, -1, 0)));
}

#[test]
fn obj_lines_classify() {
    assert!(matches!(classify_obj_line(""), ObjLine::Ignored));
    assert!(matches!(classify_obj_line("   "), ObjLine::Ignored));
    assert!(matches!(classify_obj_line("# v 1 2 3"), ObjLine::Ignored));
    assert!(matches!(classify_obj_line("  #comment"), ObjLine::Ignored));
    assert!(matches!(classify_obj_line("vn 0 0 1"), ObjLine::Ignored));
    assert!(matches!(classify_obj_line("o Skull"), ObjLine::Ignored));
    match classify_obj_line("  v 1.0  2 -3 1 ") {
        ObjLine::Vertex(args) => assert_eq!(args, words(&["1.0", "2", "-3", "1"])),
        other => panic!("{:?}", other),
    }
    match classify_obj_line("f 1/1/1 2//2 3") {
        ObjLine::Face(args) => assert_eq!(args, words(&["1/1/1", "2//2", "3"])),
        other => panic!("{:?}", other),
    }
    match classify_obj_line("mtllib skull.mtl extra") {
        ObjLine::MaterialLibrary(n) => assert_eq!(name_of(&n), "skull.mtl"),
        other => panic!("{:?}", other),
    }
    match classify_obj_line("mtllib") {
        ObjLine::MaterialLibrary(n) => assert_eq!(name_of(&n), ""),
        other => panic!("{:?}", other),
    }
    match classify_obj_line("usemtl Bone") {
        ObjLine::UseMaterial(n) => assert_eq!(name_of(&n), "Bone"),
        other => panic!("{:?}", other),
    }
}

#[test]
fn mtl_lines_classify() {
    match classify_mtl_line("newmtl Bone") {
        MtlLine::NewMaterial(n) => assert_eq!(name_of(&n), "Bone"),
        other => panic!("{:?}", other),
    }
    match classify_mtl_line("  Kd 0.5 0.25 1") {
        MtlLine::DiffuseColor(args) => assert_eq!(args, words(&["0.5", "0.25", "1"])),
        other => panic!("{:?}", other),
    }
    assert!(matches!(classify_mtl_line("Ks 1 1 1"), MtlLine::Ignored));
    assert!(matches!(classify_mtl_line(""), MtlLine::Ignored));
    assert!(matches!(classify_mtl_line("# newmtl x"), MtlLine::Ignored));
}

#[test]
fn face_corner_indices_read() {
    assert_eq!(vertex_field(&chars("12/4/7")), chars("12"));
    assert_eq!(vertex_field(&chars("/4")), chars(""));
    assert_eq!(face_corner_index(&chars("3/1/1"), 3), Ok(2));
    assert_eq!(face_corner_index(&chars("+1"), 3), Ok(0));
    assert_eq!(face_corner_index(&chars("0"), 3), Err(ObjError::FaceIndexOutOfRange));
    assert_eq!(face_corner_index(&chars("4"), 3), Err(ObjError::FaceIndexOutOfRange));
    assert_eq!(face_corner_index(&chars("-1"), 3), Err(ObjError::InvalidFaceIndex));
    assert_eq!(face_corner_index(&chars("/1"), 3), Err(ObjError::InvalidFaceIndex));
    assert_eq!(face_corner_indices(&words(&["1", "2", "3"]), 3), Ok(vec![0, 1, 2]));
    // The first bad corner decides the error.
    assert_eq!(
        face_corner_indices(&words(&["1", "9", "x"]), 3),
        Err(ObjError::FaceIndexOutOfRange)
    );
    assert_eq!(
        face_corner_indices(&words(&["x", "9"]), 3),
        Err(ObjError::InvalidFaceIndex)
    );
}

#[test]
fn error_messages() {
    assert_eq!(ObjError::MissingX.message(), "missing x in vertex");
    assert_eq!(ObjError::InvalidZ.message(), "invalid z in vertex");
    assert_eq!(ObjError::InvalidFaceIndex.message(), "invalid face index");
    assert_eq!(ObjError::FaceIndexOutOfRange.message(), "face index out of range");
}

#[test]
fn name_table_last_write_wins() {
    let mut t = NameTable::new();
    assert_eq!(t.get(&chars("a")), None);
    t.insert(chars("a"), 1);
    t.insert(chars("b"), 2);
    t.insert(chars("a"), 3);
    assert_eq!(t.get(&chars("a")), Some(3));
    assert_eq!(t.get(&chars("b")), Some(2));
    assert_eq!(t.get(&chars("c")), None);
}

#[test]
fn read_materials_appends_in_order() {
    let mut mats = vec![MatColor::new(255, 255, 255)];
    let cmds = vec![
        MaterialCommand::NewMaterial(chars("Red")),
        MaterialCommand::DiffuseColor(MatColor::new(255, 0, 0)),
        MaterialCommand::NewMaterial(chars("Plain")),
        MaterialCommand::NewMaterial(chars("Blue")),
        MaterialCommand::DiffuseColor(MatColor::new(0, 0, 9)),
        MaterialCommand::DiffuseColor(MatColor::new(0, 0, 255)),
    ];
    let names = read_materials(&cmds, true, &mut mats);
    let got: Vec<(u8, u8, u8)> = mats.iter().map(|c| (c.r, c.g, c.b)).collect();
    assert_eq!(got, vec![(255, 255, 255), (255, 0, 0), (255, 255, 255), (0, 0, 255)]);
    assert_eq!(names.get(&chars("Red")), Some(1));
    assert_eq!(names.get(&chars("Plain")), Some(2));
    assert_eq!(names.get(&chars("Blue")), Some(3));
}

#[test]
fn read_materials_incomplete_keeps_last_open() {
    let mut mats = Vec::new();
    let cmds = vec![
        MaterialCommand::NewMaterial(chars("A")),
        MaterialCommand::NewMaterial(chars("B")),
    ];
    let names = read_materials(&cmds, false, &mut mats);
    assert_eq!(mats.len(), 1);
    assert_eq!(names.get(&chars("A")), Some(0));
    assert_eq!(names.get(&chars("B")), None);
}

#[test]
fn read_materials_duplicate_name_last_wins() {
    let mut mats = Vec::new();
    let cmds = vec![
        MaterialCommand::NewMaterial(chars("A")),
        MaterialCommand::NewMaterial(chars("A")),
        MaterialCommand::DiffuseColor(MatColor::new(1, 2, 3)),
    ];
    let names = read_materials(&cmds, true, &mut mats);
    assert_eq!(mats.len(), 2);
    assert_eq!(names.get(&chars("A")), Some(1));
}

#[test]
fn mesh_add_triangle_shares_points() {
    let mut m: Mesh<u32> = Mesh::new();
    let mut map = HashMap::new();
    m.add_triangle(((0, 0, 0), 10), ((1, 0, 0), 11), ((0, 1, 0), 12), &mut map, 0);
    m.add_triangle(((0, 0, 0), 99), ((0, 1, 0), 98), ((1, 1, 0), 13), &mut map, 0);
    assert_eq!(m.points, vec![10, 11, 12, 13]);
    assert_eq!(triangles(&m), vec![((0, 1, 2), 0), ((0, 2, 3), 0)]);
    assert_eq!(map.len(), 4);
}

#[test]
fn loader_reads_faces() {
    let mut l: ObjLoader<u32> = ObjLoader::new(Mesh::new());
    assert_eq!(l.mesh.material_color.len(), 1);
    l.add_vertex((0, 0, 0), 1);
    l.add_vertex((1000, 0, 0), 2);
    l.add_vertex((1000, 1000, 0), 3);
    l.add_vertex((0, 1000, 0), 4);
    l.add_vertex((0, 0, 0), 5); // same grid position as the first vertex
    assert_eq!(l.add_face(&words(&["1", "2", "3", "4"])), Ok(FaceOutcome::Added(2)));
    assert_eq!(l.add_face(&words(&["5/1", "2/2", "3/3"])), Ok(FaceOutcome::Added(1)));
    assert_eq!(l.add_face(&words(&["1", "2"])), Ok(FaceOutcome::Skipped(2)));
    assert_eq!(l.add_face(&words(&["1", "2", "3", "4", "5"])), Ok(FaceOutcome::Skipped(5)));
    assert_eq!(l.add_face(&words(&["1", "2", "6"])), Err(ObjError::FaceIndexOutOfRange));
    assert_eq!(l.add_face(&words(&["1", "two", "3"])), Err(ObjError::InvalidFaceIndex));
    let m = l.finish();
    assert_eq!(m.points, vec![1, 2, 3, 4]);
    assert_eq!(triangles(&m), vec![((0, 1, 2), 0), ((0, 2, 3), 0), ((0, 1, 2), 0)]);
    assert!(m.is_well_formed());
}

#[test]
fn loader_materials() {
    let mut l: ObjLoader<u32> = ObjLoader::new(Mesh::new());
    l.add_vertex((0, 0, 0), 1);
    l.add_vertex((1, 0, 0), 2);
    l.add_vertex((0, 1, 0), 3);
    l.load_materials(
        &vec![
            MaterialCommand::NewMaterial(chars("Bone")),
            MaterialCommand::DiffuseColor(MatColor::new(200, 190, 180)),
        ],
        true,
    );
    assert!(l.use_material(&chars("Bone")));
    assert_eq!(l.current_material, 1);
    assert_eq!(l.add_face(&words(&["1", "2", "3"])), Ok(FaceOutcome::Added(1)));
    assert!(!l.use_material(&chars("Skin")));
    assert_eq!(l.current_material, 0);
    assert_eq!(l.add_face(&words(&["3", "2", "1"])), Ok(FaceOutcome::Added(1)));
    let m = l.finish();
    assert_eq!(triangles(&m), vec![((0, 1, 2), 1), ((2, 1, 0), 0)]);
    let colors: Vec<(u8, u8, u8)> = m.material_color.iter().map(|c| (c.r, c.g, c.b)).collect();
    assert_eq!(colors, vec![(255, 255, 255), (200, 190, 180)]);
}

#[test]
fn loader_second_file_appends() {
    let mut l: ObjLoader<u32> = ObjLoader::new(Mesh::new());
    l.add_vertex((0, 0, 0), 1);
    l.add_vertex((1, 0, 0), 2);
    l.add_vertex((0, 1, 0), 3);
    assert_eq!(l.add_face(&words(&["1", "2", "3"])), Ok(FaceOutcome::Added(1)));
    let first = l.finish();
    let mut l2 = ObjLoader::new(first);
    assert_eq!(l2.base, 3);
    assert_eq!(l2.current_material, 0);
    l2.add_vertex((0, 0, 0), 7);
    l2.add_vertex((5, 0, 0), 8);
    l2.add_vertex((0, 5, 0), 9);
    assert_eq!(l2.add_face(&words(&["1", "2", "3"])), Ok(FaceOutcome::Added(1)));
    let m = l2.finish();
    assert_eq!(m.points, vec![1, 2, 3, 7, 8, 9]);
    assert_eq!(triangles(&m), vec![((0, 1, 2), 0), ((3, 4, 5), 0)]);
    assert_eq!(m.material_color.len(), 2);
}

#[test]
fn mesh_well_formed_check() {
    let mut m: Mesh<u32> = Mesh::new();
    assert!(m.is_well_formed());
    m.points.push(0);
    m.material_color.push(MatColor::new(1, 1, 1));
    m.triangles.push(Triangle::new(0, 0, 0));
    assert!(m.is_well_formed());
    m.triangles.push(Triangle::new(0, 1, 0));
    assert!(!m.is_well_formed());
}

#[test]
fn loader_reads_lines() {
    let mut l: ObjLoader<u32> = ObjLoader::new(Mesh::new());
    assert!(matches!(l.read_line("# a comment"), LineAction::Done));
    assert!(matches!(l.read_line(""), LineAction::Done));
    assert!(matches!(l.read_line("vt 0 0"), LineAction::Done));
    match l.read_line("mtllib skull.mtl") {
        LineAction::LoadLibrary(n) => assert_eq!(name_of(&n), "skull.mtl"),
        other => panic!("{:?}", other),
    }
    for (i, line) in ["v 0 0 0", "v 1 0 0", "v 0 1 0", "v 1 1 0"].iter().enumerate() {
        match l.read_line(line) {
            LineAction::ReadVertex(args) => {
                assert_eq!(args.len(), 3);
                l.add_vertex((i as i32, 0, 0), i as u32);
            }
            other => panic!("{:?}", other),
        }
    }
    match l.read_line("usemtl Missing") {
        LineAction::MaterialMissing(n) => assert_eq!(name_of(&n), "Missing"),
        other => panic!("{:?}", other),
    }
    assert_eq!(l.current_material, 0);
    l.load_materials(&vec![MaterialCommand::NewMaterial(chars("Bone"))], true);
    assert!(matches!(l.read_line("usemtl Bone"), LineAction::Done));
    assert_eq!(l.current_material, 1);
    assert!(matches!(l.read_line("f 1 2 3 4"), LineAction::FaceAdded(2)));
    assert!(matches!(l.read_line("f 1 2 3"), LineAction::FaceAdded(1)));
    assert!(matches!(l.read_line("f 1 2"), LineAction::FaceSkipped(2)));
    assert!(matches!(l.read_line("f 1 2 9"), LineAction::Failed(ObjError::FaceIndexOutOfRange)));
    assert!(matches!(l.read_line("f 1 x 3"), LineAction::Failed(ObjError::InvalidFaceIndex)));
    let m = l.finish();
    assert_eq!(triangles(&m), vec![((0, 1, 2), 1), ((0, 2, 3), 1), ((0, 1, 2), 1)]);
}

#[test]
fn loader_accepts_malformed_mesh() {
    let mut m: Mesh<u32> = Mesh::new();
    m.triangles.push(Triangle::new(5, 6, 7));
    assert!(!m.is_well_formed());
    let mut l = ObjLoader::new(m);
    assert_eq!(l.tri_base, 1);
    l.add_vertex((0, 0, 0), 1);
    l.add_vertex((1, 0, 0), 2);
    l.add_vertex((0, 1, 0), 3);
    assert_eq!(l.add_face(&words(&["1", "2", "3"])), Ok(FaceOutcome::Added(1)));
    let m = l.finish();
    assert_eq!(triangles(&m), vec![((5, 6, 7), 0), ((0, 1, 2), 0)]);
}

#[test]
fn recorded_codes_are_codes_of_their_points() {
    // The point type is the grid position itself, so the key of a point is the point.
    let mut m: Mesh<(i32, i32, i32)> = Mesh::new();
    let mut map = HashMap::new();
    let a = (0, 0, 0);
    let b = (1000, 0, 0);
    let c = (0, -1000, 7);
    let d = (5, 5, 5);
    m.add_triangle((a, a), (b, b), (c, c), &mut map, 0);
    m.add_triangle((c, c), (d, d), (a, a), &mut map, 0);
    assert_eq!(m.points, vec![a, b, c, d]);
    assert_eq!(map.len(), 4);
    for (code, idx) in &map {
        assert_eq!(pack_key(m.points[*idx]), *code);
    }
    let t = &m.triangles[1];
    let (i0, i1, i2) = t.return_indices();
    assert_eq!((m.points[i0], m.points[i1], m.points[i2]), (c, d, a));
}
