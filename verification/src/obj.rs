use vstd::prelude::*;
use crate::text::{chars_of, split_whitespace, words, views, usize_of, parse_usize};
use crate::entity::{MatColor, white};

verus! {

// ---------------------------------------------------------------------------
// Errors
// ---------------------------------------------------------------------------

/// Why an OBJ file does not load.
#[derive(Clone, Copy, Debug, PartialEq, Eq, Structural)]
pub enum ObjError {
    MissingX,
    InvalidX,
    MissingY,
    InvalidY,
    MissingZ,
    InvalidZ,
    InvalidFaceIndex,
    FaceIndexOutOfRange,
}

/// The message of each error.
pub open spec fn error_message(e: ObjError) -> Seq<char> {
    match e {
        ObjError::MissingX => "missing x in vertex"@,
        ObjError::InvalidX => "invalid x in vertex"@,
        ObjError::MissingY => "missing y in vertex"@,
        ObjError::InvalidY => "invalid y in vertex"@,
        ObjError::MissingZ => "missing z in vertex"@,
        ObjError::InvalidZ => "invalid z in vertex"@,
        ObjError::InvalidFaceIndex => "invalid face index"@,
        ObjError::FaceIndexOutOfRange => "face index out of range"@,
    }
}

impl ObjError {
    /// The message of this error (see [`error_message`]).
    pub fn message(&self) -> (m: &'static str)
        ensures
            m@ == error_message(*self),
    {
        match self {
            ObjError::MissingX => "missing x in vertex",
            ObjError::InvalidX => "invalid x in vertex",
            ObjError::MissingY => "missing y in vertex",
            ObjError::InvalidY => "invalid y in vertex",
            ObjError::MissingZ => "missing z in vertex",
            ObjError::InvalidZ => "invalid z in vertex",
            ObjError::InvalidFaceIndex => "invalid face index",
            ObjError::FaceIndexOutOfRange => "face index out of range",
        }
    }
}

// ---------------------------------------------------------------------------
// Face indices
// ---------------------------------------------------------------------------

/// The part of a face corner before its first `/` (the vertex index; texture and
/// normal indices follow the slashes).
pub open spec fn first_field(t: Seq<char>) -> Seq<char>
    decreases t.len(),
{
    if t.len() == 0 {
        t
    } else if t[0] == '/' {
        Seq::<char>::empty()
    } else {
        seq![t[0]] + first_field(t.drop_first())
    }
}

/// The part of `t` before its first `/` (see [`first_field`]).
pub fn vertex_field(t: &Vec<char>) -> (f: Vec<char>)
    ensures
        f@ == first_field(t@),
{
    let n = t.len();
    let mut f: Vec<char> = Vec::new();
    let mut i: usize = 0;
    assert(t@.skip(0) =~= t@);
    while i < n
        invariant
            n == t@.len(),
            i <= n,
            f@ == t@.take(i as int),
            first_field(t@) == f@ + first_field(t@.skip(i as int)),
        decreases n - i,
    {
        let c = t[i];
        let ghost rest = t@.skip(i as int);
        assert(rest[0] == c);
        assert(rest.drop_first() =~= t@.skip(i + 1));
        if c == '/' {
            assert(first_field(rest) =~= Seq::<char>::empty());
            assert(f@ =~= first_field(t@));
            return f;
        }
        f.push(c);
        i = i + 1;
        assert(f@ =~= t@.take(i as int));
        assert(first_field(t@) =~= f@ + first_field(t@.skip(i as int)));
    }
    assert(t@.skip(n as int) =~= Seq::<char>::empty());
    assert(f@ =~= first_field(t@));
    f
}

/// The vertex that a face corner names, counted from 0: its field before the first
/// `/` must read as a number from 1 to the number of vertices read so far.
pub open spec fn corner_index(t: Seq<char>, vertex_count: nat) -> Result<usize, ObjError> {
    match usize_of(first_field(t)) {
        None => Err(ObjError::InvalidFaceIndex),
        Some(i) => if i == 0 || i > vertex_count {
            Err(ObjError::FaceIndexOutOfRange)
        } else {
            Ok((i - 1) as usize)
        },
    }
}

/// The vertices that the corners of a face name, or the error of its first bad corner.
pub open spec fn corner_indices(ts: Seq<Seq<char>>, vertex_count: nat) -> Result<Seq<usize>, ObjError>
    decreases ts.len(),
{
    if ts.len() == 0 {
        Ok(Seq::<usize>::empty())
    } else {
        match corner_indices(ts.drop_last(), vertex_count) {
            Err(e) => Err(e),
            Ok(ix) => match corner_index(ts.last(), vertex_count) {
                Err(e) => Err(e),
                Ok(i) => Ok(ix.push(i)),
            },
        }
    }
}

/// The vertex that face corner `t` names (see [`corner_index`]).
pub fn face_corner_index(t: &Vec<char>, vertex_count: usize) -> (r: Result<usize, ObjError>)
    ensures
        r == corner_index(t@, vertex_count as nat),
{
    let f = vertex_field(t);
    match parse_usize(&f) {
        None => Err(ObjError::InvalidFaceIndex),
        Some(i) => if i == 0 || i > vertex_count {
            Err(ObjError::FaceIndexOutOfRange)
        } else {
            Ok(i - 1)
        },
    }
}

/// The vertices that the corners of a face name (see [`corner_indices`]).
pub fn face_corner_indices(ts: &Vec<Vec<char>>, vertex_count: usize) -> (r: Result<Vec<usize>, ObjError>)
    ensures
        match r {
            Ok(ix) => corner_indices(views(ts@), vertex_count as nat) == Ok::<Seq<usize>, ObjError>(ix@),
            Err(e) => corner_indices(views(ts@), vertex_count as nat) == Err::<Seq<usize>, ObjError>(e),
        },
{
    let n = ts.len();
    let mut ix: Vec<usize> = Vec::new();
    let mut i: usize = 0;
    assert(views(ts@).take(0) =~= Seq::<Seq<char>>::empty());
    while i < n
        invariant
            n == ts@.len(),
            i <= n,
            corner_indices(views(ts@).take(i as int), vertex_count as nat) == Ok::<Seq<usize>, ObjError>(ix@),
        decreases n - i,
    {
        let ghost pre = views(ts@).take(i + 1);
        assert(pre.drop_last() =~= views(ts@).take(i as int));
        assert(pre.last() == ts@[i as int]@);
        match face_corner_index(&ts[i], vertex_count) {
            Err(e) => {
                proof {
                    lemma_corner_error_sticks(views(ts@), i + 1, vertex_count as nat);
                }
                return Err(e);
            },
            Ok(k) => {
                ix.push(k);
            },
        }
        i = i + 1;
    }
    assert(views(ts@).take(n as int) =~= views(ts@));
    Ok(ix)
}

/// Once a corner is bad, the whole face is bad with the same error.
proof fn lemma_corner_error_sticks(ts: Seq<Seq<char>>, i: int, vertex_count: nat)
    requires
        0 <= i <= ts.len(),
        corner_indices(ts.take(i), vertex_count) is Err,
    ensures
        corner_indices(ts, vertex_count) == corner_indices(ts.take(i), vertex_count),
    decreases ts.len() - i,
{
    if i < ts.len() {
        assert(ts.take(i + 1).drop_last() =~= ts.take(i));
        lemma_corner_error_sticks(ts, i + 1, vertex_count);
    } else {
        assert(ts.take(i) =~= ts);
    }
}


// ---------------------------------------------------------------------------
// Lines
// ---------------------------------------------------------------------------

/// What a line of an OBJ file asks for.
#[derive(Debug)]
pub enum ObjLine {
    /// A blank line, a comment, or a statement that is not read.
    Ignored,
    /// `mtllib`: load the material library with this file name.
    MaterialLibrary(Vec<char>),
    /// `usemtl`: give later faces the material with this name.
    UseMaterial(Vec<char>),
    /// `v`: a vertex, with the words after the keyword.
    Vertex(Vec<Vec<char>>),
    /// `f`: a face, with its corners.
    Face(Vec<Vec<char>>),
}

/// The word after the keyword, or the empty word when there is none.
pub open spec fn argument(ws: Seq<Seq<char>>) -> Seq<char> {
    if ws.len() > 1 {
        ws[1]
    } else {
        Seq::<char>::empty()
    }
}

/// How a line of an OBJ file reads, given its words `ws`: a line without words or
/// whose first word starts with `#` is ignored; `mtllib`, `usemtl`, `v` and `f` lines
/// are read; every other statement is ignored.
pub open spec fn obj_line_reads(ws: Seq<Seq<char>>, line: ObjLine) -> bool {
    if ws.len() == 0 || ws[0][0] == '#' {
        line is Ignored
    } else if ws[0] == seq!['m', 't', 'l', 'l', 'i', 'b'] {
        line matches ObjLine::MaterialLibrary(n) && n@ == argument(ws)
    } else if ws[0] == seq!['u', 's', 'e', 'm', 't', 'l'] {
        line matches ObjLine::UseMaterial(n) && n@ == argument(ws)
    } else if ws[0] == seq!['v'] {
        line matches ObjLine::Vertex(args) && views(args@) == ws.drop_first()
    } else if ws[0] == seq!['f'] {
        line matches ObjLine::Face(args) && views(args@) == ws.drop_first()
    } else {
        line is Ignored
    }
}

/// Whether the characters of `a` are those of `b`.
fn same_chars(a: &Vec<char>, b: &[char]) -> (r: bool)
    ensures
        r == (a@ == b@),
{
    if a.len() != b.len() {
        return false;
    }
    let n = a.len();
    let mut i: usize = 0;
    while i < n
        invariant
            n == a@.len(),
            n == b@.len(),
            i <= n,
            forall|j: int| 0 <= j < i ==> a@[j] == b@[j],
        decreases n - i,
    {
        if a[i] != b[i] {
            return false;
        }
        i = i + 1;
    }
    assert(a@ =~= b@);
    true
}

/// Takes the first word off `ws`, leaving the rest.
fn take_first(ws: &mut Vec<Vec<char>>) -> (first: Vec<char>)
    requires
        old(ws)@.len() > 0,
    ensures
        first@ == views(old(ws)@)[0],
        views(final(ws)@) == views(old(ws)@).drop_first(),
{
    let first = ws.remove(0);
    assert(views(final(ws)@) =~= views(old(ws)@).drop_first());
    first
}

/// The word after the keyword in `ws`, or the empty word.
fn argument_of(ws: Vec<Vec<char>>) -> (arg: Vec<char>)
    ensures
        arg@ == argument(views(ws@)),
{
    let mut ws = ws;
    if ws.len() > 1 {
        let a = ws.remove(1);
        a
    } else {
        Vec::new()
    }
}

/// Reads one line of an OBJ file (see [`obj_line_reads`]).
pub fn classify_obj_line(line: &str) -> (r: ObjLine)
    ensures
        obj_line_reads(words(line@), r),
{
    let cs = chars_of(line);
    let mut ws = split_whitespace(&cs);
    if ws.len() == 0 {
        return ObjLine::Ignored;
    }
    assert(views(ws@)[0] == ws@[0]@);
    assert(views(ws@)[0].len() > 0) by {
        crate::text::lemma_words_not_empty(cs@);
    }
    if ws[0][0] == '#' {
        return ObjLine::Ignored;
    }
    let ghost w0 = views(ws@)[0];
    let kw_mtllib = ['m', 't', 'l', 'l', 'i', 'b'];
    let kw_usemtl = ['u', 's', 'e', 'm', 't', 'l'];
    let kw_v = ['v'];
    let kw_f = ['f'];
    assert(kw_mtllib@ =~= seq!['m', 't', 'l', 'l', 'i', 'b']);
    assert(kw_usemtl@ =~= seq!['u', 's', 'e', 'm', 't', 'l']);
    assert(kw_v@ =~= seq!['v']);
    assert(kw_f@ =~= seq!['f']);
    if same_chars(&ws[0], &kw_mtllib) {
        ObjLine::MaterialLibrary(argument_of(ws))
    } else if same_chars(&ws[0], &kw_usemtl) {
        ObjLine::UseMaterial(argument_of(ws))
    } else if same_chars(&ws[0], &kw_v) {
        let _ = take_first(&mut ws);
        ObjLine::Vertex(ws)
    } else if same_chars(&ws[0], &kw_f) {
        let _ = take_first(&mut ws);
        ObjLine::Face(ws)
    } else {
        ObjLine::Ignored
    }
}


// ---------------------------------------------------------------------------
// Material libraries
// ---------------------------------------------------------------------------

/// What a line of an MTL file asks for.
#[derive(Debug)]
pub enum MtlLine {
    /// `newmtl`: start the material with this name.
    NewMaterial(Vec<char>),
    /// `Kd`: the diffuse colour of the current material, with the words after the keyword.
    DiffuseColor(Vec<Vec<char>>),
    /// Anything else.
    Ignored,
}

/// How a line of an MTL file reads, given its words `ws`.
pub open spec fn mtl_line_reads(ws: Seq<Seq<char>>, line: MtlLine) -> bool {
    if ws.len() == 0 {
        line is Ignored
    } else if ws[0] == seq!['n', 'e', 'w', 'm', 't', 'l'] {
        line matches MtlLine::NewMaterial(n) && n@ == argument(ws)
    } else if ws[0] == seq!['K', 'd'] {
        line matches MtlLine::DiffuseColor(args) && views(args@) == ws.drop_first()
    } else {
        line is Ignored
    }
}

/// Reads one line of an MTL file (see [`mtl_line_reads`]).
pub fn classify_mtl_line(line: &str) -> (r: MtlLine)
    ensures
        mtl_line_reads(words(line@), r),
{
    let cs = chars_of(line);
    let mut ws = split_whitespace(&cs);
    if ws.len() == 0 {
        return MtlLine::Ignored;
    }
    assert(views(ws@)[0] == ws@[0]@);
    let kw_newmtl = ['n', 'e', 'w', 'm', 't', 'l'];
    let kw_kd = ['K', 'd'];
    assert(kw_newmtl@ =~= seq!['n', 'e', 'w', 'm', 't', 'l']);
    assert(kw_kd@ =~= seq!['K', 'd']);
    if same_chars(&ws[0], &kw_newmtl) {
        MtlLine::NewMaterial(argument_of(ws))
    } else if same_chars(&ws[0], &kw_kd) {
        let _ = take_first(&mut ws);
        MtlLine::DiffuseColor(ws)
    } else {
        MtlLine::Ignored
    }
}

/// The map from names to indices that a list of entries gives, a later entry winning
/// over an earlier one with the same name.
pub open spec fn entries_map(es: Seq<(Vec<char>, usize)>) -> Map<Seq<char>, usize>
    decreases es.len(),
{
    if es.len() == 0 {
        Map::empty()
    } else {
        entries_map(es.drop_last()).insert(es.last().0@, es.last().1)
    }
}

/// Material names and their indices in a mesh's material colours.
pub struct NameTable {
    entries: Vec<(Vec<char>, usize)>,
}

impl View for NameTable {
    type V = Map<Seq<char>, usize>;

    closed spec fn view(&self) -> Map<Seq<char>, usize> {
        entries_map(self.entries@)
    }
}

/// Entries after position `j` that do not carry `name` leave its lookup to the
/// entries before.
proof fn lemma_entries_suffix(es: Seq<(Vec<char>, usize)>, j: int, name: Seq<char>)
    requires
        0 <= j <= es.len(),
        forall|k: int| j <= k < es.len() ==> (#[trigger] es[k]).0@ != name,
    ensures
        entries_map(es).contains_key(name) == entries_map(es.take(j)).contains_key(name),
        entries_map(es).contains_key(name) ==> entries_map(es)[name] == entries_map(es.take(j))[name],
    decreases es.len() - j,
{
    if j < es.len() {
        let es2 = es.drop_last();
        assert(es2.take(j) =~= es.take(j));
        assert forall|k: int| j <= k < es2.len() implies (#[trigger] es2[k]).0@ != name by {
            assert(es2[k] == es[k]);
        }
        lemma_entries_suffix(es2, j, name);
    } else {
        assert(es.take(j) =~= es);
    }
}

impl NameTable {
    /// A table without names.
    pub fn new() -> (t: Self)
        ensures
            t@ == Map::<Seq<char>, usize>::empty(),
    {
        NameTable { entries: Vec::new() }
    }

    /// Gives `name` the index `idx`, replacing any index it had.
    pub fn insert(&mut self, name: Vec<char>, idx: usize)
        ensures
            final(self)@ == old(self)@.insert(name@, idx),
    {
        self.entries.push((name, idx));
        assert(self.entries@.drop_last() =~= old(self).entries@);
    }

    /// The index of `name`, if it has one.
    pub fn get(&self, name: &Vec<char>) -> (r: Option<usize>)
        ensures
            r == name_lookup(self@, name@),
    {
        let mut j = self.entries.len();
        while j > 0
            invariant
                j <= self.entries@.len(),
                forall|k: int| j <= k < self.entries@.len() ==> (#[trigger] self.entries@[k]).0@ != name@,
            decreases j,
        {
            let e = &self.entries[j - 1];
            if chars_equal(&e.0, name) {
                proof {
                    let es = self.entries@;
                    lemma_entries_suffix(es, j as int, name@);
                    assert(es.take(j as int).drop_last() =~= es.take(j - 1));
                    assert(es.take(j as int).last() == es[j - 1]);
                }
                return Some(e.1);
            }
            j = j - 1;
        }
        proof {
            lemma_entries_suffix(self.entries@, 0, name@);
            assert(self.entries@.take(0) =~= Seq::<(Vec<char>, usize)>::empty());
        }
        None
    }
}

/// The index that a table with names `t` answers for `name` (see [`NameTable::get`]).
pub open spec fn name_lookup(t: Map<Seq<char>, usize>, name: Seq<char>) -> Option<usize> {
    if t.contains_key(name) {
        Some(t[name])
    } else {
        None
    }
}

/// A name table answers with the last index given to a name: after `insert` gives
/// `name` the index `idx`, `get` answers `idx` for it and what it answered before for
/// every other name.
pub proof fn lemma_name_table_read_after_write(
    before: &NameTable,
    after: &NameTable,
    name: Seq<char>,
    idx: usize,
    other: Seq<char>,
)
    requires
        after@ == before@.insert(name, idx),
    ensures
        name_lookup(after@, name) == Some(idx),
        other != name ==> name_lookup(after@, other) == name_lookup(before@, other),
{
}

/// Whether two character vectors hold the same characters.
fn chars_equal(a: &Vec<char>, b: &Vec<char>) -> (r: bool)
    ensures
        r == (a@ == b@),
{
    same_chars(a, b.as_slice())
}

/// One step of reading a material library, with the colours already worked out.
#[derive(Debug)]
pub enum MaterialCommand {
    /// Start the material with this name.
    NewMaterial(Vec<char>),
    /// Set the diffuse colour of the current material.
    DiffuseColor(MatColor),
}

/// Where the reading of a material library stands: the material being described (its
/// name and colour so far), the material colours, and the names read.
pub struct MtlState {
    pub name: Option<Seq<char>>,
    pub color: Option<MatColor>,
    pub materials: Seq<MatColor>,
    pub names: Map<Seq<char>, usize>,
}

/// Closes the material being described: its colour (white when it had none) is
/// appended, and its name gets the index of that colour.
pub open spec fn flush(s: MtlState) -> MtlState {
    match s.name {
        Some(n) => MtlState {
            name: s.name,
            color: s.color,
            materials: s.materials.push(
                match s.color {
                    Some(c) => c,
                    None => white(),
                },
            ),
            names: s.names.insert(n, s.materials.len() as usize),
        },
        None => s,
    }
}

/// The state after one command.
pub open spec fn mtl_step(s: MtlState, cmd: MaterialCommand) -> MtlState {
    match cmd {
        MaterialCommand::NewMaterial(n) => {
            let f = flush(s);
            MtlState { name: Some(n@), color: None, materials: f.materials, names: f.names }
        },
        MaterialCommand::DiffuseColor(c) => MtlState { color: Some(c), ..s },
    }
}

/// The state after a list of commands.
pub open spec fn mtl_after(s: MtlState, cmds: Seq<MaterialCommand>) -> MtlState
    decreases cmds.len(),
{
    if cmds.len() == 0 {
        s
    } else {
        mtl_step(mtl_after(s, cmds.drop_last()), cmds.last())
    }
}

/// The state before any command, with the material colours `materials`.
pub open spec fn mtl_start(materials: Seq<MatColor>) -> MtlState {
    MtlState { name: None, color: None, materials, names: Map::empty() }
}

/// Reads a material library, given as its commands: every material is appended to
/// `materials` when the next `newmtl` starts, and (when `complete`) the last one at the
/// end. The names get the indices of their colours in `materials`. `complete` is false
/// when the library could not be read to its end: the last material is then not
/// appended, and the caller drops the names.
pub fn read_materials(cmds: &Vec<MaterialCommand>, complete: bool, materials: &mut Vec<MatColor>) -> (names:
    NameTable)
    ensures
        ({
            let s = mtl_after(mtl_start(old(materials)@), cmds@);
            let f = if complete {
                flush(s)
            } else {
                s
            };
            &&& final(materials)@ == f.materials
            &&& names@ == f.names
        }),
{
    let mut names = NameTable::new();
    let mut name: Option<Vec<char>> = None;
    let mut color: Option<MatColor> = None;
    let n = cmds.len();
    let mut i: usize = 0;
    assert(cmds@.take(0) =~= Seq::<MaterialCommand>::empty());
    while i < n
        invariant
            n == cmds@.len(),
            i <= n,
            ({
                let s = mtl_after(mtl_start(old(materials)@), cmds@.take(i as int));
                &&& s.name == (match name {
                    Some(v) => Some(v@),
                    None => None::<Seq<char>>,
                })
                &&& s.color == color
                &&& s.materials == materials@
                &&& s.names == names@
            }),
        decreases n - i,
    {
        let ghost pre = cmds@.take(i + 1);
        assert(pre.drop_last() =~= cmds@.take(i as int));
        assert(pre.last() == cmds@[i as int]);
        match &cmds[i] {
            MaterialCommand::NewMaterial(next) => {
                flush_material(&name, &color, materials, &mut names);
                name = Some(next.clone());
                color = None;
            },
            MaterialCommand::DiffuseColor(c) => {
                color = Some(*c);
            },
        }
        i = i + 1;
    }
    assert(cmds@.take(n as int) =~= cmds@);
    if complete {
        flush_material(&name, &color, materials, &mut names);
    }
    names
}

/// Closes the material being described (see [`flush`]).
fn flush_material(
    name: &Option<Vec<char>>,
    color: &Option<MatColor>,
    materials: &mut Vec<MatColor>,
    names: &mut NameTable,
)
    ensures
        ({
            let s = MtlState {
                name: match name {
                    Some(v) => Some(v@),
                    None => None::<Seq<char>>,
                },
                color: *color,
                materials: old(materials)@,
                names: old(names)@,
            };
            &&& final(materials)@ == flush(s).materials
            &&& final(names)@ == flush(s).names
        }),
{
    match name {
        Some(n) => {
            let c = match color {
                Some(c) => *c,
                None => MatColor::new(255, 255, 255),
            };
            let idx = materials.len();
            materials.push(c);
            names.insert(n.clone(), idx);
        },
        None => {},
    }
}


/// Reading commands only appends material colours, and every name gets the index of
/// an existing colour.
pub proof fn lemma_mtl_after_grows(s: MtlState, cmds: Seq<MaterialCommand>)
    requires
        forall|n: Seq<char>| #[trigger] s.names.contains_key(n) ==> s.names[n] < s.materials.len(),
    ensures
        mtl_after(s, cmds).materials.len() >= s.materials.len(),
        mtl_after(s, cmds).materials.subrange(0, s.materials.len() as int) == s.materials,
        forall|n: Seq<char>| #[trigger]
            mtl_after(s, cmds).names.contains_key(n) ==> mtl_after(s, cmds).names[n] < mtl_after(
                s,
                cmds,
            ).materials.len(),
        flush(mtl_after(s, cmds)).materials.subrange(0, s.materials.len() as int) == s.materials,
        flush(mtl_after(s, cmds)).materials.len() >= s.materials.len(),
    decreases cmds.len(),
{
    if cmds.len() > 0 {
        lemma_mtl_after_grows(s, cmds.drop_last());
        let p = mtl_after(s, cmds.drop_last());
        let f = flush(p);
        assert(f.materials.subrange(0, s.materials.len() as int) =~= s.materials) by {
            assert(p.materials.subrange(0, s.materials.len() as int) == s.materials);
        }
        assert forall|n: Seq<char>| #[trigger] f.names.contains_key(n) implies f.names[n]
            < f.materials.len() by {
            if p.name is Some && n == p.name->0 {
            } else {
                assert(p.names.contains_key(n));
            }
        }
    }
    let q = mtl_after(s, cmds);
    assert(flush(q).materials.subrange(0, s.materials.len() as int) =~= s.materials) by {
        assert(q.materials.subrange(0, s.materials.len() as int) == s.materials);
    }
}

} // verus!
