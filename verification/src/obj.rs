use vstd::prelude::*;
use vstd::string::{StrSliceExecFns, StringSliceAdditionalSpecFns};
use vstd::utf8::{decode_utf8, valid_utf8};
use crate::text::{
    char_is_space, is_space, parse_isize, parse_isize_prefix, split_lines, split_words, texts,
    words_of, lines_of, IntErrorKind,
};

verus! {

broadcast use vstd::string::group_string_axioms;

/// The three coordinate words of a `v` line, as written.
#[derive(Debug, Clone, PartialEq, Eq)]
pub struct VertexText {
    pub x: Vec<char>,
    pub y: Vec<char>,
    pub z: Vec<char>,
}

impl View for VertexText {
    type V = (Seq<char>, Seq<char>, Seq<char>);

    open spec fn view(&self) -> (Seq<char>, Seq<char>, Seq<char>) {
        (self.x@, self.y@, self.z@)
    }
}

/// The geometry of an OBJ file: the coordinate words of each vertex, in file
/// order, and each triangle as three zero-based vertex indices.
#[derive(Debug, Clone, PartialEq, Eq)]
pub struct ObjText {
    pub vertices: Vec<VertexText>,
    pub faces: Vec<(usize, usize, usize)>,
}

/// What an OBJ file describes, as mathematical values.
pub struct ObjModel {
    pub vertices: Seq<(Seq<char>, Seq<char>, Seq<char>)>,
    pub faces: Seq<(int, int, int)>,
}

/// A face line whose vertex reference could not be read: the vertices read
/// before that line, and why the reference was refused.
pub struct ObjFault {
    pub vertices: Seq<(Seq<char>, Seq<char>, Seq<char>)>,
    pub kind: IntErrorKind,
}

pub open spec fn vertex_views(v: Seq<VertexText>) -> Seq<(Seq<char>, Seq<char>, Seq<char>)> {
    v.map_values(|t: VertexText| t@)
}

pub open spec fn face_views(f: Seq<(usize, usize, usize)>) -> Seq<(int, int, int)> {
    f.map_values(|t: (usize, usize, usize)| (t.0 as int, t.1 as int, t.2 as int))
}

impl View for ObjText {
    type V = ObjModel;

    open spec fn view(&self) -> ObjModel {
        ObjModel { vertices: vertex_views(self.vertices@), faces: face_views(self.faces@) }
    }
}

/// Why an OBJ file could not be read.
#[derive(Debug, Clone, PartialEq, Eq)]
pub enum LoadError {
    /// The bytes are not UTF-8.
    InvalidUtf8,
    /// A vertex reference of a face line is not an integer; `vertices` holds
    /// the vertices of the lines before it.
    InvalidVertexIndex { vertices: Vec<VertexText>, kind: IntErrorKind },
}

/// The number of characters of `w` before its first `'/'` (all of them when
/// it has none).
pub open spec fn slash_pos(w: Seq<char>) -> nat
    decreases w.len(),
{
    if w.len() == 0 || w[0] == '/' {
        0
    } else {
        1 + slash_pos(w.drop_first())
    }
}

/// `x` taken modulo `usize::MAX + 1`, as `as usize` does with an `isize`.
pub open spec fn wrap_usize(x: int) -> int {
    if x < 0 {
        x + usize::MAX + 1
    } else {
        x
    }
}

/// The zero-based vertex index that the OBJ reference `v` names when `count`
/// vertices have been read: `v` counts from 1, and a negative `v` counts back
/// from the end. Out-of-range references are not checked.
pub open spec fn resolve_index(v: int, count: int) -> int {
    if v < 0 {
        wrap_usize(count + v)
    } else {
        wrap_usize(v - 1)
    }
}

/// The vertex index that a word of a face line names: the part before the
/// first `'/'` read as an `isize`.
pub open spec fn face_ref(w: Seq<char>, count: int) -> Result<int, IntErrorKind> {
    match parse_isize(w.take(slash_pos(w) as int)) {
        Ok(v) => Ok(resolve_index(v, count)),
        Err(e) => Err(e),
    }
}

/// The indices of the words `rs`, or the refusal of the first that is refused.
pub open spec fn parse_refs(rs: Seq<Seq<char>>, count: int) -> Result<Seq<int>, IntErrorKind>
    decreases rs.len(),
{
    if rs.len() == 0 {
        Ok(Seq::empty())
    } else {
        match parse_refs(rs.drop_last(), count) {
            Ok(ix) => match face_ref(rs.last(), count) {
                Ok(i) => Ok(ix.push(i)),
                Err(e) => Err(e),
            },
            Err(e) => Err(e),
        }
    }
}

/// The triangles of a polygon, fanned out from its first corner.
pub open spec fn fan(ix: Seq<int>) -> Seq<(int, int, int)> {
    Seq::new((ix.len() - 2) as nat, |j: int| (ix[0], ix[j + 1], ix[j + 2]))
}

/// The first character of `line` that is not whitespace.
pub open spec fn lead(line: Seq<char>) -> Option<char>
    decreases line.len(),
{
    if line.len() == 0 {
        None
    } else if !is_space(line[0]) {
        Some(line[0])
    } else {
        lead(line.drop_first())
    }
}

/// The model after one more line: blank lines and `#` comments change
/// nothing; `v x y z` adds a vertex; `f a b c ...` adds the fan of its
/// references; every other line is ignored.
pub open spec fn read_line(m: ObjModel, line: Seq<char>) -> Result<ObjModel, ObjFault> {
    let ws = split_words(line);
    if lead(line) is None || lead(line) == Some('#') {
        Ok(m)
    } else if ws.len() == 4 && ws[0] == seq!['v'] {
        Ok(ObjModel { vertices: m.vertices.push((ws[1], ws[2], ws[3])), faces: m.faces })
    } else if ws.len() >= 4 && ws[0] == seq!['f'] {
        match parse_refs(ws.skip(1), m.vertices.len() as int) {
            Ok(ix) => Ok(ObjModel { vertices: m.vertices, faces: m.faces + fan(ix) }),
            Err(kind) => Err(ObjFault { vertices: m.vertices, kind }),
        }
    } else {
        Ok(m)
    }
}

/// The model of the lines `ls`, read in order, or the first fault.
pub open spec fn read_lines(ls: Seq<Seq<char>>) -> Result<ObjModel, ObjFault>
    decreases ls.len(),
{
    if ls.len() == 0 {
        Ok(ObjModel { vertices: Seq::empty(), faces: Seq::empty() })
    } else {
        match read_lines(ls.drop_last()) {
            Ok(m) => read_line(m, ls.last()),
            Err(e) => Err(e),
        }
    }
}

/// The model of the OBJ text `text`.
pub open spec fn read_obj(text: Seq<char>) -> Result<ObjModel, ObjFault> {
    read_lines(split_lines(text))
}

/// Once a prefix of the lines faults, the whole text faults the same way.
proof fn lemma_read_lines_fault(ls: Seq<Seq<char>>, k: int)
    requires
        0 <= k <= ls.len(),
        read_lines(ls.take(k)) is Err,
    ensures
        read_lines(ls) == read_lines(ls.take(k)),
    decreases ls.len() - k,
{
    if k < ls.len() {
        assert(ls.take(k + 1).drop_last() =~= ls.take(k));
        lemma_read_lines_fault(ls, k + 1);
    } else {
        assert(ls.take(k) =~= ls);
    }
}

/// Once a reference is refused, the whole list is refused the same way.
proof fn lemma_parse_refs_fault(rs: Seq<Seq<char>>, k: int, count: int)
    requires
        0 <= k <= rs.len(),
        parse_refs(rs.take(k), count) is Err,
    ensures
        parse_refs(rs, count) == parse_refs(rs.take(k), count),
    decreases rs.len() - k,
{
    if k < rs.len() {
        assert(rs.take(k + 1).drop_last() =~= rs.take(k));
        lemma_parse_refs_fault(rs, k + 1, count);
    } else {
        assert(rs.take(k) =~= rs);
    }
}

/// The position of the first `'/'` of `w` (see [`slash_pos`]).
fn slash_index(w: &Vec<char>) -> (k: usize)
    ensures
        k == slash_pos(w@),
        k <= w@.len(),
{
    let n = w.len();
    let mut j: usize = 0;
    assert(w@.skip(0) =~= w@);
    while j < n && w[j] != '/'
        invariant
            n == w@.len(),
            j <= n,
            slash_pos(w@) == j + slash_pos(w@.skip(j as int)),
        decreases n - j,
    {
        assert(w@.skip(j as int).drop_first() =~= w@.skip(j + 1));
        j = j + 1;
    }
    assert(j < n ==> w@.skip(j as int)[0] == '/');
    j
}

/// The zero-based index that the reference `v` names (see [`resolve_index`]).
fn resolve(v: isize, count: usize) -> (r: usize)
    ensures
        r == resolve_index(v as int, count as int),
{
    if v < 0 {
        let m: usize = (-(v + 1)) as usize + 1;
        if m <= count {
            count - m
        } else {
            usize::MAX - (m - count - 1)
        }
    } else if v == 0 {
        usize::MAX
    } else {
        (v - 1) as usize
    }
}

/// A `usize` result read as a mathematical integer.
pub open spec fn index_result(r: Result<usize, IntErrorKind>) -> Result<int, IntErrorKind> {
    match r {
        Ok(v) => Ok(v as int),
        Err(e) => Err(e),
    }
}

/// The vertex index that the face word `w` names (see [`face_ref`]).
fn face_index(w: &Vec<char>, count: usize) -> (r: Result<usize, IntErrorKind>)
    ensures
        index_result(r) == face_ref(w@, count as int),
{
    let end = slash_index(w);
    match parse_isize_prefix(w, end) {
        Ok(v) => Ok(resolve(v, count)),
        Err(e) => Err(e),
    }
}

/// The first non-whitespace character of `line` (see [`lead`]).
fn lead_char(line: &Vec<char>) -> (r: Option<char>)
    ensures
        r == lead(line@),
{
    let n = line.len();
    let mut j: usize = 0;
    assert(line@.skip(0) =~= line@);
    while j < n
        invariant
            n == line@.len(),
            j <= n,
            lead(line@) == lead(line@.skip(j as int)),
        decreases n - j,
    {
        assert(line@.skip(j as int)[0] == line@[j as int]);
        if !char_is_space(line[j]) {
            return Some(line[j]);
        }
        assert(line@.skip(j as int).drop_first() =~= line@.skip(j + 1));
        j = j + 1;
    }
    assert(line@.skip(j as int).len() == 0);
    None
}

/// The model held by a vertex vector and a face vector.
pub open spec fn model_of(vertices: Seq<VertexText>, faces: Seq<(usize, usize, usize)>) -> ObjModel {
    ObjModel { vertices: vertex_views(vertices), faces: face_views(faces) }
}

#[verifier::loop_isolation(false)]
/// Reads one line of an OBJ file into `vertices` and `faces` (see
/// [`read_line`]); on a fault neither is changed.
fn read_line_into(
    vertices: &mut Vec<VertexText>,
    faces: &mut Vec<(usize, usize, usize)>,
    line: &Vec<char>,
) -> (r: Result<(), IntErrorKind>)
    ensures
        match r {
            Ok(()) => read_line(model_of(old(vertices)@, old(faces)@), line@) == Ok::<
                ObjModel,
                ObjFault,
            >(model_of(final(vertices)@, final(faces)@)),
            Err(kind) => read_line(model_of(old(vertices)@, old(faces)@), line@) == Err::<
                ObjModel,
                ObjFault,
            >(ObjFault { vertices: vertex_views(old(vertices)@), kind }) && final(vertices)@
                == old(vertices)@ && final(faces)@ == old(faces)@,
        },
{
    let ghost m0 = model_of(vertices@, faces@);
    let ghost f0 = faces@;
    match lead_char(line) {
        None => {
            return Ok(());
        },
        Some(c) => {
            if c == '#' {
                return Ok(());
            }
        },
    }
    let mut ws = words_of(line);
    let ghost wsv = texts(ws@);
    let n = ws.len();
    assert(n > 0 ==> wsv[0] == ws@[0]@);
    if n == 4 && ws[0].len() == 1 && ws[0][0] == 'v' {
        assert(wsv[0] =~= seq!['v']);
        assert(wsv[1] == ws@[1]@ && wsv[2] == ws@[2]@ && wsv[3] == ws@[3]@);
        let z = ws.pop().unwrap();
        let y = ws.pop().unwrap();
        let x = ws.pop().unwrap();
        let ghost v0 = vertices@;
        vertices.push(VertexText { x, y, z });
        assert(vertex_views(vertices@) =~= vertex_views(v0).push((wsv[1], wsv[2], wsv[3])));
        return Ok(());
    }
    assert(n == 4 && wsv[0] == seq!['v'] ==> ws@[0]@.len() == 1 && ws@[0]@[0] == 'v');
    if n >= 4 && ws[0].len() == 1 && ws[0][0] == 'f' {
        assert(wsv[0] =~= seq!['f']);
        let count = vertices.len();
        let ghost refs = wsv.skip(1);
        let mut ix: Vec<usize> = Vec::new();
        let ghost mut sx: Seq<int> = Seq::empty();
        assert(refs.take(0) =~= Seq::<Seq<char>>::empty());
        for k in 1..n
            invariant
                n == ws@.len(),
                n >= 4,
                wsv == texts(ws@),
                refs == wsv.skip(1),
                count == vertices@.len(),
                ix@.len() == k - 1,
                parse_refs(refs.take(k - 1), count as int) == Ok::<Seq<int>, IntErrorKind>(sx),
                sx.len() == ix@.len(),
                forall|j: int| 0 <= j < ix@.len() ==> sx[j] == ix@[j],
        {
            assert(refs.take(k as int).drop_last() =~= refs.take(k - 1));
            assert(refs.take(k as int).last() == ws@[k as int]@);
            match face_index(&ws[k], count) {
                Ok(i) => {
                    ix.push(i);
                    proof {
                        sx = sx.push(i as int);
                    }
                },
                Err(e) => {
                    proof {
                        lemma_parse_refs_fault(refs, k as int, count as int);
                    }
                    return Err(e);
                },
            }
        }
        assert(refs.take(n - 1) =~= refs);
        let ghost spec_ix = sx;
        let m = ix.len();
        for j in 0..m - 2
            invariant
                m == ix@.len(),
                m >= 3,
                spec_ix.len() == m,
                forall|t: int| 0 <= t < m ==> spec_ix[t] == ix@[t],
                face_views(faces@) == face_views(f0) + fan(spec_ix).take(j as int),
        {
            let ghost before = faces@;
            faces.push((ix[0], ix[j + 1], ix[j + 2]));
            assert(face_views(faces@) =~= face_views(before).push(fan(spec_ix)[j as int]));
            assert(fan(spec_ix).take(j + 1) =~= fan(spec_ix).take(j as int).push(
                fan(spec_ix)[j as int],
            ));
        }
        assert(fan(spec_ix).take(m - 2) =~= fan(spec_ix));
        return Ok(());
    }
    assert(n >= 4 && wsv[0] == seq!['f'] ==> ws@[0]@.len() == 1 && ws@[0]@[0] == 'f');
    Ok(())
}

/// What a read of OBJ text gives back, as a model or a fault.
pub open spec fn load_result_view(r: &Result<ObjText, LoadError>) -> Option<Result<ObjModel, ObjFault>> {
    match r {
        Ok(t) => Some(Ok(t@)),
        Err(LoadError::InvalidVertexIndex { vertices, kind }) => Some(
            Err(ObjFault { vertices: vertex_views(vertices@), kind: *kind }),
        ),
        Err(LoadError::InvalidUtf8) => None,
    }
}

/// Reads OBJ text given as characters (see [`read_obj`]).
pub fn read_obj_chars(text: &Vec<char>) -> (r: Result<ObjText, LoadError>)
    ensures
        load_result_view(&r) == Some(read_obj(text@)),
{
    let lines = lines_of(text);
    let ghost ls = split_lines(text@);
    let mut vertices: Vec<VertexText> = Vec::new();
    let mut faces: Vec<(usize, usize, usize)> = Vec::new();
    assert(ls.take(0) =~= Seq::<Seq<char>>::empty());
    assert(vertex_views(vertices@) =~= Seq::empty());
    assert(face_views(faces@) =~= Seq::empty());
    let n = lines.len();
    for li in 0..n
        invariant
            n == lines@.len(),
            texts(lines@) == ls,
            ls == split_lines(text@),
            read_lines(ls.take(li as int)) == Ok::<ObjModel, ObjFault>(
                model_of(vertices@, faces@),
            ),
    {
        assert(ls.take(li + 1).drop_last() =~= ls.take(li as int));
        assert(ls.take(li + 1).last() == lines@[li as int]@);
        match read_line_into(&mut vertices, &mut faces, &lines[li]) {
            Ok(()) => {},
            Err(kind) => {
                proof {
                    lemma_read_lines_fault(ls, li + 1);
                }
                return Err(LoadError::InvalidVertexIndex { vertices, kind });
            },
        }
    }
    assert(ls.take(n as int) =~= ls);
    Ok(ObjText { vertices, faces })
}

/// `std::str::from_utf8`: by its documentation it succeeds exactly when the
/// bytes are valid UTF-8, and the string slice it returns has those bytes.
#[verifier::external_body]
fn str_from_utf8(data: &[u8]) -> (r: Option<&str>)
    ensures
        r is Some <==> valid_utf8(data@),
        r matches Some(s) ==> s.spec_bytes() == data@,
{
    std::str::from_utf8(data).ok()
}

/// The characters of `s`, in order.
fn chars_of(s: &str) -> (v: Vec<char>)
    ensures
        v@ == s@,
{
    let mut v: Vec<char> = Vec::new();
    for c in it: s.chars()
        invariant
            v@ == it.seq().take(it.index() as int),
            it.seq() == s@,
    {
        v.push(c);
    }
    v
}

/// The loader of Wavefront OBJ files.
pub struct ObjLoader;

impl ObjLoader {
    /// Reads an OBJ file: fails on bytes that are not UTF-8, and on a face
    /// line with a vertex reference that is not an integer; otherwise gives
    /// the model of the text (see [`read_obj`]).
    pub fn load(data: &[u8]) -> (r: Result<ObjText, LoadError>)
        ensures
            r matches Err(LoadError::InvalidUtf8) <==> !valid_utf8(data@),
            valid_utf8(data@) ==> load_result_view(&r) == Some(read_obj(decode_utf8(data@))),
    {
        match str_from_utf8(data) {
            None => Err(LoadError::InvalidUtf8),
            Some(s) => {
                proof {
                    vstd::utf8::encode_utf8_decode_utf8(s@);
                }
                let text = chars_of(s);
                read_obj_chars(&text)
            },
        }
    }

    /// Whether a file with extension `ext` is an OBJ file: only `"obj"` is.
    pub fn supports_extension(ext: &str) -> (b: bool)
        ensures
            b == (ext@ == "obj"@),
    {
        proof {
            reveal_strlit("obj");
        }
        let n = ext.unicode_len();
        if n != 3 {
            return false;
        }
        let r = ext.get_char(0) == 'o' && ext.get_char(1) == 'b' && ext.get_char(2) == 'j';
        assert(r ==> ext@ =~= "obj"@);
        r
    }
}

/// `later` keeps everything of `earlier` and only adds after it.
pub open spec fn extends(later: ObjModel, earlier: ObjModel) -> bool {
    &&& earlier.vertices.len() <= later.vertices.len()
    &&& later.vertices.take(earlier.vertices.len() as int) == earlier.vertices
    &&& earlier.faces.len() <= later.faces.len()
    &&& later.faces.take(earlier.faces.len() as int) == earlier.faces
}

proof fn lemma_read_line_extends(m: ObjModel, line: Seq<char>)
    ensures
        read_line(m, line) matches Ok(m2) ==> extends(m2, m),
        read_line(m, line) matches Err(f) ==> f.vertices == m.vertices,
{
    assert(m.vertices.take(m.vertices.len() as int) =~= m.vertices);
    assert(m.faces.take(m.faces.len() as int) =~= m.faces);
    let ws = split_words(line);
    if ws.len() == 4 && ws[0] == seq!['v'] {
        assert(m.vertices.push((ws[1], ws[2], ws[3])).take(m.vertices.len() as int) =~= m.vertices);
    }
    if ws.len() >= 4 && ws[0] == seq!['f'] {
        if let Ok(ix) = parse_refs(ws.skip(1), m.vertices.len() as int) {
            assert((m.faces + fan(ix)).take(m.faces.len() as int) =~= m.faces);
        }
    }
}

proof fn lemma_read_lines_prefix(ls: Seq<Seq<char>>, k: int)
    requires
        0 <= k <= ls.len(),
    ensures
        read_lines(ls.take(k)) is Err ==> read_lines(ls) == read_lines(ls.take(k)),
        read_lines(ls.take(k)) matches Ok(m) ==> match read_lines(ls) {
            Ok(m2) => extends(m2, m),
            Err(f) => m.vertices.len() <= f.vertices.len() && f.vertices.take(
                m.vertices.len() as int,
            ) == m.vertices,
        },
    decreases ls.len() - k,
{
    if read_lines(ls.take(k)) is Err {
        lemma_read_lines_fault(ls, k);
    } else if k == ls.len() {
        assert(ls.take(k) =~= ls);
        let m = read_lines(ls)->Ok_0;
        assert(m.vertices.take(m.vertices.len() as int) =~= m.vertices);
        assert(m.faces.take(m.faces.len() as int) =~= m.faces);
    } else {
        let m = read_lines(ls.take(k))->Ok_0;
        assert(ls.take(k + 1).drop_last() =~= ls.take(k));
        lemma_read_line_extends(m, ls[k]);
        lemma_read_lines_prefix(ls, k + 1);
        if let Ok(m1) = read_lines(ls.take(k + 1)) {
            assert(extends(m1, m));
            match read_lines(ls) {
                Ok(m2) => {
                    assert(m2.vertices.take(m.vertices.len() as int) =~= m2.vertices.take(
                        m1.vertices.len() as int,
                    ).take(m.vertices.len() as int));
                    assert(m2.faces.take(m.faces.len() as int) =~= m2.faces.take(
                        m1.faces.len() as int,
                    ).take(m.faces.len() as int));
                },
                Err(f) => {
                    assert(f.vertices.take(m.vertices.len() as int) =~= f.vertices.take(
                        m1.vertices.len() as int,
                    ).take(m.vertices.len() as int));
                },
            }
        }
    }
}

proof fn lemma_split_lines_concat(a: Seq<char>, b: Seq<char>)
    ensures
        split_lines(a + seq!['\n'] + b) == split_lines(a) + split_lines(b),
    decreases b.len(),
{
    if b.len() == 0 {
        assert((a + seq!['\n'] + b).drop_last() =~= a);
        assert(split_lines(a) + split_lines(b) =~= split_lines(a).push(Seq::empty()));
    } else {
        let s = a + seq!['\n'] + b;
        assert(s.drop_last() =~= a + seq!['\n'] + b.drop_last());
        lemma_split_lines_concat(a, b.drop_last());
        crate::text::lemma_split_lines_nonempty(b.drop_last());
        crate::text::lemma_split_lines_nonempty(a);
        let pa = split_lines(a);
        let pb = split_lines(b.drop_last());
        if b.last() == '\n' {
            assert(split_lines(s) =~= pa + pb.push(Seq::empty()));
        } else {
            assert(split_lines(s) =~= pa + pb.update(pb.len() - 1, pb.last().push(b.last())));
        }
    }
}

/// Lines added after the text `a` never change what `a` gave: a fault in `a`
/// stays the fault of the whole, and otherwise the whole keeps the vertices
/// and faces of `a` and only adds after them.
pub proof fn law_later_lines_keep_earlier(a: Seq<char>, b: Seq<char>)
    ensures
        read_obj(a) is Err ==> read_obj(a + seq!['\n'] + b) == read_obj(a),
        read_obj(a) matches Ok(m) ==> match read_obj(a + seq!['\n'] + b) {
            Ok(m2) => extends(m2, m),
            Err(f) => m.vertices.len() <= f.vertices.len() && f.vertices.take(
                m.vertices.len() as int,
            ) == m.vertices,
        },
{
    lemma_split_lines_concat(a, b);
    let ls = split_lines(a) + split_lines(b);
    assert(ls.take(split_lines(a).len() as int) =~= split_lines(a));
    lemma_read_lines_prefix(ls, split_lines(a).len() as int);
}

/// A reference from the end names the same vertex as the reference from the
/// start that it stands for: with `count` vertices read, `v` and
/// `v - count - 1` both name vertex `v - 1`.
pub proof fn law_relative_index(v: int, count: int)
    requires
        1 <= v <= count,
    ensures
        resolve_index(v, count) == v - 1,
        resolve_index(v - count - 1, count) == v - 1,
{
}

/// A face line with `k` references adds `k - 2` triangles, fanned from its
/// first reference.
pub proof fn law_face_fan(ix: Seq<int>, j: int)
    requires
        ix.len() >= 3,
        0 <= j < ix.len() - 2,
    ensures
        fan(ix).len() == ix.len() - 2,
        fan(ix)[j] == (ix[0], ix[j + 1], ix[j + 2]),
{
}

/// `lead` finds the first character of a line that is not whitespace: every
/// character before it is whitespace, and when there is none, the whole line
/// is whitespace.
pub proof fn law_lead_is_first_non_space(line: Seq<char>)
    ensures
        lead(line) matches Some(ch) ==> exists|j: int|
            0 <= j < line.len() && line[j] == ch && !is_space(ch) && forall|k: int|
                0 <= k < j ==> is_space(#[trigger] line[k]),
        lead(line) is None ==> forall|k: int| 0 <= k < line.len() ==> is_space(#[trigger] line[k]),
    decreases line.len(),
{
    if line.len() > 0 && is_space(line[0]) {
        let rest = line.drop_first();
        law_lead_is_first_non_space(rest);
        if let Some(ch) = lead(rest) {
            let j = choose|j: int|
                0 <= j < rest.len() && rest[j] == ch && !is_space(ch) && forall|k: int|
                    0 <= k < j ==> is_space(#[trigger] rest[k]);
            assert(line[j + 1] == ch);
            assert forall|k: int| 0 <= k < j + 1 implies is_space(#[trigger] line[k]) by {
                if k > 0 {
                    assert(line[k] == rest[k - 1]);
                }
            }
        } else {
            assert forall|k: int| 0 <= k < line.len() implies is_space(#[trigger] line[k]) by {
                if k > 0 {
                    assert(line[k] == rest[k - 1]);
                }
            }
        }
    } else if line.len() > 0 {
        assert(line[0] == lead(line)->0);
    }
}

/// Whitespace in front of a line does not change how the line is read: an
/// indented vertex, face or comment line means what it means unindented.
pub proof fn law_leading_space_ignored(m: ObjModel, c: char, line: Seq<char>)
    requires
        is_space(c),
    ensures
        read_line(m, seq![c] + line) == read_line(m, line),
{
    crate::text::law_words_ignore_leading_space(c, line);
    assert((seq![c] + line).drop_first() =~= line);
}

} // verus!
