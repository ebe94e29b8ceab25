use software_rasterizer::{IntErrorKind, LoadError, ObjLoader, ObjText, VertexText};

fn chars(s: &str) -> Vec<char> {
    s.chars().collect()
}

fn vertex(x: &str, y: &str, z: &str) -> VertexText {
    VertexText { x: chars(x), y: chars(y), z: chars(z) }
}

fn load(s: &str) -> Result<ObjText, LoadError> {
    ObjLoader::load(s.as_bytes())
}

#[test]
fn reads_vertices_and_a_triangle() {
    let r = load("v 1 2 3\nv 4.5 -5 6e2\nv 7 8 9\nf 1 2 3\n").unwrap();
    assert_eq!(
        r.vertices,
        vec![vertex("1", "2", "3"), vertex("4.5", "-5", "6e2"), vertex("7", "8", "9")]
    );
    assert_eq!(r.faces, vec![(0, 1, 2)]);
}

#[test]
fn empty_file() {
    let r = load("").unwrap();
    assert!(r.vertices.is_empty());
    assert!(r.faces.is_empty());
}

#[test]
fn polygons_are_fanned() {
    let r = load("v 0 0 0\nv 1 0 0\nv 1 1 0\nv 0 1 0\nv 0 2 0\nf 1 2 3 4 5").unwrap();
    assert_eq!(r.faces, vec![(0, 1, 2), (0, 2, 3), (0, 3, 4)]);
}

#[test]
fn negative_references_count_back() {
    let r = load("v 0 0 0\nv 1 0 0\nv 1 1 0\nf -3 -2 -1\nv 2 2 2\nf -1 1 -4").unwrap();
    assert_eq!(r.faces, vec![(0, 1, 2), (3, 0, 0)]);
}

#[test]
fn relative_and_absolute_agree() {
    let a = load("v 0 0 0\nv 1 0 0\nv 1 1 0\nf 1 2 3").unwrap();
    let b = load("v 0 0 0\nv 1 0 0\nv 1 1 0\nf -3 -2 -1").unwrap();
    assert_eq!(a.faces, b.faces);
}

#[test]
fn texture_and_normal_parts_are_ignored() {
    let r = load("v 0 0 0\nv 1 0 0\nv 1 1 0\nf 1/4/7 2//5 +3/9").unwrap();
    assert_eq!(r.faces, vec![(0, 1, 2)]);
}

#[test]
fn unchecked_references_wrap() {
    let r = load("f 0 5 -1").unwrap();
    assert_eq!(r.faces, vec![(usize::MAX, 4, usize::MAX)]);
}

#[test]
fn comments_blank_and_other_lines_are_skipped() {
    let text = "# a comment\n\n   \t \r\nvn 0 0 1\nvt 0 0\no name\ng group\nusemtl m\ns 1\n  #v 1 2 3\nv 1 2\nv 1 2 3 4\nf 1 2\nv 1 2 3\n";
    let r = load(text).unwrap();
    assert_eq!(r.vertices, vec![vertex("1", "2", "3")]);
    assert!(r.faces.is_empty());
}

#[test]
fn windows_line_endings_and_unicode_spaces() {
    let r = load("v 1 2 3\r\nv\u{a0}4\u{3000}5 6\r\nv 7\t8  9\r\nf 1 2 3\r\n").unwrap();
    assert_eq!(
        r.vertices,
        vec![vertex("1", "2", "3"), vertex("4", "5", "6"), vertex("7", "8", "9")]
    );
    assert_eq!(r.faces, vec![(0, 1, 2)]);
}

#[test]
fn invalid_utf8_is_refused() {
    assert_eq!(ObjLoader::load(&[b'v', b' ', 0xff, b'\n']), Err(LoadError::InvalidUtf8));
    assert_eq!(ObjLoader::load(&[0xc3, 0x28]), Err(LoadError::InvalidUtf8));
}

#[test]
fn non_ascii_text_is_read() {
    let r = load("# é ü 中\nv é 2 3\n").unwrap();
    assert_eq!(r.vertices, vec![vertex("é", "2", "3")]);
}

#[test]
fn bad_reference_is_invalid_digit() {
    let r = load("v 1 2 3\nf 1 x 3\nv 4 5 6\n");
    assert_eq!(
        r,
        Err(LoadError::InvalidVertexIndex {
            vertices: vec![vertex("1", "2", "3")],
            kind: IntErrorKind::InvalidDigit
        })
    );
}

#[test]
fn lone_sign_is_invalid_digit() {
    let r = load("f - 1 2");
    assert_eq!(
        r,
        Err(LoadError::InvalidVertexIndex { vertices: vec![], kind: IntErrorKind::InvalidDigit })
    );
}

#[test]
fn empty_reference_is_empty() {
    let r = load("f /1 2 3");
    assert_eq!(r, Err(LoadError::InvalidVertexIndex { vertices: vec![], kind: IntErrorKind::Empty }));
}

#[test]
fn huge_reference_overflows() {
    let r = load("f 99999999999999999999 1 2");
    assert_eq!(
        r,
        Err(LoadError::InvalidVertexIndex { vertices: vec![], kind: IntErrorKind::PosOverflow })
    );
    let r = load("f 1 2 -99999999999999999999");
    assert_eq!(
        r,
        Err(LoadError::InvalidVertexIndex { vertices: vec![], kind: IntErrorKind::NegOverflow })
    );
}

#[test]
fn first_bad_reference_decides() {
    let r = load("f 1 99999999999999999999x q");
    assert_eq!(
        r,
        Err(LoadError::InvalidVertexIndex { vertices: vec![], kind: IntErrorKind::PosOverflow })
    );
    let r = load("f 1 9x99999999999999999999 q");
    assert_eq!(
        r,
        Err(LoadError::InvalidVertexIndex { vertices: vec![], kind: IntErrorKind::InvalidDigit })
    );
}

#[test]
fn isize_bounds_are_accepted() {
    let text = format!("f {} {} 1", isize::MAX, isize::MIN);
    let r = load(&text).unwrap();
    assert_eq!(r.faces.len(), 1);
    assert_eq!(r.faces[0].0, (isize::MAX - 1) as usize);
    assert_eq!(r.faces[0].1, isize::MIN as usize);
}

#[test]
fn later_lines_keep_earlier_results() {
    let a = "v 1 2 3\nv 4 5 6\nv 7 8 9\nf 1 2 3";
    let b = "v 0 0 0\nf 1 2 3 4";
    let first = load(a).unwrap();
    let whole = load(&format!("{}\n{}", a, b)).unwrap();
    assert_eq!(&whole.vertices[..first.vertices.len()], &first.vertices[..]);
    assert_eq!(&whole.faces[..first.faces.len()], &first.faces[..]);
    let bad = "f q 1 2";
    assert_eq!(load(bad), load(&format!("{}\n{}", bad, a)));
}

#[test]
fn supports_only_obj() {
    assert!(ObjLoader::supports_extension("obj"));
    assert!(!ObjLoader::supports_extension("OBJ"));
    assert!(!ObjLoader::supports_extension("ob"));
    assert!(!ObjLoader::supports_extension("objx"));
    assert!(!ObjLoader::supports_extension(""));
}
