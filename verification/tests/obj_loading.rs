use space_travel::obj_loader::{parse_obj, ObjDocument, Span, VertexSpans};
use space_travel::text::tokenize;

fn load(s: &str) -> (Vec<char>, ObjDocument) {
    let t: Vec<char> = s.chars().collect();
    let toks = tokenize(&t);
    let flags: Vec<bool> = toks
        .iter()
        .map(|tk| t[tk.start..tk.end].iter().collect::<String>().parse::<f32>().is_ok())
        .collect();
    let doc = parse_obj(&t, &toks, &flags);
    (t, doc)
}

fn coords(t: &[char], v: &VertexSpans) -> [String; 3] {
    let s = |sp: Span| t[sp.start..sp.end].iter().collect::<String>();
    [s(v.x), s(v.y), s(v.z)]
}

#[test]
fn triangle_document() {
    let (t, doc) = load("# a triangle\nv 0 0 0\nv 1 0 0\nv 0 1 0\nf 1 2 3\n");
    assert_eq!(doc.vertices.len(), 3);
    assert_eq!(coords(&t, &doc.vertices[1]), ["1".to_string(), "0".to_string(), "0".to_string()]);
    assert_eq!(doc.faces, vec![[0, 1, 2]]);
    assert!(doc.short_faces.is_empty());
}

#[test]
fn polygons_are_fanned_from_their_first_corner() {
    let (_, doc) = load("v 0 0 0\nv 1 0 0\nv 1 1 0\nv 0 1 0\nv 0 2 0\nf 1 2 3 4 5\n");
    assert_eq!(doc.faces, vec![[0, 1, 2], [0, 2, 3], [0, 3, 4]]);
}

#[test]
fn negative_indices_count_back_from_the_last_vertex() {
    let (_, doc) = load("v 0 0 0\nv 1 0 0\nv 0 1 0\nf -3 -2 -1\nv 5 5 5\nf -1 -2 -4\n");
    assert_eq!(doc.faces, vec![[0, 1, 2], [3, 2, 0]]);
}

#[test]
fn corner_forms_with_slashes() {
    let (_, doc) = load("v 0 0 0\nv 1 0 0\nv 0 1 0\nf 1/1/1 2//2 3/7\n");
    assert_eq!(doc.faces, vec![[0, 1, 2]]);
}

#[test]
fn unusable_corners_are_skipped() {
    let (_, doc) = load("v 0 0 0\nv 1 0 0\nv 0 1 0\nf 1 0 9 -4 x /2 2 3\n");
    assert_eq!(doc.faces, vec![[0, 1, 2]]);
}

#[test]
fn short_polygons_are_reported_by_line() {
    let (_, doc) = load("v 0 0 0\nv 1 0 0\n\n# comment\nf 1 2\nf 7 8 9\nf 2\n");
    assert!(doc.faces.is_empty());
    assert_eq!(doc.short_faces, vec![5, 7]);
}

#[test]
fn vertices_need_three_numeric_coordinates() {
    let (t, doc) = load("v 1 2\nv 1 x 2 3 4\nv a b c\nvn 0 0 1\nv 1e3 -2.5 inf\n");
    assert_eq!(doc.vertices.len(), 2);
    assert_eq!(coords(&t, &doc.vertices[0]), ["1".to_string(), "2".to_string(), "3".to_string()]);
    assert_eq!(coords(&t, &doc.vertices[1]), ["1e3".to_string(), "-2.5".to_string(), "inf".to_string()]);
}

#[test]
fn face_indices_only_count_earlier_vertices() {
    let (_, doc) = load("f 1 2 3\nv 0 0 0\nv 1 0 0\nv 0 1 0\nf 1 2 3\n");
    assert_eq!(doc.faces, vec![[0, 1, 2]]);
    assert_eq!(doc.short_faces, Vec::<usize>::new());
}

#[test]
fn every_face_index_is_a_vertex() {
    let (_, doc) = load("v 0 0 0\nf 1 1 1 -1 2\nv 1 1 1\nv 2 2 2\nf -1 -2 -3 3 4\n");
    for f in &doc.faces {
        for &i in f {
            assert!(i < doc.vertices.len());
        }
    }
}

#[test]
fn crlf_lines_and_other_tags() {
    let (_, doc) = load("o thing\r\nv 0 0 0\r\nv 1 0 0\r\nv 0 1 0\r\nusemtl m\r\nf 3 2 1\r\n");
    assert_eq!(doc.faces, vec![[2, 1, 0]]);
}
