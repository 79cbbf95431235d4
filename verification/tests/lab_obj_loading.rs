use space_travel::planet_lab::obj_loader::parse_lab_obj;
use space_travel::text::tokenize;

fn lab(s: &str) -> Option<(usize, Vec<[u32; 3]>)> {
    let t: Vec<char> = s.chars().collect();
    let toks = tokenize(&t);
    parse_lab_obj(&t, &toks).map(|d| (d.vertices.len(), d.indices))
}

#[test]
fn lab_reads_vertices_and_faces() {
    let r = lab("# sphere\nv 0 0 0\nv 1 0 0\nv 0 1 0 9\nf 1/1 2/2/2 3 4\n");
    assert_eq!(r, Some((3, vec![[0, 1, 2]])));
}

#[test]
fn lab_does_not_check_face_indices_against_vertices() {
    assert_eq!(lab("f 7 8 9\n"), Some((0, vec![[6, 7, 8]])));
}

#[test]
fn lab_needs_a_plain_space_after_the_tag() {
    assert_eq!(lab("v\t1 2 3\nf\t1 2 3\nv \nvt 0 0\n"), Some((0, vec![])));
}

#[test]
fn lab_refuses_short_lines() {
    assert_eq!(lab("v 1 2\n"), None);
    assert_eq!(lab("v 0 0 0\nf 1 1\n"), None);
}

#[test]
fn lab_refuses_bad_corners() {
    assert_eq!(lab("f 0 1 2\n"), None);
    assert_eq!(lab("f -1 1 2\n"), None);
    assert_eq!(lab("f /1 1 2\n"), None);
    assert_eq!(lab("f 1 2 4294967296\n"), None);
    assert_eq!(lab("f +1 2 4294967295\n"), Some((0, vec![[0, 1, 4294967294]])));
}

#[test]
fn lab_takes_only_three_corners() {
    assert_eq!(lab("f 1 2 3 x\n"), Some((0, vec![[0, 1, 2]])));
}
