use space_travel::mtl::parse_mtl_diffuse;
use space_travel::obj_loader::Span;
use space_travel::text::tokenize;

fn diffuse(s: &str) -> Option<[String; 3]> {
    let t: Vec<char> = s.chars().collect();
    let toks = tokenize(&t);
    let flags: Vec<bool> = toks
        .iter()
        .map(|tk| t[tk.start..tk.end].iter().collect::<String>().parse::<f32>().is_ok())
        .collect();
    let text = |sp: Span| t[sp.start..sp.end].iter().collect::<String>();
    parse_mtl_diffuse(&t, &toks, &flags).map(|[r, g, b]| [text(r), text(g), text(b)])
}

fn strs(a: &str, b: &str, c: &str) -> Option<[String; 3]> {
    Some([a.to_string(), b.to_string(), c.to_string()])
}

#[test]
fn reads_the_diffuse_line() {
    let m = "newmtl Snoopy\nNs 10\nKa 0 0 0\n  Kd 0.9 0.85 0.8  \nKs 0.5 0.5 0.5\n";
    assert_eq!(diffuse(m), strs("0.9", "0.85", "0.8"));
}

#[test]
fn takes_the_first_usable_line() {
    let m = "Kd 1 x 1\nKd 0.1 0.2\nKd 0.1 0.2 0.3 0.4\nKd 0.5 0.6 0.7\nKd 0 0 0\n";
    assert_eq!(diffuse(m), strs("0.5", "0.6", "0.7"));
}

#[test]
fn needs_kd_and_a_plain_space() {
    assert_eq!(diffuse("Kd\t1 2 3\nkd 1 2 3\nKdx 1 2 3\n# Kd 1 2 3\n"), None);
    assert_eq!(diffuse(""), None);
    assert_eq!(diffuse("Kd  1 2 3"), strs("1", "2", "3"));
}
