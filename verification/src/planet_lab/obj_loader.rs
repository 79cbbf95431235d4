//! The planet lab's strict OBJ reader: a line that begins `v ` gives a vertex
//! from its next three tokens and a line that begins `f ` a triangle from
//! its next three corners (1-based vertex numbers, before any `/`). Any other
//! line is skipped. A `v ` or `f ` line without three such tokens makes the
//! document unreadable.
use vstd::prelude::*;

use crate::obj_loader::{before_slash, lemma_before_slash, span_of, Span, VertexSpans};
use crate::text::{
    lemma_tokens_well_formed, parse_u32, parse_u32_at, token_in_text, tokens, tokens_well_formed,
    word, Token,
};

verus! {

/// How the planet lab reads a line.
#[derive(Clone, Copy, Debug, PartialEq, Eq)]
pub enum LabLineKind {
    Vertex,
    Face,
    Other,
}

/// The vertices (by the spans of their coordinates) and triangles (0-based
/// vertex numbers) of a document that the planet lab can read.
pub struct LabDocument {
    pub vertices: Vec<VertexSpans>,
    pub indices: Vec<[u32; 3]>,
}

/// A document read up to some token.
pub struct LabScan {
    pub vertices: Seq<VertexSpans>,
    pub indices: Seq<[u32; 3]>,
    pub readable: bool,
    pub kind: LabLineKind,
    pub args: Seq<Token>,
}

/// The kind of the line that token `k` begins: the trimmed line starts with
/// `v ` (or `f `) exactly when its first token is `v` (or `f`), a plain space
/// follows it, and another token follows on the same line.
pub open spec fn lab_line_kind(t: Seq<char>, toks: Seq<Token>, k: int) -> LabLineKind {
    let tag = toks[k];
    let spaced = tag.end < t.len() && t[tag.end as int] == ' ';
    let more = k < toks.len() - 1 && toks[k + 1].line == tag.line;
    if spaced && more && word(t, tag) == seq!['v'] {
        LabLineKind::Vertex
    } else if spaced && more && word(t, tag) == seq!['f'] {
        LabLineKind::Face
    } else {
        LabLineKind::Other
    }
}

/// The 1-based vertex number that corner `w` gives, read as a `u32`.
pub open spec fn lab_corner(w: Seq<char>) -> Option<int> {
    parse_u32(before_slash(w))
}

/// The corner is readable: a `u32` of at least 1.
pub open spec fn lab_corner_ok(w: Seq<char>) -> bool {
    lab_corner(w) matches Some(v) && v >= 1
}

/// The scan once the line being read is complete.
pub open spec fn lab_close(t: Seq<char>, st: LabScan) -> LabScan {
    let a = st.args;
    match st.kind {
        LabLineKind::Vertex => if a.len() >= 3 {
            LabScan {
                vertices: st.vertices.push(
                    VertexSpans {
                        x: Span { start: a[0].start, end: a[0].end },
                        y: Span { start: a[1].start, end: a[1].end },
                        z: Span { start: a[2].start, end: a[2].end },
                    },
                ),
                ..st
            }
        } else {
            LabScan { readable: false, ..st }
        },
        LabLineKind::Face => if a.len() >= 3 && lab_corner_ok(word(t, a[0])) && lab_corner_ok(
            word(t, a[1]),
        ) && lab_corner_ok(word(t, a[2])) {
            LabScan {
                indices: st.indices.push(
                    [
                        (lab_corner(word(t, a[0]))->0 - 1) as u32,
                        (lab_corner(word(t, a[1]))->0 - 1) as u32,
                        (lab_corner(word(t, a[2]))->0 - 1) as u32,
                    ],
                ),
                ..st
            }
        } else {
            LabScan { readable: false, ..st }
        },
        LabLineKind::Other => st,
    }
}

pub open spec fn lab_step(t: Seq<char>, toks: Seq<Token>, st: LabScan, k: int) -> LabScan {
    if k == 0 || toks[k].line != toks[k - 1].line {
        LabScan { kind: lab_line_kind(t, toks, k), args: Seq::empty(), ..lab_close(t, st) }
    } else {
        LabScan { args: st.args.push(toks[k]), ..st }
    }
}

pub open spec fn lab_prefix(t: Seq<char>, toks: Seq<Token>, n: nat) -> LabScan
    decreases n,
{
    if n == 0 {
        LabScan {
            vertices: Seq::empty(),
            indices: Seq::empty(),
            readable: true,
            kind: LabLineKind::Other,
            args: Seq::empty(),
        }
    } else {
        lab_step(t, toks, lab_prefix(t, toks, (n - 1) as nat), n - 1)
    }
}

/// The whole text read.
pub open spec fn lab_scan(t: Seq<char>) -> LabScan {
    let toks = tokens(t);
    lab_close(t, lab_prefix(t, toks, toks.len()))
}

/// The 1-based vertex number of the corner `text[tk.start..tk.end]`.
fn lab_corner_at(text: &[char], tk: Token) -> (r: Option<u32>)
    requires
        tk.start < tk.end <= text@.len(),
    ensures
        match r {
            Some(v) => lab_corner(word(text@, tk)) == Some(v as int),
            None => lab_corner(word(text@, tk)) is None,
        },
{
    let ghost w = word(text@, tk);
    let mut p = tk.start;
    while p < tk.end && text[p] != '/'
        invariant
            tk.start <= p <= tk.end <= text@.len(),
            forall|j: int| tk.start <= j < p ==> text@[j] != '/',
        decreases tk.end - p,
    {
        p = p + 1;
    }
    proof {
        assert forall|j: int| 0 <= j < p - tk.start implies w[j] != '/' by {
            assert(w[j] == text@[tk.start + j]);
        }
        if p < tk.end {
            assert(w[p - tk.start] == text@[p as int]);
        }
        lemma_before_slash(w, p - tk.start);
        assert(w.take(p - tk.start) == text@.subrange(tk.start as int, p as int));
    }
    parse_u32_at(text, tk.start, p)
}

fn is_single(text: &[char], tk: Token, c: char) -> (b: bool)
    requires
        tk.start < tk.end <= text@.len(),
    ensures
        b == (word(text@, tk) == seq![c]),
{
    let ghost w = word(text@, tk);
    if tk.end - tk.start == 1 && text[tk.start] == c {
        assert(w =~= seq![c]);
        true
    } else {
        if tk.end - tk.start == 1 {
            assert(w[0] == text@[tk.start as int]);
        }
        assert(w.len() != 1 || w[0] != c);
        false
    }
}

struct LabBuilder {
    vertices: Vec<VertexSpans>,
    indices: Vec<[u32; 3]>,
    readable: bool,
    kind: LabLineKind,
    args: Vec<Token>,
}

impl LabBuilder {
    spec fn view(&self) -> LabScan {
        LabScan {
            vertices: self.vertices@,
            indices: self.indices@,
            readable: self.readable,
            kind: self.kind,
            args: self.args@,
        }
    }

    fn close_line(&mut self, text: &[char])
        requires
            forall|j: int| 0 <= j < old(self).args@.len() ==> token_in_text(text@, #[trigger] old(self).args@[j]),
        ensures
            final(self).view() == lab_close(text@, old(self).view()),
    {
        let ghost t = text@;
        let kind = self.kind;
        match kind {
            LabLineKind::Vertex => {
                if self.args.len() >= 3 {
                    let a = self.args[0];
                    let b = self.args[1];
                    let c = self.args[2];
                    self.vertices.push(
                        VertexSpans {
                            x: Span { start: a.start, end: a.end },
                            y: Span { start: b.start, end: b.end },
                            z: Span { start: c.start, end: c.end },
                        },
                    );
                } else {
                    self.readable = false;
                }
            },
            LabLineKind::Face => {
                let mut pushed = false;
                if self.args.len() >= 3 {
                    proof {
                        assert(token_in_text(t, self.args@[0]));
                        assert(token_in_text(t, self.args@[1]));
                        assert(token_in_text(t, self.args@[2]));
                    }
                    let a = lab_corner_at(text, self.args[0]);
                    let b = lab_corner_at(text, self.args[1]);
                    let c = lab_corner_at(text, self.args[2]);
                    match (a, b, c) {
                        (Some(a), Some(b), Some(c)) => {
                            if a >= 1 && b >= 1 && c >= 1 {
                                self.indices.push([a - 1, b - 1, c - 1]);
                                pushed = true;
                            }
                        },
                        _ => {},
                    }
                }
                if !pushed {
                    self.readable = false;
                }
            },
            LabLineKind::Other => {},
        }
    }
}

fn lab_line_kind_at(text: &[char], toks: &Vec<Token>, k: usize) -> (r: LabLineKind)
    requires
        k < toks@.len(),
        toks@[k as int].start < toks@[k as int].end <= text@.len(),
    ensures
        r == lab_line_kind(text@, toks@, k as int),
{
    let tag = toks[k];
    let spaced = tag.end < text.len() && text[tag.end] == ' ';
    let more = k < toks.len() - 1 && toks[k + 1].line == tag.line;
    if spaced && more && is_single(text, tag, 'v') {
        LabLineKind::Vertex
    } else if spaced && more && is_single(text, tag, 'f') {
        LabLineKind::Face
    } else {
        LabLineKind::Other
    }
}

/// Reads the planet lab's OBJ text `text`, whose tokens are `toks`: the
/// document when it is readable, `None` when a `v ` or `f ` line lacks
/// three tokens or a corner is not a vertex number from 1 to `u32::MAX`.
pub fn parse_lab_obj(text: &[char], toks: &Vec<Token>) -> (r: Option<LabDocument>)
    requires
        toks@ == tokens(text@),
    ensures
        match r {
            Some(doc) => {
                &&& lab_scan(text@).readable
                &&& doc.vertices@ == lab_scan(text@).vertices
                &&& doc.indices@ == lab_scan(text@).indices
            },
            None => !lab_scan(text@).readable,
        },
{
    let _len = text.len();
    proof {
        lemma_tokens_well_formed(text@);
    }
    let ghost t = text@;
    let mut b = LabBuilder {
        vertices: Vec::new(),
        indices: Vec::new(),
        readable: true,
        kind: LabLineKind::Other,
        args: Vec::new(),
    };
    let n = toks.len();
    let mut k: usize = 0;
    while k < n
        invariant
            n == toks@.len(),
            toks@ == tokens(t),
            t == text@,
            tokens_well_formed(t, toks@),
            k <= n,
            b.view() == lab_prefix(t, toks@, k as nat),
            forall|j: int| 0 <= j < b.args@.len() ==> token_in_text(t, #[trigger] b.args@[j]),
        decreases n - k,
    {
        let ghost before = b.view();
        if k == 0 || toks[k].line != toks[k - 1].line {
            b.close_line(text);
            proof {
                assert(token_in_text(t, toks@[k as int]));
            }
            b.kind = lab_line_kind_at(text, toks, k);
            b.args = Vec::new();
        } else {
            proof {
                assert(token_in_text(t, toks@[k as int]));
            }
            b.args.push(toks[k]);
        }
        proof {
            assert(b.view() == lab_step(t, toks@, before, k as int));
        }
        k = k + 1;
    }
    b.close_line(text);
    if b.readable {
        Some(LabDocument { vertices: b.vertices, indices: b.indices })
    } else {
        None
    }
}

/// Token `k` is the first of its line.
pub open spec fn starts_line(toks: Seq<Token>, k: int) -> bool {
    k == 0 || toks[k].line != toks[k - 1].line
}

/// The positions, among the first `n` tokens, of the `v` tags that begin the
/// `v ` lines, in the order of the lines.
pub open spec fn vertex_tags(t: Seq<char>, toks: Seq<Token>, n: nat) -> Seq<int>
    decreases n,
{
    if n == 0 {
        Seq::empty()
    } else {
        let k = n - 1;
        let before = vertex_tags(t, toks, k as nat);
        if starts_line(toks, k) && lab_line_kind(t, toks, k) == LabLineKind::Vertex {
            before.push(k)
        } else {
            before
        }
    }
}

/// Vertex `v` holds, in order, the first three tokens after the tag at `g`,
/// all three on the tag's line.
spec fn read_after_tag(toks: Seq<Token>, v: VertexSpans, g: int) -> bool {
    &&& 0 <= g && g + 3 < toks.len()
    &&& toks[g + 1].line == toks[g].line
    &&& toks[g + 2].line == toks[g].line
    &&& toks[g + 3].line == toks[g].line
    &&& v.x == span_of(toks[g + 1])
    &&& v.y == span_of(toks[g + 2])
    &&& v.z == span_of(toks[g + 3])
}

/// The first token of the line that the first `n` tokens end in.
spec fn current_line_start(toks: Seq<Token>, n: nat) -> int
    decreases n,
{
    if n <= 1 {
        0
    } else if starts_line(toks, n - 1) {
        n - 1
    } else {
        current_line_start(toks, (n - 1) as nat)
    }
}

/// What the scan of the first `n` tokens holds: the open line and its
/// tokens so far, and, while readable, one vertex per closed `v ` line.
spec fn lab_prefix_inv(t: Seq<char>, toks: Seq<Token>, n: nat) -> bool {
    let st = lab_prefix(t, toks, n);
    let tags = vertex_tags(t, toks, n);
    let s = current_line_start(toks, n);
    let closed = if st.kind == LabLineKind::Vertex {
        tags.drop_last()
    } else {
        tags
    };
    &&& n == 0 ==> st.kind == LabLineKind::Other
    &&& n > 0 ==> {
        &&& 0 <= s < n
        &&& st.kind == lab_line_kind(t, toks, s)
        &&& st.args == toks.subrange(s + 1, n as int)
        &&& forall|m: int| s < m < n ==> (#[trigger] toks[m]).line == toks[s].line
    }
    &&& st.kind == LabLineKind::Vertex ==> tags.len() > 0 && tags.last() == s
    &&& st.readable ==> {
        &&& st.vertices.len() == closed.len()
        &&& forall|i: int|
            0 <= i < closed.len() ==> read_after_tag(toks, #[trigger] st.vertices[i], closed[i])
    }
}

proof fn lemma_lab_close_vertices(t: Seq<char>, toks: Seq<Token>, n: nat)
    requires
        n <= toks.len(),
        lab_prefix_inv(t, toks, n),
    ensures
        ({
            let st = lab_prefix(t, toks, n);
            let c = lab_close(t, st);
            let tags = vertex_tags(t, toks, n);
            &&& c.readable ==> st.readable
            &&& c.readable ==> c.vertices.len() == tags.len()
            &&& c.readable ==> forall|i: int|
                0 <= i < tags.len() ==> read_after_tag(toks, #[trigger] c.vertices[i], tags[i])
        }),
{
    let st = lab_prefix(t, toks, n);
    let tags = vertex_tags(t, toks, n);
    let c = lab_close(t, st);
    if st.kind == LabLineKind::Vertex && st.args.len() >= 3 && st.readable {
        let s = current_line_start(toks, n);
        assert(tags =~= tags.drop_last().push(s));
        let a = st.args;
        assert(a[0] == toks[s + 1]);
        assert(a[1] == toks[s + 2]);
        assert(a[2] == toks[s + 3]);
        assert(toks[s + 1].line == toks[s].line);
        assert(toks[s + 2].line == toks[s].line);
        assert(toks[s + 3].line == toks[s].line);
        assert(read_after_tag(toks, c.vertices[tags.len() - 1], s));
        assert forall|i: int| 0 <= i < tags.len() implies read_after_tag(
            toks,
            #[trigger] c.vertices[i],
            tags[i],
        ) by {
            if i < tags.len() - 1 {
                assert(c.vertices[i] == st.vertices[i]);
            }
        }
    }
}

proof fn lemma_lab_prefix_inv(t: Seq<char>, toks: Seq<Token>, n: nat)
    requires
        n <= toks.len(),
    ensures
        lab_prefix_inv(t, toks, n),
    decreases n,
{
    if n > 0 {
        let k = (n - 1) as nat;
        lemma_lab_prefix_inv(t, toks, k);
        let p = lab_prefix(t, toks, k);
        let st = lab_prefix(t, toks, n);
        let tags = vertex_tags(t, toks, n);
        assert(st == lab_step(t, toks, p, k as int));
        if starts_line(toks, k as int) {
            lemma_lab_close_vertices(t, toks, k);
            assert(current_line_start(toks, n) == k);
            if st.kind == LabLineKind::Vertex {
                assert(tags.drop_last() =~= vertex_tags(t, toks, k));
            }
            assert(st.args =~= toks.subrange(k as int + 1, n as int));
        } else {
            let s = current_line_start(toks, k);
            assert(current_line_start(toks, n) == s);
            assert(st.args =~= toks.subrange(s + 1, n as int));
            assert forall|m: int| s < m < n implies (#[trigger] toks[m]).line == toks[s].line by {
                if m == k && k - 1 > s {
                    assert(toks[k - 1].line == toks[s].line);
                }
            }
        }
    }
}

/// Each vertex of a readable document comes from the `v ` line of the same
/// rank: there are as many vertices as `v ` lines, and the x, y and z of
/// vertex `i` are, in that order, the first, second and third tokens after
/// the `v` of the `i`-th `v ` line, all three on that line.
pub proof fn lemma_lab_vertices(t: Seq<char>)
    requires
        lab_scan(t).readable,
    ensures
        ({
            let toks = tokens(t);
            let tags = vertex_tags(t, toks, toks.len());
            let vs = lab_scan(t).vertices;
            &&& vs.len() == tags.len()
            &&& forall|i: int|
                #![trigger vs[i]]
                0 <= i < vs.len() ==> {
                    let g = tags[i];
                    &&& 0 <= g && g + 3 < toks.len()
                    &&& toks[g + 1].line == toks[g].line
                    &&& toks[g + 2].line == toks[g].line
                    &&& toks[g + 3].line == toks[g].line
                    &&& vs[i].x == span_of(toks[g + 1])
                    &&& vs[i].y == span_of(toks[g + 2])
                    &&& vs[i].z == span_of(toks[g + 3])
                }
        }),
{
    let toks = tokens(t);
    lemma_lab_prefix_inv(t, toks, toks.len());
    lemma_lab_close_vertices(t, toks, toks.len());
    let vs = lab_scan(t).vertices;
    let tags = vertex_tags(t, toks, toks.len());
    assert forall|i: int| 0 <= i < vs.len() implies read_after_tag(toks, vs[i], tags[i]) by {}
}

} // verus!
