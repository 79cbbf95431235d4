//! Reading Wavefront OBJ text: vertex lines (`v x y z`) and polygon lines
//! (`f a b c ...`, fanned into triangles), as the scene's mesh loader does.
//!
//! The coordinates of a vertex are floating-point numbers; this module
//! locates them (as spans of the text) and is told which tokens read as such
//! numbers, so that everything else about a document is decided here.
use vstd::prelude::*;

use crate::text::{
    is_white_space, lemma_tokens_last, lemma_tokens_well_formed, parse_isize, parse_isize_at, token_in_text, tokens,
    tokens_well_formed, word, Token,
};

verus! {

/// The characters at positions `start..end` of a text.
#[derive(Clone, Copy, Debug, PartialEq, Eq)]
pub struct Span {
    pub start: usize,
    pub end: usize,
}

/// Where the three coordinates of a vertex stand in the text.
#[derive(Clone, Copy, Debug, PartialEq, Eq)]
pub struct VertexSpans {
    pub x: Span,
    pub y: Span,
    pub z: Span,
}

/// What the first token of a line makes of it.
#[derive(Clone, Copy, Debug, PartialEq, Eq)]
pub enum LineKind {
    /// `v`: a vertex position.
    Vertex,
    /// `f`: a polygon over earlier vertices.
    Face,
    /// Anything else (comments, normals, texture coordinates, materials...).
    Other,
}

/// The content of an OBJ document: its vertices (by the spans of their
/// coordinates), its triangles (as 0-based vertex indices) and the line
/// numbers (from 1) of polygon lines with one or two usable vertices, which
/// are left out.
pub struct ObjDocument {
    pub vertices: Vec<VertexSpans>,
    pub faces: Vec<[usize; 3]>,
    pub short_faces: Vec<usize>,
}

/// The mathematical content of an [`ObjDocument`].
pub struct ObjModel {
    pub vertices: Seq<VertexSpans>,
    pub faces: Seq<[usize; 3]>,
    pub short_faces: Seq<usize>,
}

impl ObjDocument {
    pub open spec fn model(&self) -> ObjModel {
        ObjModel { vertices: self.vertices@, faces: self.faces@, short_faces: self.short_faces@ }
    }
}

/// A document read up to some token: what is complete, and what the line
/// being read has gathered so far.
pub struct ObjScan {
    pub model: ObjModel,
    pub kind: LineKind,
    pub tag_line: usize,
    pub coords: Seq<Span>,
    pub indices: Seq<usize>,
}

pub open spec fn span_of(tk: Token) -> Span {
    Span { start: tk.start, end: tk.end }
}

/// The kind of a line whose first token is `w`.
pub open spec fn line_kind(w: Seq<char>) -> LineKind {
    if w == seq!['v'] {
        LineKind::Vertex
    } else if w == seq!['f'] {
        LineKind::Face
    } else {
        LineKind::Other
    }
}

/// The part of `w` before its first `/` (all of `w` when it has none): the
/// vertex number of a polygon corner written `v`, `v/vt`, `v//vn` or `v/vt/vn`.
pub open spec fn before_slash(w: Seq<char>) -> Seq<char>
    decreases w.len(),
{
    if w.len() == 0 {
        w
    } else if w[0] == '/' {
        Seq::empty()
    } else {
        seq![w[0]] + before_slash(w.drop_first())
    }
}

/// The 0-based vertex that OBJ number `raw` names when `count` vertices
/// have been read: `1..=count` count from the first, `-1..=-count` back from
/// the last; any other number names none.
pub open spec fn resolve_index(raw: int, count: int) -> Option<int> {
    let idx = if raw < 0 {
        count + raw
    } else {
        raw - 1
    };
    if 0 <= idx < count {
        Some(idx)
    } else {
        None
    }
}

/// The vertex that polygon corner `w` names when `count` vertices have been
/// read, if it names one.
pub open spec fn corner_vertex(w: Seq<char>, count: nat) -> Option<usize> {
    match parse_isize(before_slash(w)) {
        Some(raw) => match resolve_index(raw, count as int) {
            Some(i) => Some(i as usize),
            None => None,
        },
        None => None,
    }
}

/// The triangle fan over polygon `ids`: `(ids[0], ids[j], ids[j + 1])` for
/// each `j` from 1 to `ids.len() - 2`.
pub open spec fn fan(ids: Seq<usize>) -> Seq<[usize; 3]> {
    Seq::new((ids.len() - 2) as nat, |j: int| [ids[0], ids[j + 1], ids[j + 2]])
}

/// The document once the line being read is complete: a vertex line with at
/// least three numeric coordinates adds a vertex from the first three; a
/// polygon line with at least three usable corners adds its fan, and one
/// with one or two is noted by its line number.
pub open spec fn close_line(st: ObjScan) -> ObjModel {
    let m = st.model;
    match st.kind {
        LineKind::Vertex => if st.coords.len() >= 3 {
            ObjModel {
                vertices: m.vertices.push(
                    VertexSpans { x: st.coords[0], y: st.coords[1], z: st.coords[2] },
                ),
                ..m
            }
        } else {
            m
        },
        LineKind::Face => if st.indices.len() >= 3 {
            ObjModel { faces: m.faces + fan(st.indices), ..m }
        } else if st.indices.len() > 0 {
            ObjModel { short_faces: m.short_faces.push((st.tag_line + 1) as usize), ..m }
        } else {
            m
        },
        LineKind::Other => m,
    }
}

/// Reading token `k`: the first token of a line completes the line before
/// and sets the kind of the new one; a later token adds a coordinate (on a
/// vertex line, when it reads as a number) or a corner (on a polygon line,
/// when it names a vertex read so far).
pub open spec fn scan_step(
    t: Seq<char>,
    toks: Seq<Token>,
    is_float: Seq<bool>,
    st: ObjScan,
    k: int,
) -> ObjScan {
    let tk = toks[k];
    if k == 0 || tk.line != toks[k - 1].line {
        ObjScan {
            model: close_line(st),
            kind: line_kind(word(t, tk)),
            tag_line: tk.line,
            coords: Seq::empty(),
            indices: Seq::empty(),
        }
    } else {
        match st.kind {
            LineKind::Vertex => if is_float[k] {
                ObjScan { coords: st.coords.push(span_of(tk)), ..st }
            } else {
                st
            },
            LineKind::Face => match corner_vertex(word(t, tk), st.model.vertices.len()) {
                Some(i) => ObjScan { indices: st.indices.push(i), ..st },
                None => st,
            },
            LineKind::Other => st,
        }
    }
}

pub open spec fn empty_scan() -> ObjScan {
    ObjScan {
        model: ObjModel { vertices: Seq::empty(), faces: Seq::empty(), short_faces: Seq::empty() },
        kind: LineKind::Other,
        tag_line: 0,
        coords: Seq::empty(),
        indices: Seq::empty(),
    }
}

/// The state after reading the first `n` tokens.
pub open spec fn scan_prefix(t: Seq<char>, toks: Seq<Token>, is_float: Seq<bool>, n: nat) -> ObjScan
    decreases n,
{
    if n == 0 {
        empty_scan()
    } else {
        scan_step(t, toks, is_float, scan_prefix(t, toks, is_float, (n - 1) as nat), n - 1)
    }
}

/// The content of OBJ text `t`, where `is_float[k]` says whether token `k`
/// reads as a floating-point number.
pub open spec fn obj_model(t: Seq<char>, is_float: Seq<bool>) -> ObjModel {
    let toks = tokens(t);
    close_line(scan_prefix(t, toks, is_float, toks.len()))
}

/// A polygon of `n >= 3` corners `ids` becomes exactly `n - 2` triangles,
/// the `j`-th (for `j` from 1 to `n - 2`) being `(ids[0], ids[j], ids[j + 1])`:
/// every triangle shares the first corner, and consecutive triangles share
/// an edge, so together they cover the polygon.
pub proof fn lemma_fan_triangles(ids: Seq<usize>)
    requires
        ids.len() >= 3,
    ensures
        fan(ids).len() + 2 == ids.len(),
        forall|j: int| 1 <= j <= ids.len() - 2 ==> #[trigger] fan(ids)[j - 1] == [ids[0], ids[j], ids[j + 1]],
        forall|j: int|
            1 <= j < ids.len() - 2 ==> (#[trigger] fan(ids)[j - 1])[2] == fan(ids)[j][1],
{
}

/// Closing a polygon line with `n >= 3` usable corners keeps the triangles
/// already read and appends exactly `n - 2` more: the fan of its corners.
/// Closing any other kind of line adds no triangle.
pub proof fn lemma_close_face_line(st: ObjScan)
    ensures
        st.kind is Face && st.indices.len() >= 3 ==> {
            let m = close_line(st).faces;
            let k = st.model.faces.len();
            let ids = st.indices;
            &&& m.len() == k + ids.len() - 2
            &&& m.subrange(0, k as int) == st.model.faces
            &&& forall|j: int|
                1 <= j <= ids.len() - 2 ==> #[trigger] m[k + j - 1] == [ids[0], ids[j], ids[j + 1]]
        },
        !(st.kind is Face && st.indices.len() >= 3) ==> close_line(st).faces == st.model.faces,
        close_line(st).vertices.len() <= st.model.vertices.len() + 1,
{
    if st.kind is Face && st.indices.len() >= 3 {
        let m = close_line(st).faces;
        let k = st.model.faces.len();
        lemma_fan_triangles(st.indices);
        assert(m.subrange(0, k as int) =~= st.model.faces);
        assert forall|j: int| 1 <= j <= st.indices.len() - 2 implies #[trigger] m[k + j - 1] == [
            st.indices[0],
            st.indices[j],
            st.indices[j + 1],
        ] by {
            assert(m[k + j - 1] == fan(st.indices)[j - 1]);
        }
    }
}

/// Every corner of every triangle of `m` is one of its vertices.
pub open spec fn faces_in_range(m: ObjModel) -> bool {
    forall|f: int|
        0 <= f < m.faces.len() ==> {
            &&& (#[trigger] m.faces[f])[0] < m.vertices.len()
            &&& m.faces[f][1] < m.vertices.len()
            &&& m.faces[f][2] < m.vertices.len()
        }
}

spec fn scan_in_range(st: ObjScan, steps: nat) -> bool {
    &&& faces_in_range(st.model)
    &&& forall|i: int| 0 <= i < st.indices.len() ==> #[trigger] st.indices[i] < st.model.vertices.len()
    &&& st.model.vertices.len() <= steps
}

proof fn lemma_close_in_range(st: ObjScan, steps: nat)
    requires
        scan_in_range(st, steps),
    ensures
        faces_in_range(close_line(st)),
        close_line(st).vertices.len() <= steps + 1,
{
    let m = close_line(st);
    if st.kind is Face && st.indices.len() >= 3 {
        let fs = fan(st.indices);
        assert forall|f: int| 0 <= f < m.faces.len() implies {
            &&& (#[trigger] m.faces[f])[0] < m.vertices.len()
            &&& m.faces[f][1] < m.vertices.len()
            &&& m.faces[f][2] < m.vertices.len()
        } by {
            if f >= st.model.faces.len() {
                let j = f - st.model.faces.len();
                assert(m.faces[f] == fs[j]);
                assert(st.indices[0] < st.model.vertices.len());
                assert(st.indices[j + 1] < st.model.vertices.len());
                assert(st.indices[j + 2] < st.model.vertices.len());
            } else {
                assert(m.faces[f] == st.model.faces[f]);
            }
        }
    }
}

proof fn lemma_scan_in_range(t: Seq<char>, toks: Seq<Token>, is_float: Seq<bool>, n: nat)
    requires
        n <= toks.len(),
        toks.len() <= usize::MAX,
    ensures
        scan_in_range(scan_prefix(t, toks, is_float, n), n),
    decreases n,
{
    if n > 0 {
        let k = n - 1;
        let st = scan_prefix(t, toks, is_float, k as nat);
        lemma_scan_in_range(t, toks, is_float, k as nat);
        let next = scan_prefix(t, toks, is_float, n);
        let tk = toks[k];
        if k == 0 || tk.line != toks[k - 1].line {
            lemma_close_in_range(st, k as nat);
        } else if st.kind is Face {
            let count = st.model.vertices.len();
            match corner_vertex(word(t, tk), count) {
                Some(i) => {
                    let raw = parse_isize(before_slash(word(t, tk)))->0;
                    let idx = resolve_index(raw, count as int)->0;
                    assert(idx < count);
                    assert(count <= usize::MAX);
                    assert(i == idx);
                    assert forall|j: int| 0 <= j < next.indices.len() implies #[trigger] next.indices[j]
                        < next.model.vertices.len() by {
                        if j < st.indices.len() {
                            assert(next.indices[j] == st.indices[j]);
                        }
                    }
                },
                None => {},
            }
        }
    }
}

proof fn lemma_tokens_len(t: Seq<char>)
    requires
        t.len() <= usize::MAX,
    ensures
        tokens(t).len() <= t.len(),
    decreases t.len(),
{
    if t.len() > 0 {
        lemma_tokens_len(t.drop_last());
        let i = t.len() - 1;
        if !is_white_space(t[i]) && i > 0 && !is_white_space(t[i - 1]) {
            assert(t.drop_last().last() == t[i - 1]);
            lemma_tokens_last(t.drop_last());
        }
    }
}

/// Every triangle of an OBJ document is made of vertices that the document
/// defines: the loader never hands out an index past its vertex list.
pub proof fn lemma_obj_faces_in_range(t: Seq<char>, is_float: Seq<bool>)
    requires
        t.len() <= usize::MAX,
    ensures
        faces_in_range(obj_model(t, is_float)),
{
    let toks = tokens(t);
    lemma_tokens_len(t);
    lemma_scan_in_range(t, toks, is_float, toks.len());
    lemma_close_in_range(scan_prefix(t, toks, is_float, toks.len()), toks.len());
}

struct ObjBuilder {
    vertices: Vec<VertexSpans>,
    faces: Vec<[usize; 3]>,
    short_faces: Vec<usize>,
    kind: LineKind,
    tag_line: usize,
    coords: Vec<Span>,
    indices: Vec<usize>,
}

impl ObjBuilder {
    spec fn view(&self) -> ObjScan {
        ObjScan {
            model: ObjModel {
                vertices: self.vertices@,
                faces: self.faces@,
                short_faces: self.short_faces@,
            },
            kind: self.kind,
            tag_line: self.tag_line,
            coords: self.coords@,
            indices: self.indices@,
        }
    }

    fn close_line(&mut self)
        requires
            old(self).kind is Face ==> old(self).tag_line < usize::MAX,
        ensures
            final(self).view().model == close_line(old(self).view()),
            final(self).kind == old(self).kind,
            final(self).tag_line == old(self).tag_line,
    {
        let kind = self.kind;
        match kind {
            LineKind::Vertex => {
                if self.coords.len() >= 3 {
                    let v = VertexSpans { x: self.coords[0], y: self.coords[1], z: self.coords[2] };
                    self.vertices.push(v);
                }
            },
            LineKind::Face => {
                let m = self.indices.len();
                if m >= 3 {
                    let ghost before = self.faces@;
                    let ghost ids = self.indices@;
                    let mut j: usize = 1;
                    while j + 1 < m
                        invariant
                            1 <= j < m,
                            m == self.indices@.len(),
                            ids == self.indices@,
                            m >= 3,
                            self.faces@ == before + fan(ids).take(j - 1),
                            self.kind == old(self).kind,
                            self.tag_line == old(self).tag_line,
                            self.vertices@ == old(self).vertices@,
                            self.short_faces@ == old(self).short_faces@,
                            self.coords@ == old(self).coords@,
                            self.indices@ == old(self).indices@,
                            before == old(self).faces@,
                        decreases m - j,
                    {
                        let f = [self.indices[0], self.indices[j], self.indices[j + 1]];
                        proof {
                            assert(fan(ids)[j - 1] == f);
                            assert(fan(ids).take(j as int) == fan(ids).take(j - 1).push(f));
                        }
                        self.faces.push(f);
                        j = j + 1;
                    }
                    proof {
                        assert(fan(ids).take(j - 1) == fan(ids));
                    }
                } else if m > 0 {
                    self.short_faces.push(self.tag_line + 1);
                }
            },
            LineKind::Other => {},
        }
    }
}

pub proof fn lemma_before_slash(w: Seq<char>, p: int)
    requires
        0 <= p <= w.len(),
        forall|j: int| 0 <= j < p ==> w[j] != '/',
        p < w.len() ==> w[p] == '/',
    ensures
        before_slash(w) == w.take(p),
    decreases w.len(),
{
    if w.len() > 0 && p > 0 {
        let r = w.drop_first();
        assert forall|j: int| 0 <= j < p - 1 implies r[j] != '/' by {
            assert(r[j] == w[j + 1]);
        }
        if p < w.len() {
            assert(r[p - 1] == w[p]);
        }
        lemma_before_slash(r, p - 1);
        assert(seq![w[0]] + r.take(p - 1) == w.take(p));
    }
}

/// The vertex that the polygon corner `text[tk.start..tk.end]` names when
/// `count` vertices have been read.
fn corner_vertex_at(text: &[char], tk: Token, count: usize) -> (r: Option<usize>)
    requires
        tk.start < tk.end <= text@.len(),
    ensures
        r == corner_vertex(word(text@, tk), count as nat),
{
    let ghost w = word(text@, tk);
    let mut p = tk.start;
    while p < tk.end && text[p] != '/'
        invariant
            tk.start <= p <= tk.end <= text@.len(),
            forall|j: int| tk.start <= j < p ==> text@[j] != '/',
        decreases tk.end - p,
    {
        p = p + 1;
    }
    proof {
        assert forall|j: int| 0 <= j < p - tk.start implies w[j] != '/' by {
            assert(w[j] == text@[tk.start + j]);
        }
        if p < tk.end {
            assert(w[p - tk.start] == text@[p as int]);
        }
        lemma_before_slash(w, p - tk.start);
        assert(w.take(p - tk.start) == text@.subrange(tk.start as int, p as int));
    }
    match parse_isize_at(text, tk.start, p) {
        Some(raw) => {
            if raw < 0 {
                let back = (-(raw + 1)) as usize + 1;
                if back <= count {
                    Some(count - back)
                } else {
                    None
                }
            } else if raw >= 1 && (raw as usize) - 1 < count {
                Some((raw as usize) - 1)
            } else {
                None
            }
        },
        None => None,
    }
}

/// The kind of a line whose first token is `text[tk.start..tk.end]`.
fn line_kind_at(text: &[char], tk: Token) -> (k: LineKind)
    requires
        tk.start < tk.end <= text@.len(),
    ensures
        k == line_kind(word(text@, tk)),
{
    let ghost w = word(text@, tk);
    if tk.end - tk.start == 1 {
        proof {
            assert(w.len() == 1 && w[0] == text@[tk.start as int]);
        }
        if text[tk.start] == 'v' {
            assert(w == seq!['v']);
            LineKind::Vertex
        } else if text[tk.start] == 'f' {
            assert(w == seq!['f']);
            LineKind::Face
        } else {
            assert(w != seq!['v']);
            assert(w != seq!['f']);
            LineKind::Other
        }
    } else {
        assert(w.len() != seq!['v'].len());
        LineKind::Other
    }
}

/// Reads OBJ text `text`, whose tokens are `toks` and where `is_float[k]`
/// says whether token `k` reads as a floating-point number.
pub fn parse_obj(text: &[char], toks: &Vec<Token>, is_float: &Vec<bool>) -> (doc: ObjDocument)
    requires
        toks@ == tokens(text@),
        is_float@.len() == toks@.len(),
    ensures
        doc.model() == obj_model(text@, is_float@),
{
    let len = text.len();
    proof {
        lemma_tokens_well_formed(text@);
    }
    let ghost t = text@;
    let mut b = ObjBuilder {
        vertices: Vec::new(),
        faces: Vec::new(),
        short_faces: Vec::new(),
        kind: LineKind::Other,
        tag_line: 0,
        coords: Vec::new(),
        indices: Vec::new(),
    };
    proof {
        assert(b.view() == empty_scan());
    }
    let n = toks.len();
    let mut k: usize = 0;
    while k < n
        invariant
            n == toks@.len(),
            toks@ == tokens(t),
            t == text@,
            is_float@.len() == n,
            tokens_well_formed(t, toks@),
            t.len() == len,
            k <= n,
            b.view() == scan_prefix(t, toks@, is_float@, k as nat),
            b.kind is Face ==> b.tag_line < t.len(),
        decreases n - k,
    {
        let tk = toks[k];
        proof {
            assert(token_in_text(t, toks@[k as int]));
        }
        if k == 0 || tk.line != toks[k - 1].line {
            b.close_line();
            let kind = line_kind_at(text, tk);
            b.kind = kind;
            b.tag_line = tk.line;
            b.coords = Vec::new();
            b.indices = Vec::new();
        } else {
            match b.kind {
                LineKind::Vertex => {
                    if is_float[k] {
                        b.coords.push(Span { start: tk.start, end: tk.end });
                    }
                },
                LineKind::Face => {
                    let count = b.vertices.len();
                    match corner_vertex_at(text, tk, count) {
                        Some(i) => {
                            b.indices.push(i);
                        },
                        None => {},
                    }
                },
                LineKind::Other => {},
            }
        }
        proof {
            assert(b.view() == scan_step(t, toks@, is_float@, scan_prefix(t, toks@, is_float@, k as nat), k as int));
        }
        k = k + 1;
    }
    b.close_line();
    ObjDocument { vertices: b.vertices, faces: b.faces, short_faces: b.short_faces }
}

} // verus!
