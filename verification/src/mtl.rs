//! Reading the diffuse colour of a Wavefront material (MTL) file: the first
//! line `Kd r g b` whose three channels read as floating-point numbers.
//!
//! The channels are floating-point numbers; this module locates them (as
//! spans of the text) and is told which tokens read as such numbers.
use vstd::prelude::*;

use crate::obj_loader::{span_of, Span};
use crate::text::{lemma_tokens_well_formed, token_in_text, tokens, tokens_well_formed, word, Token};

verus! {

/// Token `k` begins a line that gives a diffuse colour: the trimmed line
/// starts with `Kd ` (its first token is `Kd` and a plain space follows it),
/// the line has exactly four tokens, and the last three read as numbers.
pub open spec fn is_diffuse_line(t: Seq<char>, toks: Seq<Token>, is_float: Seq<bool>, k: int) -> bool {
    let tag = toks[k];
    &&& 0 <= k
    &&& k + 3 < toks.len()
    &&& k == 0 || toks[k - 1].line != tag.line
    &&& word(t, tag) == seq!['K', 'd']
    &&& tag.end < t.len() && t[tag.end as int] == ' '
    &&& toks[k + 1].line == tag.line
    &&& toks[k + 2].line == tag.line
    &&& toks[k + 3].line == tag.line
    &&& k + 4 == toks.len() || toks[k + 4].line != tag.line
    &&& is_float[k + 1] && is_float[k + 2] && is_float[k + 3]
}

/// The spans of the three channels of the diffuse line that token `k` begins.
pub open spec fn diffuse_spans(toks: Seq<Token>, k: int) -> [Span; 3] {
    [span_of(toks[k + 1]), span_of(toks[k + 2]), span_of(toks[k + 3])]
}

/// The channels of the first diffuse line begun by one of the first `n` tokens.
pub open spec fn first_diffuse(t: Seq<char>, toks: Seq<Token>, is_float: Seq<bool>, n: nat) -> Option<[Span; 3]>
    decreases n,
{
    if n == 0 {
        None
    } else {
        match first_diffuse(t, toks, is_float, (n - 1) as nat) {
            Some(s) => Some(s),
            None => if is_diffuse_line(t, toks, is_float, n - 1) {
                Some(diffuse_spans(toks, n - 1))
            } else {
                None
            },
        }
    }
}

/// The channels of the first diffuse-colour line of MTL text `t`, where
/// `is_float[k]` says whether token `k` reads as a floating-point number;
/// `None` when no line gives one.
pub open spec fn mtl_diffuse(t: Seq<char>, is_float: Seq<bool>) -> Option<[Span; 3]> {
    let toks = tokens(t);
    first_diffuse(t, toks, is_float, toks.len())
}

fn is_diffuse_line_at(text: &[char], toks: &Vec<Token>, is_float: &Vec<bool>, k: usize) -> (b: bool)
    requires
        k < toks@.len(),
        is_float@.len() == toks@.len(),
        toks@[k as int].start < toks@[k as int].end <= text@.len(),
    ensures
        b == is_diffuse_line(text@, toks@, is_float@, k as int),
{
    let n = toks.len();
    let tag = toks[k];
    if n < 4 || k >= n - 3 {
        return false;
    }
    if k > 0 && toks[k - 1].line == tag.line {
        return false;
    }
    let ghost w = word(text@, tag);
    if tag.end - tag.start != 2 {
        assert(w.len() != 2);
        return false;
    }
    assert(w.len() == 2 && w[0] == text@[tag.start as int] && w[1] == text@[tag.start + 1]);
    if text[tag.start] != 'K' || text[tag.start + 1] != 'd' {
        assert(w != seq!['K', 'd']);
        return false;
    }
    assert(w =~= seq!['K', 'd']);
    if !(tag.end < text.len() && text[tag.end] == ' ') {
        return false;
    }
    if toks[k + 1].line != tag.line || toks[k + 2].line != tag.line || toks[k + 3].line != tag.line {
        return false;
    }
    if !(k + 4 == n || toks[k + 4].line != tag.line) {
        return false;
    }
    is_float[k + 1] && is_float[k + 2] && is_float[k + 3]
}

/// Finds the diffuse colour of MTL text `text`, whose tokens are `toks` and
/// where `is_float[k]` says whether token `k` reads as a floating-point
/// number: the spans of the three channels of the first line `Kd r g b`
/// (exactly four tokens, all three channels numbers), or `None`.
pub fn parse_mtl_diffuse(text: &[char], toks: &Vec<Token>, is_float: &Vec<bool>) -> (r: Option<[Span; 3]>)
    requires
        toks@ == tokens(text@),
        is_float@.len() == toks@.len(),
    ensures
        r == mtl_diffuse(text@, is_float@),
{
    let _len = text.len();
    proof {
        lemma_tokens_well_formed(text@);
    }
    let n = toks.len();
    let mut found: Option<[Span; 3]> = None;
    let mut k: usize = 0;
    while k < n
        invariant
            n == toks@.len(),
            toks@ == tokens(text@),
            is_float@.len() == n,
            tokens_well_formed(text@, toks@),
            k <= n,
            found == first_diffuse(text@, toks@, is_float@, k as nat),
        decreases n - k,
    {
        if found.is_none() {
            proof {
                assert(token_in_text(text@, toks@[k as int]));
            }
            if is_diffuse_line_at(text, toks, is_float, k) {
                let a = toks[k + 1];
                let b = toks[k + 2];
                let c = toks[k + 3];
                found = Some(
                    [
                        Span { start: a.start, end: a.end },
                        Span { start: b.start, end: b.end },
                        Span { start: c.start, end: c.end },
                    ],
                );
            }
        }
        k = k + 1;
    }
    found
}

} // verus!
