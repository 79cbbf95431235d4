//! Character classes, whitespace tokenisation and decimal integer parsing
//! over texts held as sequences of `char`.
use vstd::prelude::*;

verus! {

/// The characters with the Unicode `White_Space` property: the set that
/// `char::is_whitespace`, `str::trim` and `str::split_whitespace` treat as blank.
pub open spec fn is_white_space(c: char) -> bool {
    let u = c as u32;
    ||| 0x09 <= u <= 0x0D
    ||| u == 0x20
    ||| u == 0x85
    ||| u == 0xA0
    ||| u == 0x1680
    ||| 0x2000 <= u <= 0x200A
    ||| u == 0x2028
    ||| u == 0x2029
    ||| u == 0x202F
    ||| u == 0x205F
    ||| u == 0x3000
}

/// Whether `c` is blank in the sense of `char::is_whitespace`.
pub fn is_white_space_char(c: char) -> (b: bool)
    ensures
        b == is_white_space(c),
{
    let u = c as u32;
    (0x09 <= u && u <= 0x0D) || u == 0x20 || u == 0x85 || u == 0xA0 || u == 0x1680 || (0x2000
        <= u && u <= 0x200A) || u == 0x2028 || u == 0x2029 || u == 0x202F || u == 0x205F || u
        == 0x3000
}

/// A maximal run of non-blank characters of a text: the characters at
/// positions `start..end`, on the line numbered `line` (counted from 0).
#[derive(Clone, Copy, Debug, PartialEq, Eq)]
pub struct Token {
    pub line: usize,
    pub start: usize,
    pub end: usize,
}

/// The number of line feeds in `t`.
pub open spec fn newlines_in(t: Seq<char>) -> nat
    decreases t.len(),
{
    if t.len() == 0 {
        0
    } else {
        newlines_in(t.drop_last()) + if t.last() == '\n' {
            1nat
        } else {
            0nat
        }
    }
}

/// The tokens of `t`, in order: the maximal runs of non-blank characters,
/// each with the number of the line it stands on. A line ends at each line
/// feed, which is itself blank, so no token spans two lines.
pub open spec fn tokens(t: Seq<char>) -> Seq<Token>
    decreases t.len(),
{
    if t.len() == 0 {
        Seq::empty()
    } else {
        let prev = tokens(t.drop_last());
        let i = t.len() - 1;
        if is_white_space(t[i]) {
            prev
        } else if i > 0 && !is_white_space(t[i - 1]) {
            let last = prev.last();
            prev.update(
                prev.len() - 1,
                Token { line: last.line, start: last.start, end: t.len() as usize },
            )
        } else {
            prev.push(
                Token { line: newlines_in(t.drop_last()) as usize, start: i as usize, end: t.len() as usize },
            )
        }
    }
}

/// The characters of token `tk` of `t`.
pub open spec fn word(t: Seq<char>, tk: Token) -> Seq<char> {
    t.subrange(tk.start as int, tk.end as int)
}

/// Token `tk` is a maximal run of non-blank characters of `t`, and `line`
/// counts the line feeds before it.
pub open spec fn token_in_text(t: Seq<char>, tk: Token) -> bool {
    &&& tk.start < tk.end <= t.len()
    &&& tk.line <= tk.start
    &&& tk.line == newlines_in(t.take(tk.start as int))
    &&& forall|j: int| tk.start <= j < tk.end ==> !is_white_space(#[trigger] t[j])
    &&& tk.start > 0 ==> is_white_space(t[tk.start - 1])
    &&& tk.end < t.len() ==> is_white_space(t[tk.end as int])
}

/// What holds of every token list of a text: each token is a maximal run of
/// non-blank characters inside the text, tokens come in order with blanks
/// between them, and line numbers never decrease.
pub open spec fn tokens_well_formed(t: Seq<char>, toks: Seq<Token>) -> bool {
    &&& forall|k: int| 0 <= k < toks.len() ==> token_in_text(t, #[trigger] toks[k])
    &&& forall|k: int|
        0 < k < toks.len() ==> {
            &&& toks[k - 1].end < (#[trigger] toks[k]).start
            &&& toks[k - 1].line <= toks[k].line
        }
}

proof fn lemma_token_extends(s: Seq<char>, t: Seq<char>, tk: Token)
    requires
        t.len() > 0,
        s == t.drop_last(),
        token_in_text(s, tk),
        tk.end < s.len() || is_white_space(t.last()),
    ensures
        token_in_text(t, tk),
{
    assert(s.take(tk.start as int) =~= t.take(tk.start as int));
    assert forall|j: int| tk.start <= j < tk.end implies !is_white_space(#[trigger] t[j]) by {
        assert(s[j] == t[j]);
    }
    if tk.start > 0 {
        assert(s[tk.start - 1] == t[tk.start - 1]);
    }
    if tk.end < s.len() {
        assert(s[tk.end as int] == t[tk.end as int]);
    }
}

proof fn lemma_newlines_bound(t: Seq<char>)
    ensures
        newlines_in(t) <= t.len(),
    decreases t.len(),
{
    if t.len() > 0 {
        lemma_newlines_bound(t.drop_last());
    }
}

proof fn lemma_newlines_mono(t: Seq<char>, a: int, b: int)
    requires
        0 <= a <= b <= t.len(),
    ensures
        newlines_in(t.take(a)) <= newlines_in(t.take(b)),
    decreases b - a,
{
    if a < b {
        assert(t.take(b).drop_last() == t.take(b - 1));
        lemma_newlines_mono(t, a, b - 1);
    }
}

/// A text whose last character is not blank ends in a token that reaches
/// its end.
pub proof fn lemma_tokens_last(t: Seq<char>)
    requires
        0 < t.len() <= usize::MAX,
        !is_white_space(t.last()),
    ensures
        tokens(t).len() > 0,
        tokens(t).last().end == t.len(),
    decreases t.len(),
{
    let i = t.len() - 1;
    if i > 0 && !is_white_space(t[i - 1]) {
        assert(t.drop_last().last() == t[i - 1]);
        lemma_tokens_last(t.drop_last());
    }
}

proof fn lemma_tokens_step_blank(t: Seq<char>)
    requires
        0 < t.len() <= usize::MAX,
        is_white_space(t.last()),
        tokens_well_formed(t.drop_last(), tokens(t.drop_last())),
    ensures
        tokens_well_formed(t, tokens(t)),
{
    let s = t.drop_last();
    let prev = tokens(s);
    let toks = tokens(t);
    assert(toks == prev);
    assert forall|k: int| 0 <= k < toks.len() implies token_in_text(t, #[trigger] toks[k]) by {
        lemma_token_extends(s, t, prev[k]);
    }
}

proof fn lemma_tokens_step_inside(t: Seq<char>)
    requires
        1 < t.len() <= usize::MAX,
        !is_white_space(t.last()),
        !is_white_space(t[t.len() - 2]),
        tokens_well_formed(t.drop_last(), tokens(t.drop_last())),
    ensures
        tokens_well_formed(t, tokens(t)),
{
    let s = t.drop_last();
    let i = t.len() - 1;
    let prev = tokens(s);
    let toks = tokens(t);
    assert(s.last() == t[i - 1]);
    lemma_tokens_last(s);
    let k0 = prev.len() - 1;
    let last = prev[k0];
    assert forall|k: int| 0 <= k < toks.len() implies token_in_text(t, #[trigger] toks[k]) by {
        if k < k0 {
            assert(prev[k].end < prev[k + 1].start);
            lemma_token_extends(s, t, prev[k]);
        } else {
            let tk = toks[k];
            assert(token_in_text(s, last));
            assert(s.take(tk.start as int) =~= t.take(tk.start as int));
            assert forall|j: int| tk.start <= j < tk.end implies !is_white_space(#[trigger] t[j]) by {
                if j < i {
                    assert(s[j] == t[j]);
                }
            }
            if tk.start > 0 {
                assert(s[tk.start - 1] == t[tk.start - 1]);
            }
        }
    }
}

#[verifier::rlimit(30)]
proof fn lemma_tokens_step_begin(t: Seq<char>)
    requires
        0 < t.len() <= usize::MAX,
        !is_white_space(t.last()),
        t.len() > 1 ==> is_white_space(t[t.len() - 2]),
        tokens_well_formed(t.drop_last(), tokens(t.drop_last())),
    ensures
        tokens_well_formed(t, tokens(t)),
{
    let s = t.drop_last();
    let i = t.len() - 1;
    let prev = tokens(s);
    let toks = tokens(t);
    lemma_newlines_bound(s);
    let nt = Token { line: newlines_in(s) as usize, start: i as usize, end: t.len() as usize };
    assert(toks == prev.push(nt));
    assert(s == t.take(i));
    assert forall|k: int| 0 <= k < prev.len() implies token_in_text(t, #[trigger] toks[k]) by {
        let tk = prev[k];
        assert(toks[k] == tk);
        assert(token_in_text(s, tk));
        if tk.end == s.len() {
            assert(!is_white_space(s[tk.end - 1]));
            assert(s[tk.end - 1] == t[i - 1]);
        }
        lemma_token_extends(s, t, tk);
    }
    assert(token_in_text(t, nt)) by {
        assert(t.take(i) == s);
        if i > 0 {
            assert(t[i - 1] == s[i - 1]);
        }
    }
    if prev.len() > 0 {
        let last = prev[prev.len() - 1];
        assert(token_in_text(s, last));
        if last.end == i {
            assert(!is_white_space(s[last.end - 1]));
            assert(false);
        }
        lemma_newlines_mono(s, last.start as int, i);
        assert(s.take(i) == s);
    }
    assert forall|k: int| 0 < k < toks.len() implies {
        &&& toks[k - 1].end < (#[trigger] toks[k]).start
        &&& toks[k - 1].line <= toks[k].line
    } by {
        if k < prev.len() {
            assert(toks[k] == prev[k] && toks[k - 1] == prev[k - 1]);
        }
    }
}

/// The token list of every text is well formed.
pub proof fn lemma_tokens_well_formed(t: Seq<char>)
    requires
        t.len() <= usize::MAX,
    ensures
        tokens_well_formed(t, tokens(t)),
    decreases t.len(),
{
    if t.len() > 0 {
        let s = t.drop_last();
        lemma_tokens_well_formed(s);
        let i = t.len() - 1;
        if is_white_space(t[i]) {
            lemma_tokens_step_blank(t);
        } else if i > 0 && !is_white_space(t[i - 1]) {
            lemma_tokens_step_inside(t);
        } else {
            lemma_tokens_step_begin(t);
        }
    }
}

/// The tokens of `text`, with the line each stands on.
pub fn tokenize(text: &[char]) -> (toks: Vec<Token>)
    ensures
        toks@ == tokens(text@),
{
    let mut toks: Vec<Token> = Vec::new();
    let mut line: usize = 0;
    let mut i: usize = 0;
    while i < text.len()
        invariant
            i <= text@.len(),
            toks@ == tokens(text@.take(i as int)),
            line == newlines_in(text@.take(i as int)),
            line <= i,
        decreases text.len() - i,
    {
        let c = text[i];
        let ghost s = text@.take(i + 1);
        proof {
            assert(s.drop_last() == text@.take(i as int));
            assert(s[i as int] == c);
            if i > 0 {
                assert(s[i - 1] == text@[i - 1]);
            }
        }
        if is_white_space_char(c) {
            if c == '\n' {
                line = line + 1;
            }
        } else if i > 0 && !is_white_space_char(text[i - 1]) {
            proof {
                assert(text@.take(i as int).last() == text@[i - 1]);
                lemma_tokens_last(text@.take(i as int));
            }
            let k = toks.len() - 1;
            let last = toks[k];
            toks.set(k, Token { line: last.line, start: last.start, end: i + 1 });
        } else {
            toks.push(Token { line, start: i, end: i + 1 });
        }
        i = i + 1;
    }
    proof {
        assert(text@.take(text@.len() as int) == text@);
    }
    toks
}

/// Whether `c` is one of the ASCII digits `0` to `9`.
pub open spec fn is_digit(c: char) -> bool {
    0x30 <= (c as u32) <= 0x39
}

/// The value of digit `c`.
pub open spec fn digit_value(c: char) -> int {
    (c as u32) - 0x30
}

/// Every character of `s` is an ASCII digit.
pub open spec fn all_digits(s: Seq<char>) -> bool {
    forall|i: int| 0 <= i < s.len() ==> is_digit(#[trigger] s[i])
}

/// The value of the decimal numeral `s`.
pub open spec fn decimal_value(s: Seq<char>) -> int
    decreases s.len(),
{
    if s.len() == 0 {
        0
    } else {
        decimal_value(s.drop_last()) * 10 + digit_value(s.last())
    }
}

/// What `str::parse::<isize>` gives on `s`: an optional `+` or `-` followed by
/// at least one ASCII digit, with a value that `isize` can hold.
pub open spec fn parse_isize(s: Seq<char>) -> Option<int> {
    if s.len() > 0 && s[0] == '-' {
        let body = s.drop_first();
        if body.len() > 0 && all_digits(body) && decimal_value(body) <= isize::MAX + 1 {
            Some(-decimal_value(body))
        } else {
            None
        }
    } else {
        let body = if s.len() > 0 && s[0] == '+' {
            s.drop_first()
        } else {
            s
        };
        if body.len() > 0 && all_digits(body) && decimal_value(body) <= isize::MAX {
            Some(decimal_value(body))
        } else {
            None
        }
    }
}

/// What `str::parse::<u32>` gives on `s`: an optional `+` followed by at
/// least one ASCII digit, with a value that `u32` can hold.
pub open spec fn parse_u32(s: Seq<char>) -> Option<int> {
    let body = if s.len() > 0 && s[0] == '+' {
        s.drop_first()
    } else {
        s
    };
    if body.len() > 0 && all_digits(body) && decimal_value(body) <= u32::MAX {
        Some(decimal_value(body))
    } else {
        None
    }
}

proof fn lemma_decimal_grows(s: Seq<char>)
    requires
        all_digits(s),
    ensures
        decimal_value(s) >= 0,
        s.len() > 0 ==> decimal_value(s) >= decimal_value(s.drop_last()),
    decreases s.len(),
{
    if s.len() > 0 {
        assert(is_digit(s[s.len() - 1]));
        assert(all_digits(s.drop_last()));
        lemma_decimal_grows(s.drop_last());
    }
}

proof fn lemma_step_bound(v: int, d: int, cap: int)
    requires
        0 <= d <= 9,
        cap >= 9,
        v >= 0,
    ensures
        v <= (cap - d) / 10 <==> v * 10 + d <= cap,
{
    assert(v <= (cap - d) / 10 ==> v * 10 + d <= cap) by (nonlinear_arith)
        requires
            0 <= d <= 9,
            cap >= 9,
            v >= 0,
    ;
    assert(v > (cap - d) / 10 ==> v * 10 + d > cap) by (nonlinear_arith)
        requires
            0 <= d <= 9,
            cap >= 9,
            v >= 0,
    ;
}

/// The value of the decimal numeral `text[start..end]`, when it is a
/// non-empty run of ASCII digits whose value is at most `cap`.
fn decimal_at(text: &[char], start: usize, end: usize, cap: usize) -> (r: Option<usize>)
    requires
        start <= end <= text@.len(),
        cap >= 9,
    ensures
        ({
            let s = text@.subrange(start as int, end as int);
            match r {
                Some(v) => s.len() > 0 && all_digits(s) && v == decimal_value(s) && v <= cap,
                None => !(s.len() > 0 && all_digits(s) && decimal_value(s) <= cap),
            }
        }),
{
    if start == end {
        return None;
    }
    let mut i = start;
    let mut mag: usize = 0;
    let mut over = false;
    while i < end
        invariant
            start <= i <= end <= text@.len(),
            cap >= 9,
            all_digits(text@.subrange(start as int, i as int)),
            over ==> decimal_value(text@.subrange(start as int, i as int)) > cap,
            !over ==> mag == decimal_value(text@.subrange(start as int, i as int)) && mag <= cap,
        decreases end - i,
    {
        let c = text[i];
        let ghost prev = text@.subrange(start as int, i as int);
        let ghost next = text@.subrange(start as int, i + 1);
        proof {
            assert(next.drop_last() == prev);
            assert(next.last() == c);
        }
        let u = c as u32;
        if u < 0x30 || u > 0x39 {
            proof {
                let s = text@.subrange(start as int, end as int);
                assert(s[i - start] == c);
            }
            return None;
        }
        proof {
            assert(all_digits(next)) by {
                assert forall|j: int| 0 <= j < next.len() implies is_digit(#[trigger] next[j]) by {
                    if j < prev.len() {
                        assert(next[j] == prev[j]);
                    }
                }
            }
            lemma_decimal_grows(next);
        }
        let d = (u - 0x30) as usize;
        if !over {
            proof {
                lemma_step_bound(mag as int, d as int, cap as int);
            }
            if mag <= (cap - d) / 10 {
                mag = mag * 10 + d;
            } else {
                over = true;
            }
        }
        i = i + 1;
    }
    if over {
        None
    } else {
        Some(mag)
    }
}

/// `str::parse::<isize>` on the characters `text[start..end]`.
pub fn parse_isize_at(text: &[char], start: usize, end: usize) -> (r: Option<isize>)
    requires
        start <= end <= text@.len(),
    ensures
        match r {
            Some(v) => parse_isize(text@.subrange(start as int, end as int)) == Some(v as int),
            None => parse_isize(text@.subrange(start as int, end as int)) is None,
        },
{
    let ghost s = text@.subrange(start as int, end as int);
    if start < end && text[start] == '-' {
        proof {
            assert(s[0] == '-');
            assert(s.drop_first() == text@.subrange(start + 1, end as int));
        }
        let limit: usize = isize::MAX as usize + 1;
        match decimal_at(text, start + 1, end, limit) {
            Some(m) => {
                if m == 0 {
                    Some(0)
                } else {
                    Some(-((m - 1) as isize) - 1)
                }
            },
            None => None,
        }
    } else {
        let mut b = start;
        if start < end && text[start] == '+' {
            proof {
                assert(s[0] == '+');
                assert(s.drop_first() == text@.subrange(start + 1, end as int));
            }
            b = start + 1;
        } else {
            proof {
                assert(s == text@.subrange(b as int, end as int));
            }
        }
        match decimal_at(text, b, end, isize::MAX as usize) {
            Some(m) => Some(m as isize),
            None => None,
        }
    }
}

/// `str::parse::<u32>` on the characters `text[start..end]`.
pub fn parse_u32_at(text: &[char], start: usize, end: usize) -> (r: Option<u32>)
    requires
        start <= end <= text@.len(),
    ensures
        match r {
            Some(v) => parse_u32(text@.subrange(start as int, end as int)) == Some(v as int),
            None => parse_u32(text@.subrange(start as int, end as int)) is None,
        },
{
    let ghost s = text@.subrange(start as int, end as int);
    let mut b = start;
    if start < end && text[start] == '+' {
        proof {
            assert(s[0] == '+');
            assert(s.drop_first() == text@.subrange(start + 1, end as int));
        }
        b = start + 1;
    } else {
        proof {
            assert(s == text@.subrange(b as int, end as int));
        }
    }
    match decimal_at(text, b, end, u32::MAX as usize) {
        Some(m) => Some(m as u32),
        None => None,
    }
}

} // verus!
