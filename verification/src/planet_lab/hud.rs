//! The planet lab's heads-up display: a 5x7 bitmap font of 96 characters
//! (codes 32 to 127, five column bytes each, bit `r` of a column lit on row
//! `r`) and text drawn with it into the framebuffer.
use vstd::prelude::*;

use crate::planet_lab::framebuffer::{lemma_index_below, Framebuffer};

verus! {

/// Whether `c` has a slot in the font: codes 32 (space) to 127.
pub open spec fn has_slot(c: char) -> bool {
    32 <= (c as u32) <= 127
}

/// The first of the five font entries of character `c`.
pub open spec fn slot_start(c: char) -> int {
    ((c as u32) - 32) * 5
}

/// The five columns of character `c`; characters the font does not draw
/// are blank.
pub open spec fn glyph(c: char) -> Seq<u8> {
    if c == ' ' {
        seq![0u8, 0u8, 0u8, 0u8, 0u8]
    } else if c == ':' {
        seq![0u8, 0b0001000u8, 0u8, 0b0001000u8, 0u8]
    } else if c == 'A' {
        seq![0b0111110u8, 0b0001001u8, 0b0001001u8, 0b0111110u8, 0b0000000u8]
    } else if c == 'B' {
        seq![0b0111111u8, 0b0100101u8, 0b0100101u8, 0b0011010u8, 0u8]
    } else if c == 'C' {
        seq![0b0011110u8, 0b0100001u8, 0b0100001u8, 0b0010010u8, 0u8]
    } else if c == 'D' {
        seq![0b0111111u8, 0b0100001u8, 0b0100001u8, 0b0011110u8, 0u8]
    } else if c == 'E' {
        seq![0b0111111u8, 0b0100101u8, 0b0100101u8, 0b0100001u8, 0u8]
    } else if c == 'F' {
        seq![0b0111111u8, 0b0100100u8, 0b0100100u8, 0b0100000u8, 0u8]
    } else if c == 'G' {
        seq![0b0011110u8, 0b0100001u8, 0b0100101u8, 0b0011111u8, 0u8]
    } else if c == 'H' {
        seq![0b0111111u8, 0b0000100u8, 0b0000100u8, 0b0111111u8, 0u8]
    } else if c == 'I' {
        seq![0b0100001u8, 0b0111111u8, 0b0100001u8, 0u8, 0u8]
    } else if c == 'L' {
        seq![0b0111111u8, 0b0000001u8, 0b0000001u8, 0b0000001u8, 0u8]
    } else if c == 'M' {
        seq![0b0111111u8, 0b0010000u8, 0b0001000u8, 0b0010000u8, 0b0111111u8]
    } else if c == 'N' {
        seq![0b0111111u8, 0b0001000u8, 0b0000100u8, 0b0111111u8, 0u8]
    } else if c == 'O' {
        seq![0b0011110u8, 0b0100001u8, 0b0100001u8, 0b0011110u8, 0u8]
    } else if c == 'P' {
        seq![0b0111111u8, 0b0100100u8, 0b0100100u8, 0b0011000u8, 0u8]
    } else if c == 'R' {
        seq![0b0111111u8, 0b0101100u8, 0b0100110u8, 0b0011001u8, 0u8]
    } else if c == 'S' {
        seq![0b0011001u8, 0b0100101u8, 0b0100101u8, 0b0010011u8, 0u8]
    } else if c == 'T' {
        seq![0b0100000u8, 0b0111111u8, 0b0100000u8, 0u8, 0u8]
    } else if c == 'U' {
        seq![0b0111110u8, 0b0000001u8, 0b0000001u8, 0b0111110u8, 0u8]
    } else if c == 'V' {
        seq![0b0111110u8, 0b0000010u8, 0b0000100u8, 0b0111110u8, 0u8]
    } else if c == 'Y' {
        seq![0b0110000u8, 0b0001000u8, 0b0000111u8, 0b0001000u8, 0u8]
    } else if c == '0' {
        seq![0b0111110u8, 0b0100001u8, 0b0100001u8, 0b0111110u8, 0u8]
    } else if c == '1' {
        seq![0b0000000u8, 0b0111111u8, 0b0000000u8, 0u8, 0u8]
    } else if c == '2' {
        seq![0b0110010u8, 0b0101001u8, 0b0100101u8, 0b0100010u8, 0u8]
    } else if c == '3' {
        seq![0b0100001u8, 0b0100101u8, 0b0100101u8, 0b0011010u8, 0u8]
    } else if c == '4' {
        seq![0b0001100u8, 0b0001010u8, 0b0111111u8, 0b0001000u8, 0u8]
    } else if c == '5' {
        seq![0b0101111u8, 0b0100101u8, 0b0100101u8, 0b0011001u8, 0u8]
    } else if c == '-' {
        seq![0b0001000u8, 0b0001000u8, 0b0001000u8, 0b0001000u8, 0u8]
    } else {
        seq![0u8, 0u8, 0u8, 0u8, 0u8]
    }
}

/// The font: entry `k` is column `k % 5` of the character with code
/// `32 + k / 5`.
pub open spec fn font_table() -> Seq<u8> {
    Seq::new(480, |k: int| glyph(((32 + k / 5) as u32) as char)[k % 5])
}

/// The font's slot of character `c` holds its glyph.
proof fn lemma_slot_holds_glyph(c: char)
    requires
        has_slot(c),
    ensures
        font_table().subrange(slot_start(c), slot_start(c) + 5) == glyph(c),
{
    let s = slot_start(c);
    assert forall|k: int| s <= k < s + 5 implies font_table()[k] == glyph(c)[k - s] by {
        assert(k / 5 == (c as u32) - 32);
        assert(k % 5 == k - s);
        assert(((32 + k / 5) as u32) == c as u32);
    }
    assert(font_table().subrange(s, s + 5) =~= glyph(c));
}

/// The font's glyphs, character by character (each slot starts at
/// `(code - 32) * 5`; a column's bit `r` lights row `r`): space and `:`,
/// the letters A to I, L to P, R to V and Y, the digits 0 to 5, and `-`.
pub proof fn lemma_font_glyphs()
    ensures
        font_table().subrange(0, 5) == seq![0u8, 0u8, 0u8, 0u8, 0u8],
        font_table().subrange(130, 135) == seq![0u8, 0b0001000u8, 0u8, 0b0001000u8, 0u8],
        font_table().subrange(165, 170) == seq![0b0111110u8, 0b0001001u8, 0b0001001u8, 0b0111110u8, 0b0000000u8],
        font_table().subrange(170, 175) == seq![0b0111111u8, 0b0100101u8, 0b0100101u8, 0b0011010u8, 0u8],
        font_table().subrange(175, 180) == seq![0b0011110u8, 0b0100001u8, 0b0100001u8, 0b0010010u8, 0u8],
        font_table().subrange(180, 185) == seq![0b0111111u8, 0b0100001u8, 0b0100001u8, 0b0011110u8, 0u8],
        font_table().subrange(185, 190) == seq![0b0111111u8, 0b0100101u8, 0b0100101u8, 0b0100001u8, 0u8],
        font_table().subrange(190, 195) == seq![0b0111111u8, 0b0100100u8, 0b0100100u8, 0b0100000u8, 0u8],
        font_table().subrange(195, 200) == seq![0b0011110u8, 0b0100001u8, 0b0100101u8, 0b0011111u8, 0u8],
        font_table().subrange(200, 205) == seq![0b0111111u8, 0b0000100u8, 0b0000100u8, 0b0111111u8, 0u8],
        font_table().subrange(205, 210) == seq![0b0100001u8, 0b0111111u8, 0b0100001u8, 0u8, 0u8],
        font_table().subrange(220, 225) == seq![0b0111111u8, 0b0000001u8, 0b0000001u8, 0b0000001u8, 0u8],
        font_table().subrange(225, 230) == seq![0b0111111u8, 0b0010000u8, 0b0001000u8, 0b0010000u8, 0b0111111u8],
        font_table().subrange(230, 235) == seq![0b0111111u8, 0b0001000u8, 0b0000100u8, 0b0111111u8, 0u8],
        font_table().subrange(235, 240) == seq![0b0011110u8, 0b0100001u8, 0b0100001u8, 0b0011110u8, 0u8],
        font_table().subrange(240, 245) == seq![0b0111111u8, 0b0100100u8, 0b0100100u8, 0b0011000u8, 0u8],
        font_table().subrange(250, 255) == seq![0b0111111u8, 0b0101100u8, 0b0100110u8, 0b0011001u8, 0u8],
        font_table().subrange(255, 260) == seq![0b0011001u8, 0b0100101u8, 0b0100101u8, 0b0010011u8, 0u8],
        font_table().subrange(260, 265) == seq![0b0100000u8, 0b0111111u8, 0b0100000u8, 0u8, 0u8],
        font_table().subrange(265, 270) == seq![0b0111110u8, 0b0000001u8, 0b0000001u8, 0b0111110u8, 0u8],
        font_table().subrange(270, 275) == seq![0b0111110u8, 0b0000010u8, 0b0000100u8, 0b0111110u8, 0u8],
        font_table().subrange(285, 290) == seq![0b0110000u8, 0b0001000u8, 0b0000111u8, 0b0001000u8, 0u8],
        font_table().subrange(80, 85) == seq![0b0111110u8, 0b0100001u8, 0b0100001u8, 0b0111110u8, 0u8],
        font_table().subrange(85, 90) == seq![0b0000000u8, 0b0111111u8, 0b0000000u8, 0u8, 0u8],
        font_table().subrange(90, 95) == seq![0b0110010u8, 0b0101001u8, 0b0100101u8, 0b0100010u8, 0u8],
        font_table().subrange(95, 100) == seq![0b0100001u8, 0b0100101u8, 0b0100101u8, 0b0011010u8, 0u8],
        font_table().subrange(100, 105) == seq![0b0001100u8, 0b0001010u8, 0b0111111u8, 0b0001000u8, 0u8],
        font_table().subrange(105, 110) == seq![0b0101111u8, 0b0100101u8, 0b0100101u8, 0b0011001u8, 0u8],
        font_table().subrange(65, 70) == seq![0b0001000u8, 0b0001000u8, 0b0001000u8, 0b0001000u8, 0u8],
{
    lemma_slot_holds_glyph(' ');
    lemma_slot_holds_glyph(':');
    lemma_slot_holds_glyph('A');
    lemma_slot_holds_glyph('B');
    lemma_slot_holds_glyph('C');
    lemma_slot_holds_glyph('D');
    lemma_slot_holds_glyph('E');
    lemma_slot_holds_glyph('F');
    lemma_slot_holds_glyph('G');
    lemma_slot_holds_glyph('H');
    lemma_slot_holds_glyph('I');
    lemma_slot_holds_glyph('L');
    lemma_slot_holds_glyph('M');
    lemma_slot_holds_glyph('N');
    lemma_slot_holds_glyph('O');
    lemma_slot_holds_glyph('P');
    lemma_slot_holds_glyph('R');
    lemma_slot_holds_glyph('S');
    lemma_slot_holds_glyph('T');
    lemma_slot_holds_glyph('U');
    lemma_slot_holds_glyph('V');
    lemma_slot_holds_glyph('Y');
    lemma_slot_holds_glyph('0');
    lemma_slot_holds_glyph('1');
    lemma_slot_holds_glyph('2');
    lemma_slot_holds_glyph('3');
    lemma_slot_holds_glyph('4');
    lemma_slot_holds_glyph('5');
    lemma_slot_holds_glyph('-');
}

/// The font draws nothing else: every slot but those of the characters
/// above (codes 32, 45, 48 to 53, 58, 65 to 73, 76 to 80, 82 to 86 and 89)
/// is blank.
pub proof fn lemma_font_blank_elsewhere()
    ensures
        forall|k: int|
            0 <= k < 480 && !(32 + k / 5 == 32 || 32 + k / 5 == 45 || 48 <= 32 + k / 5 <= 53
                || 32 + k / 5 == 58 || 65 <= 32 + k / 5 <= 73 || 76 <= 32 + k / 5 <= 80 || 82
                <= 32 + k / 5 <= 86 || 32 + k / 5 == 89) ==> #[trigger] font_table()[k] == 0,
{
    assert forall|k: int|
        0 <= k < 480 && !(32 + k / 5 == 32 || 32 + k / 5 == 45 || 48 <= 32 + k / 5 <= 53 || 32 + k
            / 5 == 58 || 65 <= 32 + k / 5 <= 73 || 76 <= 32 + k / 5 <= 80 || 82 <= 32 + k / 5
            <= 86 || 32 + k / 5 == 89) implies #[trigger] font_table()[k] == 0 by {
        let c = ((32 + k / 5) as u32) as char;
        assert(c as u32 == 32 + k / 5);
        assert(glyph(c) == seq![0u8, 0u8, 0u8, 0u8, 0u8]);
    }
}

/// `buf` with the five entries of character `c` replaced by `cols`, when `c`
/// has a slot; `buf` itself otherwise.
pub open spec fn with_glyph(buf: Seq<u8>, c: char, cols: Seq<u8>) -> Seq<u8> {
    if has_slot(c) {
        Seq::new(
            buf.len(),
            |k: int|
                if slot_start(c) <= k < slot_start(c) + 5 {
                    cols[k - slot_start(c)]
                } else {
                    buf[k]
                },
        )
    } else {
        buf
    }
}

/// Writes the five columns `cols` of character `ch` into its slot of font
/// `buf`; a character without a slot changes nothing.
pub fn set_char(buf: &mut [u8; 480], ch: char, cols: [u8; 5])
    ensures
        final(buf)@ == with_glyph(old(buf)@, ch, cols@),
{
    let c = ch as u32;
    if c < 32 || c > 127 {
        return ;
    }
    let idx = ((c - 32) * 5) as usize;
    buf[idx] = cols[0];
    buf[idx + 1] = cols[1];
    buf[idx + 2] = cols[2];
    buf[idx + 3] = cols[3];
    buf[idx + 4] = cols[4];
    proof {
        assert(buf@ =~= with_glyph(old(buf)@, ch, cols@));
    }
}

/// The HUD font.
pub fn generate_font() -> (font: [u8; 480])
    ensures
        font@ == font_table(),
{
    let mut data = [0u8; 480];
    set_char(&mut data, ' ', [0u8, 0u8, 0u8, 0u8, 0u8]);
    set_char(&mut data, ':', [0u8, 0b0001000u8, 0u8, 0b0001000u8, 0u8]);
    set_char(&mut data, 'A', [0b0111110u8, 0b0001001u8, 0b0001001u8, 0b0111110u8, 0b0000000u8]);
    set_char(&mut data, 'B', [0b0111111u8, 0b0100101u8, 0b0100101u8, 0b0011010u8, 0u8]);
    set_char(&mut data, 'C', [0b0011110u8, 0b0100001u8, 0b0100001u8, 0b0010010u8, 0u8]);
    set_char(&mut data, 'D', [0b0111111u8, 0b0100001u8, 0b0100001u8, 0b0011110u8, 0u8]);
    set_char(&mut data, 'E', [0b0111111u8, 0b0100101u8, 0b0100101u8, 0b0100001u8, 0u8]);
    set_char(&mut data, 'F', [0b0111111u8, 0b0100100u8, 0b0100100u8, 0b0100000u8, 0u8]);
    set_char(&mut data, 'G', [0b0011110u8, 0b0100001u8, 0b0100101u8, 0b0011111u8, 0u8]);
    set_char(&mut data, 'H', [0b0111111u8, 0b0000100u8, 0b0000100u8, 0b0111111u8, 0u8]);
    set_char(&mut data, 'I', [0b0100001u8, 0b0111111u8, 0b0100001u8, 0u8, 0u8]);
    set_char(&mut data, 'L', [0b0111111u8, 0b0000001u8, 0b0000001u8, 0b0000001u8, 0u8]);
    set_char(&mut data, 'M', [0b0111111u8, 0b0010000u8, 0b0001000u8, 0b0010000u8, 0b0111111u8]);
    set_char(&mut data, 'N', [0b0111111u8, 0b0001000u8, 0b0000100u8, 0b0111111u8, 0u8]);
    set_char(&mut data, 'O', [0b0011110u8, 0b0100001u8, 0b0100001u8, 0b0011110u8, 0u8]);
    set_char(&mut data, 'P', [0b0111111u8, 0b0100100u8, 0b0100100u8, 0b0011000u8, 0u8]);
    set_char(&mut data, 'R', [0b0111111u8, 0b0101100u8, 0b0100110u8, 0b0011001u8, 0u8]);
    set_char(&mut data, 'S', [0b0011001u8, 0b0100101u8, 0b0100101u8, 0b0010011u8, 0u8]);
    set_char(&mut data, 'T', [0b0100000u8, 0b0111111u8, 0b0100000u8, 0u8, 0u8]);
    set_char(&mut data, 'U', [0b0111110u8, 0b0000001u8, 0b0000001u8, 0b0111110u8, 0u8]);
    set_char(&mut data, 'V', [0b0111110u8, 0b0000010u8, 0b0000100u8, 0b0111110u8, 0u8]);
    set_char(&mut data, 'Y', [0b0110000u8, 0b0001000u8, 0b0000111u8, 0b0001000u8, 0u8]);
    set_char(&mut data, '0', [0b0111110u8, 0b0100001u8, 0b0100001u8, 0b0111110u8, 0u8]);
    set_char(&mut data, '1', [0b0000000u8, 0b0111111u8, 0b0000000u8, 0u8, 0u8]);
    set_char(&mut data, '2', [0b0110010u8, 0b0101001u8, 0b0100101u8, 0b0100010u8, 0u8]);
    set_char(&mut data, '3', [0b0100001u8, 0b0100101u8, 0b0100101u8, 0b0011010u8, 0u8]);
    set_char(&mut data, '4', [0b0001100u8, 0b0001010u8, 0b0111111u8, 0b0001000u8, 0u8]);
    set_char(&mut data, '5', [0b0101111u8, 0b0100101u8, 0b0100101u8, 0b0011001u8, 0u8]);
    set_char(&mut data, '-', [0b0001000u8, 0b0001000u8, 0b0001000u8, 0b0001000u8, 0u8]);
    proof {
        assert(data@ =~= font_table());
    }
    data
}

/// Bit `row` of column byte `b` is lit.
pub open spec fn lit(b: u8, row: int) -> bool {
    ((b >> (row as u8)) & 1u8) == 1u8
}

/// Stroke `s` of `text` drawn at `(x, y)`: row `s % 7` of column
/// `(s % 35) / 7` of character `s / 35` is lit, and lands on pixel
/// `(px, py)`. Character `i` starts `6 * i` pixels right of `x`.
pub open spec fn stroke_at(x: i32, y: i32, text: Seq<char>, s: int, px: int, py: int) -> bool {
    let i = s / 35;
    let col = (s % 35) / 7;
    let row = s % 7;
    &&& 0 <= i < text.len()
    &&& has_slot(text[i])
    &&& lit(font_table()[slot_start(text[i]) + col], row)
    &&& px == x + (i as i32) * 6 + col
    &&& py == y + row
}

/// One of the first `n` strokes of `text` drawn at `(x, y)` lands on `(px, py)`.
pub open spec fn covered_before(x: i32, y: i32, text: Seq<char>, n: int, px: int, py: int) -> bool {
    exists|s: int| 0 <= s < n && #[trigger] stroke_at(x, y, text, s, px, py)
}

/// `text` drawn at `(x, y)` lights pixel `(px, py)`.
pub open spec fn text_covers(x: i32, y: i32, text: Seq<char>, px: int, py: int) -> bool {
    covered_before(x, y, text, (text.len() * 35) as int, px, py)
}

/// The colours of a `w`-wide grid after the first `n` strokes of `text`
/// are drawn at `(x, y)` in `color` over `before`.
pub open spec fn drawn(before: Seq<u32>, w: int, x: i32, y: i32, text: Seq<char>, n: int, color: u32) -> Seq<u32> {
    Seq::new(
        before.len(),
        |p: int|
            if covered_before(x, y, text, n, p % w, p / w) {
                color
            } else {
                before[p]
            },
    )
}

proof fn lemma_grid_coords(p: int, w: int, h: int)
    requires
        0 <= p < w * h,
        w > 0,
    ensures
        0 <= p % w < w,
        0 <= p / w < h,
{
    vstd::arithmetic::div_mod::lemma_fundamental_div_mod(p, w);
    vstd::arithmetic::div_mod::lemma_mod_bound(p, w);
    vstd::arithmetic::div_mod::lemma_div_pos_is_pos(p, w);
    assert(p / w < h) by (nonlinear_arith)
        requires
            0 <= p < w * h,
            w > 0,
            p == w * (p / w) + p % w,
            0 <= p % w,
    ;
}

proof fn lemma_stroke_split(i: int, col: int, row: int)
    requires
        0 <= i,
        0 <= col < 5,
        0 <= row < 7,
    ensures
        ({
            let s = i * 35 + col * 7 + row;
            &&& s / 35 == i
            &&& (s % 35) / 7 == col
            &&& s % 7 == row
        }),
{
    let s = i * 35 + col * 7 + row;
    vstd::arithmetic::div_mod::lemma_fundamental_div_mod_converse(s, 35, i, col * 7 + row);
    vstd::arithmetic::div_mod::lemma_fundamental_div_mod_converse(col * 7 + row, 7, col, row);
    assert(s % 7 == row) by {
        vstd::arithmetic::div_mod::lemma_fundamental_div_mod_converse(s, 7, i * 5 + col, row);
    }
}

/// Drawing stroke `s`, which lights no pixel of the grid, changes nothing.
proof fn lemma_draw_miss(before: Seq<u32>, w: int, h: int, x: i32, y: i32, text: Seq<char>, s: int, color: u32)
    requires
        w > 0,
        before.len() == w * h,
        0 <= s,
        forall|px: int, py: int| 0 <= px < w && 0 <= py < h ==> !stroke_at(x, y, text, s, px, py),
    ensures
        drawn(before, w, x, y, text, s + 1, color) == drawn(before, w, x, y, text, s, color),
{
    let a = drawn(before, w, x, y, text, s + 1, color);
    let b = drawn(before, w, x, y, text, s, color);
    assert forall|p: int| 0 <= p < before.len() implies a[p] == b[p] by {
        lemma_grid_coords(p, w, h);
        let px = p % w;
        let py = p / w;
        if covered_before(x, y, text, s + 1, px, py) {
            let t = choose|t: int| 0 <= t < s + 1 && #[trigger] stroke_at(x, y, text, t, px, py);
            assert(t != s);
            assert(covered_before(x, y, text, s, px, py));
        }
        if covered_before(x, y, text, s, px, py) {
            let t = choose|t: int| 0 <= t < s && #[trigger] stroke_at(x, y, text, t, px, py);
            assert(covered_before(x, y, text, s + 1, px, py));
        }
    }
    assert(a =~= b);
}

/// Drawing stroke `s`, which lights grid pixel `(px, py)`, paints that
/// pixel's entry and no other.
proof fn lemma_draw_hit(
    before: Seq<u32>,
    w: int,
    h: int,
    x: i32,
    y: i32,
    text: Seq<char>,
    s: int,
    px: int,
    py: int,
    color: u32,
)
    requires
        w > 0,
        before.len() == w * h,
        0 <= s,
        0 <= px < w,
        0 <= py < h,
        stroke_at(x, y, text, s, px, py),
    ensures
        drawn(before, w, x, y, text, s + 1, color) == drawn(before, w, x, y, text, s, color).update(
            py * w + px,
            color,
        ),
{
    lemma_index_below(px, py, w, h);
    let q = py * w + px;
    vstd::arithmetic::div_mod::lemma_fundamental_div_mod_converse(q, w, py, px);
    let a = drawn(before, w, x, y, text, s + 1, color);
    let b = drawn(before, w, x, y, text, s, color).update(q, color);
    assert forall|p: int| 0 <= p < before.len() implies a[p] == b[p] by {
        lemma_grid_coords(p, w, h);
        let ppx = p % w;
        let ppy = p / w;
        if p == q {
            assert(stroke_at(x, y, text, s, ppx, ppy));
            assert(covered_before(x, y, text, s + 1, ppx, ppy));
        } else {
            if covered_before(x, y, text, s + 1, ppx, ppy) {
                let t = choose|t: int| 0 <= t < s + 1 && #[trigger] stroke_at(x, y, text, t, ppx, ppy);
                if t == s {
                    vstd::arithmetic::div_mod::lemma_fundamental_div_mod(p, w);
                    vstd::arithmetic::mul::lemma_mul_is_commutative(w, ppy);
                    assert(ppx == px && ppy == py);
                    assert(p == q);
                }
                assert(covered_before(x, y, text, s, ppx, ppy));
            }
            if covered_before(x, y, text, s, ppx, ppy) {
                let t = choose|t: int| 0 <= t < s && #[trigger] stroke_at(x, y, text, t, ppx, ppy);
                assert(covered_before(x, y, text, s + 1, ppx, ppy));
            }
        }
    }
    assert(a =~= b);
}

/// A character without a font slot draws none of its 35 strokes.
proof fn lemma_skip_char(
    before: Seq<u32>,
    w: int,
    h: int,
    x: i32,
    y: i32,
    text: Seq<char>,
    i: int,
    k: int,
    color: u32,
)
    requires
        0 <= i < text.len(),
        !has_slot(text[i]),
        0 <= k <= 35,
        before.len() == w * h,
        w >= 0,
    ensures
        drawn(before, w, x, y, text, i * 35 + k, color) == drawn(before, w, x, y, text, i * 35, color),
    decreases k,
{
    if k > 0 {
        lemma_skip_char(before, w, h, x, y, text, i, k - 1, color);
        let s = i * 35 + k - 1;
        lemma_stroke_split(i, (k - 1) / 7, (k - 1) % 7);
        assert(s / 35 == i);
        if w > 0 {
            lemma_draw_miss(before, w, h, x, y, text, s, color);
        } else {
            assert(drawn(before, w, x, y, text, s + 1, color) =~= drawn(before, w, x, y, text, s, color));
        }
    }
}

proof fn lemma_drawn_start(before: Seq<u32>, w: int, x: i32, y: i32, text: Seq<char>, color: u32)
    ensures
        drawn(before, w, x, y, text, 0, color) == before,
{
    assert(drawn(before, w, x, y, text, 0, color) =~= before);
}

/// Writes `text` in the HUD font with its top-left corner at `(x, y)`,
/// one character every six pixels: each lit pixel of each character that
/// the font has a slot for, and that lies on the grid, becomes `color`;
/// nothing else changes.
pub fn draw_text(fb: &mut Framebuffer, x: i32, y: i32, text: &str, color: u32)
    requires
        old(fb).wf(),
        forall|i: int|
            0 <= i < text@.len() && has_slot(#[trigger] text@[i]) ==> i32::MIN <= (i as i32) * 6
                <= i32::MAX && i32::MIN <= x + (i as i32) * 6 <= i32::MAX,
        forall|s: int, px: int, py: int|
            0 <= s && #[trigger] stroke_at(x, y, text@, s, px, py) ==> px <= i32::MAX && py
                <= i32::MAX,
    ensures
        final(fb).wf(),
        final(fb).w == old(fb).w,
        final(fb).h == old(fb).h,
        final(fb).depth@ == old(fb).depth@,
        final(fb).color@ == drawn(
            old(fb).color@,
            old(fb).w as int,
            x,
            y,
            text@,
            (text@.len() * 35) as int,
            color,
        ),
{
    let font = generate_font();
    let mut chars: Vec<char> = Vec::new();
    for c in it: text.chars()
        invariant
            chars@ == it.seq().take(it.index() as int),
    {
        chars.push(c);
    }
    let ghost t = text@;
    assert(chars@ == t);
    let ghost w = fb.w as int;
    let ghost h = fb.h as int;
    let ghost before = fb.color@;
    proof {
        lemma_drawn_start(before, w, x, y, t, color);
    }
    let n = chars.len();
    let mut i: usize = 0;
    while i < n
        invariant
            n == t.len(),
            chars@ == t,
            font@ == font_table(),
            i <= n,
            fb.wf(),
            fb.w == w,
            fb.h == h,
            w == old(fb).w,
            h == old(fb).h,
            before == old(fb).color@,
            fb.depth@ == old(fb).depth@,
            fb.color@ == drawn(before, w, x, y, t, i * 35, color),
            forall|k: int|
                0 <= k < t.len() && has_slot(#[trigger] t[k]) ==> i32::MIN <= (k as i32) * 6
                    <= i32::MAX && i32::MIN <= x + (k as i32) * 6 <= i32::MAX,
            forall|s: int, px: int, py: int|
                0 <= s && #[trigger] stroke_at(x, y, t, s, px, py) ==> px <= i32::MAX && py
                    <= i32::MAX,
        decreases n - i,
    {
        let c = chars[i] as u32;
        if c < 32 || c > 127 {
            proof {
                lemma_skip_char(before, w, h, x, y, t, i as int, 35, color);
            }
        } else {
            let idx = ((c - 32) * 5) as usize;
            let gx = x + (i as i32) * 6;
            let mut col: usize = 0;
            while col < 5
                invariant
                    n == t.len(),
                    chars@ == t,
                    font@ == font_table(),
                    i < n,
                    has_slot(t[i as int]),
                    idx == slot_start(t[i as int]),
                    gx == x + (i as i32) * 6,
                    col <= 5,
                    fb.wf(),
                    fb.w == w,
                    fb.h == h,
                    fb.depth@ == old(fb).depth@,
                    fb.color@ == drawn(before, w, x, y, t, i * 35 + col * 7, color),
                    forall|s: int, px: int, py: int|
                        0 <= s && #[trigger] stroke_at(x, y, t, s, px, py) ==> px <= i32::MAX
                            && py <= i32::MAX,
                decreases 5 - col,
            {
                let bits = font[idx + col];
                let mut row: u8 = 0;
                while row < 7
                    invariant
                        n == t.len(),
                        chars@ == t,
                        font@ == font_table(),
                        i < n,
                        has_slot(t[i as int]),
                        idx == slot_start(t[i as int]),
                        gx == x + (i as i32) * 6,
                        col < 5,
                        bits == font_table()[idx + col],
                        row <= 7,
                        fb.wf(),
                        fb.w == w,
                        fb.h == h,
                        fb.depth@ == old(fb).depth@,
                        fb.color@ == drawn(before, w, x, y, t, i * 35 + col * 7 + row, color),
                        forall|s: int, px: int, py: int|
                            0 <= s && #[trigger] stroke_at(x, y, t, s, px, py) ==> px <= i32::MAX
                                && py <= i32::MAX,
                    decreases 7 - row,
                {
                    let ghost s = i * 35 + col * 7 + row;
                    proof {
                        lemma_stroke_split(i as int, col as int, row as int);
                    }
                    if (bits >> row) & 1u8 == 1u8 {
                        let ghost spx = gx + col;
                        let ghost spy = y + row;
                        proof {
                            assert(stroke_at(x, y, t, s, spx, spy));
                        }
                        let px = gx + col as i32;
                        let py = y + row as i32;
                        match fb.idx(px, py) {
                            Some(pi) => {
                                let _len = fb.color.len();
                                proof {
                                    lemma_index_below(px as int, py as int, w, h);
                                    lemma_draw_hit(before, w, h, x, y, t, s, px as int, py as int, color);
                                }
                                fb.color.set(pi, color);
                            },
                            None => {
                                proof {
                                    assert forall|qx: int, qy: int| 0 <= qx < w && 0 <= qy < h implies !stroke_at(x, y, t, s, qx, qy) by {}
                                    if w > 0 {
                                        lemma_draw_miss(before, w, h, x, y, t, s, color);
                                    } else {
                                        assert(drawn(before, w, x, y, t, s + 1, color) =~= drawn(before, w, x, y, t, s, color));
                                    }
                                }
                            },
                        }
                    } else {
                        proof {
                            assert forall|qx: int, qy: int| 0 <= qx < w && 0 <= qy < h implies !stroke_at(x, y, t, s, qx, qy) by {}
                            if w > 0 {
                                lemma_draw_miss(before, w, h, x, y, t, s, color);
                            } else {
                                assert(drawn(before, w, x, y, t, s + 1, color) =~= drawn(before, w, x, y, t, s, color));
                            }
                        }
                    }
                    row = row + 1;
                }
                col = col + 1;
            }
        }
        i = i + 1;
    }
}

} // verus!
