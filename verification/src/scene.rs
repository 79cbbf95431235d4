//! The integer parts of building the solar-system scene: the triangles of a
//! UV sphere, and the fixed star field behind everything.
use vstd::prelude::*;

verus! {

/// Triangle `f` of a UV sphere with `slices` segments around: the grid cell
/// `f / 2` (row `i`, column `j`, with `slices + 1` vertices per row) is split
/// into `(i0, i2, i1)` and then `(i1, i2, i3)`, where `i0`, `i1` are the
/// cell's top corners and `i2`, `i3` the bottom ones.
pub open spec fn sphere_face(slices: int, f: int) -> [usize; 3] {
    let row = slices + 1;
    let cell = f / 2;
    let i = cell / slices;
    let j = cell % slices;
    let i0 = i * row + j;
    let i1 = i * row + j + 1;
    let i2 = (i + 1) * row + j;
    let i3 = (i + 1) * row + j + 1;
    if f % 2 == 0 {
        [i0 as usize, i2 as usize, i1 as usize]
    } else {
        [i1 as usize, i2 as usize, i3 as usize]
    }
}

proof fn lemma_cell_split(i: int, j: int, slices: int, b: int)
    requires
        0 <= i,
        0 <= j < slices,
        0 <= b < 2,
    ensures
        ({
            let f = 2 * (i * slices + j) + b;
            &&& f / 2 == i * slices + j
            &&& f % 2 == b
            &&& (f / 2) / slices == i
            &&& (f / 2) % slices == j
        }),
{
    let cell = i * slices + j;
    vstd::arithmetic::div_mod::lemma_fundamental_div_mod_converse(2 * cell + b, 2, cell, b);
    vstd::arithmetic::div_mod::lemma_fundamental_div_mod_converse(cell, slices, i, j);
}

/// The triangles of a UV sphere of `stacks` rows and `slices` segments,
/// whose `(stacks + 1) * (slices + 1)` vertices run row by row: two per
/// grid cell, cells row by row.
pub fn uv_sphere_faces(stacks: u32, slices: u32) -> (faces: Vec<[usize; 3]>)
    requires
        slices < u32::MAX,
        (stacks + 1) * (slices + 1) <= usize::MAX,
    ensures
        faces@.len() == 2 * stacks * slices,
        forall|f: int| 0 <= f < faces@.len() ==> #[trigger] faces@[f] == sphere_face(slices as int, f),
        forall|i: int, j: int|
            0 <= i < stacks && 0 <= j < slices ==> #[trigger] cell_faces(faces@, slices as int, i, j),
{
    let mut faces: Vec<[usize; 3]> = Vec::new();
    let row = (slices + 1) as usize;
    let ghost sl = slices as int;
    let mut i: usize = 0;
    assert(2 * 0 * sl == 0) by (nonlinear_arith);
    while i < stacks as usize
        invariant
            i <= stacks,
            row == sl + 1,
            sl == slices,
            (stacks + 1) * (slices + 1) <= usize::MAX,
            faces@.len() == 2 * i * sl,
            forall|f: int| 0 <= f < faces@.len() ==> #[trigger] faces@[f] == sphere_face(sl, f),
        decreases stacks - i,
    {
        let mut j: usize = 0;
        assert(2 * i * sl == 2 * (i * sl + 0)) by (nonlinear_arith);
        while j < slices as usize
            invariant
                i < stacks,
                j <= slices,
                row == sl + 1,
                sl == slices,
                (stacks + 1) * (slices + 1) <= usize::MAX,
                faces@.len() == 2 * (i * sl + j),
                forall|f: int| 0 <= f < faces@.len() ==> #[trigger] faces@[f] == sphere_face(sl, f),
            decreases slices - j,
        {
            proof {
                assert(0 <= i * row && i * row + j + 1 <= (i + 1) * row + j + 1 && (i + 1) * row + j + 1
                    < (stacks + 1) * (slices + 1)) by (nonlinear_arith)
                    requires
                        0 <= i,
                        i + 1 <= stacks,
                        j + 1 <= slices,
                        row == slices + 1,
                ;
                lemma_cell_split(i as int, j as int, sl, 0);
                lemma_cell_split(i as int, j as int, sl, 1);
            }
            let i0 = i * row + j;
            let i1 = i * row + j + 1;
            let i2 = (i + 1) * row + j;
            let i3 = (i + 1) * row + j + 1;
            let ghost n0 = faces@.len();
            faces.push([i0, i2, i1]);
            faces.push([i1, i2, i3]);
            proof {
                assert(faces@[n0 as int] == sphere_face(sl, n0 as int));
                assert(faces@[n0 as int + 1] == sphere_face(sl, n0 as int + 1));
            }
            j = j + 1;
        }
        proof {
            assert(2 * (i * sl + sl) == 2 * (i + 1) * sl) by (nonlinear_arith);
        }
        i = i + 1;
    }
    proof {
        assert(faces@ =~= Seq::new((2 * stacks * slices) as nat, |f: int| sphere_face(slices as int, f)));
        assert forall|i: int, j: int| 0 <= i < stacks && 0 <= j < slices implies #[trigger] cell_faces(
            faces@,
            slices as int,
            i,
            j,
        ) by {
            lemma_sphere_cell(stacks as int, slices as int, i, j);
        }
    }
    faces
}

/// The two triangles of grid cell `(i, j)` (row `i`, column `j`) in
/// `faces`: with `i0 = i * (slices + 1) + j` its top-left corner, `i1 = i0 + 1`
/// its top-right, `i2 = i0 + slices + 1` its bottom-left and `i3 = i2 + 1` its
/// bottom-right, triangle `2 * (i * slices + j)` is `(i0, i2, i1)` and the next
/// is `(i1, i2, i3)`: they share the diagonal `i1`-`i2` and cover the cell.
pub open spec fn cell_faces(faces: Seq<[usize; 3]>, slices: int, i: int, j: int) -> bool {
    let i0 = i * (slices + 1) + j;
    let i1 = i0 + 1;
    let i2 = i0 + slices + 1;
    let i3 = i2 + 1;
    let f = 2 * (i * slices + j);
    &&& faces[f] == [i0 as usize, i2 as usize, i1 as usize]
    &&& faces[f + 1] == [i1 as usize, i2 as usize, i3 as usize]
}

/// Each cell of the sphere's grid is split into its two triangles as
/// [`cell_faces`] says.
pub proof fn lemma_sphere_cell(stacks: int, slices: int, i: int, j: int)
    requires
        0 <= i < stacks,
        0 <= j < slices,
    ensures
        cell_faces(Seq::new((2 * stacks * slices) as nat, |f: int| sphere_face(slices, f)), slices, i, j),
{
    let faces = Seq::new((2 * stacks * slices) as nat, |f: int| sphere_face(slices, f));
    lemma_cell_split(i, j, slices, 0);
    lemma_cell_split(i, j, slices, 1);
    let c = i * slices + j;
    assert(0 <= c && 2 * c + 1 < 2 * stacks * slices) by (nonlinear_arith)
        requires
            0 <= i < stacks,
            0 <= j < slices,
            c == i * slices + j,
    ;
    assert((i + 1) * (slices + 1) + j == i * (slices + 1) + j + slices + 1) by (nonlinear_arith);
    assert(faces[2 * c] == sphere_face(slices, 2 * c));
    assert(faces[2 * c + 1] == sphere_face(slices, 2 * c + 1));
}

/// Every triangle of a UV sphere uses only the sphere's vertices: each
/// index is below `(stacks + 1) * (slices + 1)`.
pub proof fn lemma_sphere_faces_in_range(stacks: int, slices: int, f: int)
    requires
        0 < slices,
        0 <= stacks,
        0 <= f < 2 * stacks * slices,
        (stacks + 1) * (slices + 1) <= usize::MAX,
    ensures
        sphere_face(slices, f)[0] < (stacks + 1) * (slices + 1),
        sphere_face(slices, f)[1] < (stacks + 1) * (slices + 1),
        sphere_face(slices, f)[2] < (stacks + 1) * (slices + 1),
{
    let cell = f / 2;
    let i = cell / slices;
    let j = cell % slices;
    let row = slices + 1;
    assert(0 <= cell < stacks * slices) by (nonlinear_arith)
        requires
            0 <= f < 2 * stacks * slices,
            cell == f / 2,
    ;
    vstd::arithmetic::div_mod::lemma_fundamental_div_mod(cell, slices);
    vstd::arithmetic::div_mod::lemma_mod_bound(cell, slices);
    vstd::arithmetic::div_mod::lemma_div_pos_is_pos(cell, slices);
    assert(i < stacks) by (nonlinear_arith)
        requires
            cell == slices * i + j,
            0 <= j,
            cell < stacks * slices,
            slices > 0,
    ;
    assert(0 <= i * row + j && i * row + j + 1 <= (i + 1) * row + j && (i + 1) * row + j + 1 < (
    stacks + 1) * (slices + 1)) by (nonlinear_arith)
        requires
            0 <= i < stacks,
            0 <= j < slices,
            row == slices + 1,
    ;
}

/// The seed of the star field.
pub const STAR_SEED: u32 = 1337u32;

/// One step of the star field's linear congruential generator:
/// `s * 1664525 + 1013904223` modulo 2^32.
pub open spec fn lcg_next(s: u32) -> u32 {
    ((s * 1664525 + 1013904223) % 0x1_0000_0000) as u32
}

/// The generator's state after `n` steps from `seed`.
pub open spec fn lcg_state(seed: u32, n: nat) -> u32
    decreases n,
{
    if n == 0 {
        seed
    } else {
        lcg_next(lcg_state(seed, (n - 1) as nat))
    }
}

/// Draw `n` (from 1): the top 16 bits of the state after `n` steps.
pub open spec fn lcg_draw(seed: u32, n: nat) -> int {
    lcg_state(seed, n) as int / 0x1_0000
}

pub open spec fn abs(v: i32) -> int {
    if v < 0 {
        -v
    } else {
        v as int
    }
}

/// Star `k` of the field: draws `3k + 1`, `3k + 2` and `3k + 3` give its
/// column (modulo `|width|`), its row (modulo `|height|`) and its brightness
/// (`100` plus the draw modulo 155).
pub open spec fn star(seed: u32, k: nat, width: i32, height: i32) -> (i32, i32, u8) {
    (
        (lcg_draw(seed, 3 * k + 1) % abs(width)) as i32,
        (lcg_draw(seed, 3 * k + 2) % abs(height)) as i32,
        (lcg_draw(seed, 3 * k + 3) % 155 + 100) as u8,
    )
}

fn lcg_step(s: u32) -> (r: u32)
    ensures
        r == lcg_next(s),
{
    let r = s.wrapping_mul(1664525).wrapping_add(1013904223);
    proof {
        let m = 0x1_0000_0000int;
        let p = (s * 1664525) % m;
        vstd::arithmetic::div_mod::lemma_add_mod_noop(s * 1664525, 1013904223, m);
        vstd::arithmetic::div_mod::lemma_mod_twice(1013904223, m);
        assert(1013904223int % m == 1013904223);
    }
    r
}

fn top_half(s: u32) -> (d: u16)
    ensures
        d == s / 0x1_0000,
{
    assert(s >> 16u32 == s / 0x1_0000) by (bit_vector);
    (s >> 16u32) as u16
}

/// `|v|` as a `u32`.
fn magnitude(v: i32) -> (m: u32)
    ensures
        m == abs(v),
{
    if v < 0 {
        (-(v as i64)) as u32
    } else {
        v as u32
    }
}

/// The `count` background stars of a `width` by `height` screen, each a
/// pixel `(x, y)` with a grey level, drawn from the generator seeded with
/// `seed`: every star lies on the screen and has a grey level from 100 to
/// 254.
pub fn generate_starfield(seed: u32, count: usize, width: i32, height: i32) -> (stars: Vec<(i32, i32, u8)>)
    requires
        width != 0,
        height != 0,
    ensures
        stars@.len() == count,
        forall|k: int| 0 <= k < count ==> #[trigger] stars@[k] == star(seed, k as nat, width, height),
        forall|k: int|
            0 <= k < count ==> {
                &&& 0 <= (#[trigger] stars@[k]).0 < abs(width)
                &&& 0 <= stars@[k].1 < abs(height)
                &&& 100 <= stars@[k].2 <= 254
            },
{
    let wm = magnitude(width);
    let hm = magnitude(height);
    let mut state = seed;
    let mut stars: Vec<(i32, i32, u8)> = Vec::new();
    let mut k: usize = 0;
    while k < count
        invariant
            k <= count,
            wm == abs(width),
            hm == abs(height),
            wm > 0,
            hm > 0,
            state == lcg_state(seed, (3 * k) as nat),
            stars@.len() == k,
            forall|q: int| 0 <= q < k ==> #[trigger] stars@[q] == star(seed, q as nat, width, height),
            forall|q: int|
                0 <= q < k ==> {
                    &&& 0 <= (#[trigger] stars@[q]).0 < abs(width)
                    &&& 0 <= stars@[q].1 < abs(height)
                    &&& 100 <= stars@[q].2 <= 254
                },
        decreases count - k,
    {
        let ghost n = (3 * k) as nat;
        state = lcg_step(state);
        let dx = top_half(state);
        assert(state == lcg_state(seed, n + 1));
        state = lcg_step(state);
        let dy = top_half(state);
        assert(state == lcg_state(seed, n + 2));
        state = lcg_step(state);
        let db = top_half(state);
        assert(state == lcg_state(seed, n + 3));
        let x = ((dx as u32) % wm) as i32;
        let y = ((dy as u32) % hm) as i32;
        let b = (db % 155 + 100) as u8;
        let ghost kk = k as nat;
        assert(3 * kk + 1 == n + 1 && 3 * kk + 2 == n + 2 && 3 * kk + 3 == n + 3);
        stars.push((x, y, b));
        assert(stars@[k as int] == star(seed, k as nat, width, height));
        k = k + 1;
    }
    stars
}

} // verus!
