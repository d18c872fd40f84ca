//! The menu-bar glyph: an 18×18 clipboard drawn as a template icon
//! (black + alpha), so macOS adapts it to light and dark menu bars.
use vstd::prelude::*;

use crate::text::chars_of;

verus! {

/// Rows (and columns) of the glyph's art.
pub const GLYPH_SIZE: usize = 18;

/// Row `r` of the glyph: `#` is ink, `.` is transparent.
pub open spec fn art_row(r: int) -> Seq<char> {
    if r == 0 {
        "......######......"@
    } else if r == 1 {
        "......#....#......"@
    } else if r == 2 {
        "..#####....#####.."@
    } else if r == 3 {
        "..#....####....#.."@
    } else if r == 4 {
        "..#............#.."@
    } else if r == 5 {
        "..#..########..#.."@
    } else if r == 6 {
        "..#............#.."@
    } else if r == 7 {
        "..#..########..#.."@
    } else if r == 8 {
        "..#............#.."@
    } else if r == 9 {
        "..#..########..#.."@
    } else if r == 10 {
        "..#............#.."@
    } else if r == 11 {
        "..#..######....#.."@
    } else if r == 12 {
        "..#............#.."@
    } else if r == 13 {
        "..#............#.."@
    } else if r == 14 {
        "..#............#.."@
    } else if r == 15 {
        "..##############.."@
    } else if r == 16 {
        ".................."@
    } else if r == 17 {
        ".................."@
    } else {
        Seq::empty()
    }
}

fn art_line(r: usize) -> (s: &'static str)
    requires
        r < GLYPH_SIZE,
    ensures
        s@ == art_row(r as int),
{
    match r {
        0 => "......######......",
        1 => "......#....#......",
        2 => "..#####....#####..",
        3 => "..#....####....#..",
        4 => "..#............#..",
        5 => "..#..########..#..",
        6 => "..#............#..",
        7 => "..#..########..#..",
        8 => "..#............#..",
        9 => "..#..########..#..",
        10 => "..#............#..",
        11 => "..#..######....#..",
        12 => "..#............#..",
        13 => "..#............#..",
        14 => "..#............#..",
        15 => "..##############..",
        16 => "..................",
        17 => "..................",
        _ => "",
    }
}

/// One RGBA pixel of the glyph: black, opaque where the art has ink.
pub open spec fn pixel(c: char) -> Seq<u8> {
    seq![0u8, 0u8, 0u8, if c == '#' { 255u8 } else { 0u8 }]
}

/// `s` repeated `n` times.
pub open spec fn repeat(s: Seq<u8>, n: nat) -> Seq<u8>
    decreases n,
{
    if n == 0 {
        Seq::empty()
    } else {
        repeat(s, (n - 1) as nat) + s
    }
}

/// One row of art, each character widened to `scale` pixels.
pub open spec fn scaled_line(row: Seq<char>, scale: nat) -> Seq<u8>
    decreases row.len(),
{
    if row.len() == 0 {
        Seq::empty()
    } else {
        scaled_line(row.drop_last(), scale) + repeat(pixel(row.last()), scale)
    }
}

/// The first `n` rows of art, each drawn `scale` times, as RGBA bytes.
pub open spec fn glyph_rows(n: nat, scale: nat) -> Seq<u8>
    decreases n,
{
    if n == 0 {
        Seq::empty()
    } else {
        glyph_rows((n - 1) as nat, scale) + repeat(scaled_line(art_row(n - 1), scale), scale)
    }
}

/// The whole glyph at `scale` pixels per art cell, as RGBA bytes, row by row.
pub open spec fn glyph(scale: nat) -> Seq<u8> {
    glyph_rows(GLYPH_SIZE as nat, scale)
}

proof fn lemma_repeat_step(s: Seq<u8>, n: nat)
    ensures
        repeat(s, n + 1) == repeat(s, n) + s,
{
}

fn render(scale: usize) -> (rgba: Vec<u8>)
    requires
        1 <= scale <= 2,
    ensures
        rgba@ == glyph(scale as nat),
{
    let mut rgba: Vec<u8> = Vec::new();
    let mut r: usize = 0;
    while r < GLYPH_SIZE
        invariant
            1 <= scale <= 2,
            r <= GLYPH_SIZE,
            rgba@ == glyph_rows(r as nat, scale as nat),
        decreases GLYPH_SIZE - r,
    {
        let row = chars_of(art_line(r));
        let ghost line = scaled_line(row@, scale as nat);
        let ghost base = rgba@;
        let mut sy: usize = 0;
        while sy < scale
            invariant
                1 <= scale <= 2,
                sy <= scale,
                line == scaled_line(row@, scale as nat),
                rgba@ == base + repeat(line, sy as nat),
            decreases scale - sy,
        {
            let ghost before_line = rgba@;
            let mut ci: usize = 0;
            while ci < row.len()
                invariant
                    1 <= scale <= 2,
                    ci <= row@.len(),
                    rgba@ == before_line + scaled_line(row@.take(ci as int), scale as nat),
                decreases row@.len() - ci,
            {
                let c = row[ci];
                let alpha: u8 = if c == '#' {
                    255
                } else {
                    0
                };
                let ghost before_cell = rgba@;
                let mut sx: usize = 0;
                while sx < scale
                    invariant
                        1 <= scale <= 2,
                        sx <= scale,
                        alpha == pixel(c)[3],
                        rgba@ == before_cell + repeat(pixel(c), sx as nat),
                    decreases scale - sx,
                {
                    rgba.push(0);
                    rgba.push(0);
                    rgba.push(0);
                    rgba.push(alpha);
                    proof {
                        lemma_repeat_step(pixel(c), sx as nat);
                    }
                    sx += 1;
                    assert(rgba@ =~= before_cell + repeat(pixel(c), sx as nat));
                }
                assert(row@.take(ci + 1).drop_last() =~= row@.take(ci as int));
                assert(row@.take(ci + 1).last() == c);
                ci += 1;
                assert(rgba@ =~= before_line + scaled_line(row@.take(ci as int), scale as nat));
            }
            assert(row@.take(ci as int) =~= row@);
            proof {
                lemma_repeat_step(line, sy as nat);
            }
            sy += 1;
            assert(rgba@ =~= base + repeat(line, sy as nat));
        }
        r += 1;
        assert(rgba@ =~= glyph_rows(r as nat, scale as nat));
    }
    rgba
}

/// The tray glyph at 18×18 pixels, as RGBA bytes.
pub fn glyph_rgba() -> (rgba: Vec<u8>)
    ensures
        rgba@ == glyph(1),
{
    render(1)
}

/// The tray glyph rendered at 2× (36×36 pixels) for retina menu bars, as
/// RGBA bytes.
pub fn tray_rgba() -> (rgba: Vec<u8>)
    ensures
        rgba@ == glyph(2),
{
    render(2)
}

proof fn lemma_art_rows()
    ensures
        forall|r: int| 0 <= r < GLYPH_SIZE ==> (#[trigger] art_row(r)).len() == GLYPH_SIZE,
{
    assert forall|r: int| 0 <= r < GLYPH_SIZE implies (#[trigger] art_row(r)).len() == GLYPH_SIZE by {
        reveal_strlit("..##############..");
        reveal_strlit("..#####....#####..");
        reveal_strlit("..#..########..#..");
        reveal_strlit("..#..######....#..");
        reveal_strlit("..#....####....#..");
        reveal_strlit("..#............#..");
        reveal_strlit("......######......");
        reveal_strlit("......#....#......");
        reveal_strlit("..................");
    }
}

proof fn lemma_repeat_len(s: Seq<u8>, n: nat)
    ensures
        repeat(s, n).len() == n * s.len(),
    decreases n,
{
    if n > 0 {
        let m = (n - 1) as nat;
        lemma_repeat_len(s, m);
        assert(repeat(s, n) == repeat(s, m) + s);
        assert(n * s.len() == m * s.len() + s.len()) by (nonlinear_arith)
            requires
                m + 1 == n,
        ;
    } else {
        assert(n * s.len() == 0) by (nonlinear_arith)
            requires
                n == 0,
        ;
    }
}

proof fn lemma_scaled_line_len(row: Seq<char>, scale: nat)
    ensures
        scaled_line(row, scale).len() == row.len() * scale * 4,
    decreases row.len(),
{
    if row.len() > 0 {
        lemma_scaled_line_len(row.drop_last(), scale);
        lemma_repeat_len(pixel(row.last()), scale);
        assert(row.len() * scale * 4 == (row.len() - 1) * scale * 4 + scale * 4) by (nonlinear_arith);
    }
}

proof fn lemma_glyph_rows_len(n: nat, scale: nat)
    requires
        n <= GLYPH_SIZE,
    ensures
        glyph_rows(n, scale).len() == n * scale * (GLYPH_SIZE * scale * 4),
    decreases n,
{
    if n > 0 {
        lemma_glyph_rows_len((n - 1) as nat, scale);
        lemma_art_rows();
        let line = scaled_line(art_row(n - 1), scale);
        lemma_scaled_line_len(art_row(n - 1), scale);
        lemma_repeat_len(line, scale);
        let w = GLYPH_SIZE * scale * 4;
        let m = (n - 1) as nat;
        assert(glyph_rows(n, scale) == glyph_rows(m, scale) + repeat(line, scale));
        assert(n * scale * w == m * scale * w + scale * w) by (nonlinear_arith)
            requires
                m + 1 == n,
        ;
    } else {
        assert(n * scale * (GLYPH_SIZE * scale * 4) == 0) by (nonlinear_arith)
            requires
                n == 0,
        ;
    }
}

/// The glyph is square: `18·scale` rows of `18·scale` RGBA pixels.
pub proof fn lemma_glyph_len(scale: nat)
    ensures
        glyph(scale).len() == (GLYPH_SIZE * scale) * (GLYPH_SIZE * scale) * 4,
{
    lemma_glyph_rows_len(GLYPH_SIZE as nat, scale);
    assert(GLYPH_SIZE * scale * (GLYPH_SIZE * scale * 4) == (GLYPH_SIZE * scale) * (GLYPH_SIZE
        * scale) * 4) by (nonlinear_arith);
}

proof fn lemma_repeat_index(s: Seq<u8>, n: nat, q: int, r: int)
    requires
        0 <= q < n,
        0 <= r < s.len(),
    ensures
        q * s.len() + r < repeat(s, n).len(),
        repeat(s, n)[q * s.len() + r] == s[r],
    decreases n,
{
    let m = (n - 1) as nat;
    lemma_repeat_len(s, n);
    lemma_repeat_len(s, m);
    assert(repeat(s, n) == repeat(s, m) + s);
    assert(q * s.len() + r < n * s.len()) by (nonlinear_arith)
        requires
            0 <= q < n,
            0 <= r < s.len(),
    ;
    if q < m {
        lemma_repeat_index(s, m, q, r);
    } else {
        assert(q * s.len() == m * s.len());
    }
}

proof fn lemma_scaled_line_index(row: Seq<char>, scale: nat, col: int, sx: int, ch: int)
    requires
        0 <= col < row.len(),
        0 <= sx < scale,
        0 <= ch < 4,
    ensures
        col * (4 * scale) + sx * 4 + ch < scaled_line(row, scale).len(),
        scaled_line(row, scale)[col * (4 * scale) + sx * 4 + ch] == pixel(row[col])[ch],
    decreases row.len(),
{
    let n = row.len();
    let init = row.drop_last();
    lemma_scaled_line_len(row, scale);
    lemma_scaled_line_len(init, scale);
    let k = col * (4 * scale) + sx * 4 + ch;
    assert(k < (col + 1) * (4 * scale)) by (nonlinear_arith)
        requires
            k == col * (4 * scale) + sx * 4 + ch,
            0 <= sx < scale,
            0 <= ch < 4,
    ;
    assert((col + 1) * (4 * scale) <= n * scale * 4) by (nonlinear_arith)
        requires
            col + 1 <= n,
    ;
    assert(scaled_line(row, scale) == scaled_line(init, scale) + repeat(pixel(row.last()), scale));
    if col < n - 1 {
        lemma_scaled_line_index(init, scale, col, sx, ch);
        assert(init[col] == row[col]);
        assert((col + 1) * (4 * scale) <= init.len() * scale * 4) by (nonlinear_arith)
            requires
                col + 1 <= init.len(),
        ;
    } else {
        lemma_repeat_index(pixel(row.last()), scale, sx, ch);
        assert(col * (4 * scale) == init.len() * scale * 4) by (nonlinear_arith)
            requires
                col == init.len(),
        ;
    }
}

proof fn lemma_glyph_rows_index(n: nat, scale: nat, r: int, sy: int, j: int)
    requires
        n <= GLYPH_SIZE,
        0 <= r < n,
        0 <= sy < scale,
        0 <= j < GLYPH_SIZE * scale * 4,
    ensures
        r * (scale * (GLYPH_SIZE * scale * 4)) + sy * (GLYPH_SIZE * scale * 4) + j < glyph_rows(
            n,
            scale,
        ).len(),
        glyph_rows(n, scale)[r * (scale * (GLYPH_SIZE * scale * 4)) + sy * (GLYPH_SIZE * scale * 4)
            + j] == scaled_line(art_row(r), scale)[j],
    decreases n,
{
    let w = GLYPH_SIZE * scale * 4;
    let m = (n - 1) as nat;
    lemma_art_rows();
    lemma_glyph_rows_len(n, scale);
    lemma_glyph_rows_len(m, scale);
    let line = scaled_line(art_row(m as int), scale);
    lemma_scaled_line_len(art_row(m as int), scale);
    lemma_repeat_len(line, scale);
    assert(glyph_rows(n, scale) == glyph_rows(m, scale) + repeat(line, scale));
    let k = r * (scale * w) + sy * w + j;
    assert(k < (r + 1) * (scale * w)) by (nonlinear_arith)
        requires
            k == r * (scale * w) + sy * w + j,
            0 <= sy < scale,
            0 <= j < w,
    ;
    assert((r + 1) * (scale * w) <= n * scale * w) by (nonlinear_arith)
        requires
            r + 1 <= n,
            w >= 0,
            scale >= 0,
    ;
    if r < m {
        lemma_glyph_rows_index(m, scale, r, sy, j);
        assert((r + 1) * (scale * w) <= m * scale * w) by (nonlinear_arith)
            requires
                r + 1 <= m,
                w >= 0,
                scale >= 0,
        ;
    } else {
        lemma_repeat_index(line, scale, sy, j);
        assert(r * (scale * w) == m * scale * w) by (nonlinear_arith)
            requires
                r == m,
        ;
    }
}

/// Each pixel of the glyph shows its art cell: at `scale`, pixel (`x`, `y`)
/// is black, opaque exactly when the art has ink at (`x / scale`,
/// `y / scale`), and the image is stored row by row, four bytes a pixel.
pub proof fn lemma_glyph_pixel(scale: nat, y: int, x: int, c: int)
    requires
        scale > 0,
        0 <= y < GLYPH_SIZE * scale,
        0 <= x < GLYPH_SIZE * scale,
        0 <= c < 4,
    ensures
        (y * (GLYPH_SIZE * scale) + x) * 4 + c < glyph(scale).len(),
        glyph(scale)[(y * (GLYPH_SIZE * scale) + x) * 4 + c] == if c == 3 && art_row(
            y / (scale as int),
        )[x / (scale as int)] == '#' {
            255u8
        } else {
            0u8
        },
{
    let s = scale as int;
    let r = y / s;
    let sy = y % s;
    let col = x / s;
    let sx = x % s;
    let w = GLYPH_SIZE * scale * 4;
    assert(y == r * s + sy && 0 <= sy < s) by (nonlinear_arith)
        requires
            s > 0,
            r == y / s,
            sy == y % s,
    ;
    assert(x == col * s + sx && 0 <= sx < s) by (nonlinear_arith)
        requires
            s > 0,
            col == x / s,
            sx == x % s,
    ;
    assert(0 <= r < GLYPH_SIZE) by (nonlinear_arith)
        requires
            s > 0,
            y == r * s + sy,
            0 <= sy < s,
            0 <= y < GLYPH_SIZE * s,
    ;
    assert(0 <= col < GLYPH_SIZE) by (nonlinear_arith)
        requires
            s > 0,
            x == col * s + sx,
            0 <= sx < s,
            0 <= x < GLYPH_SIZE * s,
    ;
    let j = col * (4 * s) + sx * 4 + c;
    assert(0 <= j < w) by (nonlinear_arith)
        requires
            j == col * (4 * s) + sx * 4 + c,
            0 <= col < GLYPH_SIZE,
            0 <= sx < s,
            0 <= c < 4,
            w == GLYPH_SIZE * s * 4,
    ;
    assert((y * (GLYPH_SIZE * scale) + x) * 4 + c == r * (s * w) + sy * w + j) by (nonlinear_arith)
        requires
            s == scale,
            y == r * s + sy,
            x == col * s + sx,
            j == col * (4 * s) + sx * 4 + c,
            w == GLYPH_SIZE * s * 4,
    ;
    lemma_art_rows();
    lemma_glyph_rows_index(GLYPH_SIZE as nat, scale, r, sy, j);
    lemma_scaled_line_index(art_row(r), scale, col, sx, c);
}

} // verus!
