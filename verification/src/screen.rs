//! The sprite-XOR drawing algorithm over the 64x32 monochrome framebuffer.
//!
//! A sprite is a run of bytes read from memory; each byte is one row of eight
//! horizontal pixels, most significant bit leftmost.  Every sprite bit is
//! XORed onto the framebuffer: bits that would run past the rightmost column
//! are clipped for that row, while the row position itself wraps vertically.
//! A draw reports a collision when it turns at least one lit pixel off.

use vstd::prelude::*;

verus! {

/// Framebuffer width in pixels.
pub const SCREEN_WIDTH: usize = 64;

/// Framebuffer height in pixels.
pub const SCREEN_HEIGHT: usize = 32;

/// Number of bytes in the framebuffer (one byte per pixel, row-major).
pub const SCREEN_AREA: usize = 2048;

/// The all-off framebuffer.
pub open spec fn blank_screen_seq() -> Seq<u8> {
    Seq::new(SCREEN_AREA as nat, |p: int| 0u8)
}

/// A framebuffer is a byte per pixel, either fully off (0) or fully on (255).
pub open spec fn screen_wf(s: Seq<u8>) -> bool {
    &&& s.len() == SCREEN_AREA
    &&& forall|p: int| 0 <= p < s.len() ==> #[trigger] s[p] == 0 || s[p] == 255
}

/// Whether the pixel stored at index `p` is lit.
pub open spec fn pixel_lit(s: Seq<u8>, p: int) -> bool {
    s[p] != 0
}

/// Whether bit `j` of a sprite row is set, counting from the leftmost pixel.
pub open spec fn sprite_bit(b: u8, j: int) -> bool {
    (b >> ((7 - j) as u8)) & 1 == 1
}

/// The byte that encodes a pixel state.
pub open spec fn pixel_byte(lit: bool) -> u8 {
    if lit {
        255
    } else {
        0
    }
}

/// XOR the leftmost `k` bits of sprite row `b` onto the framebuffer `s`, at
/// row `yp` starting in column `x`; bits past column 63 are clipped.  Returns
/// the new framebuffer and whether any lit pixel was turned off.
pub open spec fn draw_bits(s: Seq<u8>, b: u8, x: int, yp: int, k: int) -> (Seq<u8>, bool)
    decreases k,
{
    if k <= 0 {
        (s, false)
    } else {
        let prev = draw_bits(s, b, x, yp, k - 1);
        let j = k - 1;
        if x + j < 64 {
            let p = yp * 64 + x + j;
            let was_lit = pixel_lit(prev.0, p);
            let hit = was_lit && sprite_bit(b, j);
            (prev.0.update(p, pixel_byte(was_lit != sprite_bit(b, j))), prev.1 || hit)
        } else {
            prev
        }
    }
}

/// XOR the first `k` rows of the sprite stored at `mem[i..]` onto the
/// framebuffer, starting at column `x` and row `y`; the row position wraps
/// vertically.  Returns the new framebuffer and whether any draw collided.
pub open spec fn draw_rows(s: Seq<u8>, mem: Seq<u8>, i: int, x: int, y: int, k: int) -> (
    Seq<u8>,
    bool,
)
    decreases k,
{
    if k <= 0 {
        (s, false)
    } else {
        let prev = draw_rows(s, mem, i, x, y, k - 1);
        let row = draw_bits(prev.0, mem[i + (k - 1)], x, (y + (k - 1)) % 32, 8);
        (row.0, prev.1 || row.1)
    }
}

/// Drawing one sprite row touches only the pixels of that row from column `x`
/// rightwards among the first `k` bits, and never wraps past column 63: every
/// other byte of the framebuffer is left as it was.
pub proof fn lemma_draw_bits_frame(s: Seq<u8>, b: u8, x: int, yp: int, k: int)
    requires
        0 <= x < 64,
        0 <= yp,
        yp * 64 + 64 <= s.len(),
    ensures
        draw_bits(s, b, x, yp, k).0.len() == s.len(),
        forall|p: int|
            0 <= p < s.len() && !(yp * 64 + x <= p < yp * 64 + x + k && p < yp * 64 + 64)
                ==> #[trigger] draw_bits(s, b, x, yp, k).0[p] == s[p],
    decreases k,
{
    if k > 0 {
        lemma_draw_bits_frame(s, b, x, yp, k - 1);
    }
}

/// The value of each pixel written by a row draw: the XOR of the previous
/// pixel with the sprite bit aimed at it.
pub proof fn lemma_draw_bits_at(s: Seq<u8>, b: u8, x: int, yp: int, k: int)
    requires
        0 <= x < 64,
        0 <= yp,
        yp * 64 + 64 <= s.len(),
        0 <= k <= 8,
    ensures
        forall|j: int|
            0 <= j < k && x + j < 64 ==> #[trigger] draw_bits(s, b, x, yp, k).0[yp * 64 + x + j]
                == pixel_byte(pixel_lit(s, yp * 64 + x + j) != sprite_bit(b, j)),
    decreases k,
{
    if k > 0 {
        lemma_draw_bits_at(s, b, x, yp, k - 1);
        lemma_draw_bits_frame(s, b, x, yp, k - 1);
    }
}

/// A row draw collides exactly when some unclipped, set sprite bit lands on a
/// pixel that was already lit.
pub proof fn lemma_draw_bits_hit(s: Seq<u8>, b: u8, x: int, yp: int, k: int)
    requires
        0 <= x < 64,
        0 <= yp,
        yp * 64 + 64 <= s.len(),
        0 <= k <= 8,
    ensures
        draw_bits(s, b, x, yp, k).1 == exists|j: int|
            0 <= j < k && x + j < 64 && pixel_lit(s, yp * 64 + x + j) && #[trigger] sprite_bit(
                b,
                j,
            ),
    decreases k,
{
    if k > 0 {
        lemma_draw_bits_hit(s, b, x, yp, k - 1);
        lemma_draw_bits_frame(s, b, x, yp, k - 1);
        let r = draw_bits(s, b, x, yp, k);
        let hit_in = |j: int|
            0 <= j < k && x + j < 64 && pixel_lit(s, yp * 64 + x + j) && sprite_bit(b, j);
        if r.1 {
            if draw_bits(s, b, x, yp, k - 1).1 {
                let j = choose|j: int|
                    0 <= j < k - 1 && x + j < 64 && pixel_lit(s, yp * 64 + x + j)
                        && #[trigger] sprite_bit(b, j);
                assert(hit_in(j));
            } else {
                assert(hit_in(k - 1));
            }
        }
        if exists|j: int|
            0 <= j < k && x + j < 64 && pixel_lit(s, yp * 64 + x + j) && #[trigger] sprite_bit(
                b,
                j,
            ) {
            let j = choose|j: int|
                0 <= j < k && x + j < 64 && pixel_lit(s, yp * 64 + x + j) && #[trigger] sprite_bit(
                    b,
                    j,
                );
            assert(r.1);
        }
    }
}

/// A row draw keeps the framebuffer well formed.
pub proof fn lemma_draw_bits_wf(s: Seq<u8>, b: u8, x: int, yp: int, k: int)
    requires
        screen_wf(s),
        0 <= x < 64,
        0 <= yp < 32,
        0 <= k <= 8,
    ensures
        screen_wf(draw_bits(s, b, x, yp, k).0),
    decreases k,
{
    if k > 0 {
        lemma_draw_bits_wf(s, b, x, yp, k - 1);
    }
}

/// Drawing the same sprite row twice at the same position restores the
/// framebuffer, and the second draw collides exactly where a set, unclipped
/// sprite bit found its pixel dark before the first draw (the first draw lit
/// it, so the second finds it lit).
pub proof fn lemma_draw_bits_twice(s: Seq<u8>, b: u8, x: int, yp: int)
    requires
        screen_wf(s),
        0 <= x < 64,
        0 <= yp < 32,
    ensures
        draw_bits(draw_bits(s, b, x, yp, 8).0, b, x, yp, 8).0 == s,
        draw_bits(draw_bits(s, b, x, yp, 8).0, b, x, yp, 8).1 == exists|j: int|
            0 <= j < 8 && x + j < 64 && !pixel_lit(s, yp * 64 + x + j) && #[trigger] sprite_bit(
                b,
                j,
            ),
{
    let s1 = draw_bits(s, b, x, yp, 8).0;
    let s2 = draw_bits(s1, b, x, yp, 8).0;
    lemma_draw_bits_frame(s, b, x, yp, 8);
    lemma_draw_bits_at(s, b, x, yp, 8);
    lemma_draw_bits_wf(s, b, x, yp, 8);
    lemma_draw_bits_frame(s1, b, x, yp, 8);
    lemma_draw_bits_at(s1, b, x, yp, 8);
    lemma_draw_bits_hit(s1, b, x, yp, 8);
    assert forall|p: int| 0 <= p < s.len() implies s2[p] == s[p] by {
        if yp * 64 + x <= p < yp * 64 + x + 8 && p < yp * 64 + 64 {
            let j = p - (yp * 64 + x);
            assert(0 <= j < 8 && x + j < 64);
            assert(s1[yp * 64 + x + j] == pixel_byte(
                pixel_lit(s, yp * 64 + x + j) != sprite_bit(b, j),
            ));
            assert(s2[yp * 64 + x + j] == pixel_byte(
                pixel_lit(s1, yp * 64 + x + j) != sprite_bit(b, j),
            ));
            assert(pixel_lit(s1, p) == (pixel_lit(s, p) != sprite_bit(b, j)));
            assert(s[p] == pixel_byte(pixel_lit(s, p)));
        }
    }
    assert(s2 =~= s);
    let second_hit = draw_bits(s1, b, x, yp, 8).1;
    let dark_hit = |j: int|
        0 <= j < 8 && x + j < 64 && !pixel_lit(s, yp * 64 + x + j) && sprite_bit(b, j);
    assert forall|j: int| 0 <= j < 8 && x + j < 64 && #[trigger] sprite_bit(b, j) implies (
    pixel_lit(s1, yp * 64 + x + j) == !pixel_lit(s, yp * 64 + x + j)) by {
        let p = yp * 64 + x + j;
        assert(s1[p] == pixel_byte(pixel_lit(s, p) != sprite_bit(b, j)));
    }
    if second_hit {
        let j = choose|j: int|
            0 <= j < 8 && x + j < 64 && pixel_lit(s1, yp * 64 + x + j) && #[trigger] sprite_bit(
                b,
                j,
            );
        assert(dark_hit(j));
        assert(exists|j: int|
            0 <= j < 8 && x + j < 64 && !pixel_lit(s, yp * 64 + x + j) && #[trigger] sprite_bit(
                b,
                j,
            ));
    }
    if exists|j: int|
        0 <= j < 8 && x + j < 64 && !pixel_lit(s, yp * 64 + x + j) && #[trigger] sprite_bit(b, j) {
        let j = choose|j: int|
            0 <= j < 8 && x + j < 64 && !pixel_lit(s, yp * 64 + x + j) && #[trigger] sprite_bit(
                b,
                j,
            );
        assert(pixel_lit(s1, yp * 64 + x + j));
        assert(second_hit);
    }
}

} // verus!
