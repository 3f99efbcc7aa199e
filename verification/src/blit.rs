//! The text blitter: overlays glyph pixels onto a frame, leaving every
//! other pixel untouched (a transparent overlay, not an opaque copy).

use vstd::prelude::*;
use vstd::arithmetic::div_mod::{lemma_fundamental_div_mod, lemma_fundamental_div_mod_converse};
use crate::color::{Rgba, channel};
use crate::frame::{Frame, FrameError, pixel_index, pixel_of};
use crate::glyph::{Glyph, has_glyph, glyph_seq, lookup};
use vstd::string::StrSliceExecFns;

verus! {

/// What to do with text whose pixels would fall outside the frame.
#[derive(Clone, Copy, Debug, PartialEq, Eq, Structural)]
pub enum ClipPolicy {
    /// Refuse the whole draw call and leave the frame untouched.
    Reject,
    /// Draw only the pixels that lie inside the frame.
    Clip,
}

/// One renderable piece of text: a pixel position, the fixed 8x8
/// glyph-cell size, and a foreground color.
#[derive(Clone, Copy, Debug, PartialEq, Eq, Structural)]
pub struct DrawRequest {
    pub x: usize,
    pub y: usize,
    pub width: usize,
    pub height: usize,
    pub color: Rgba,
}

/// The column of the pixel that byte `idx` of the buffer belongs to.
pub open spec fn idx_px(width: int, idx: int) -> int {
    (idx / 4) % width
}

/// The row of the pixel that byte `idx` of the buffer belongs to.
pub open spec fn idx_py(width: int, idx: int) -> int {
    (idx / 4) / width
}

/// The row-major bitmap index that pixel (px, py) has within a glyph
/// whose top-left corner sits at (gx0, gy0).
pub open spec fn glyph_cell(gx0: int, gy0: int, px: int, py: int) -> int {
    (px - gx0) + 8 * (py - gy0)
}

/// Whether a glyph with bitmap `bits` placed at (gx0, gy0) has an ink
/// (value 1) bit on pixel (px, py).
pub open spec fn glyph_lights(bits: Seq<u8>, gx0: int, gy0: int, px: int, py: int) -> bool {
    &&& gx0 <= px < gx0 + 8
    &&& gy0 <= py < gy0 + 8
    &&& bits[glyph_cell(gx0, gy0, px, py)] == 1
}

/// Whether one of the first `n` characters of `text`, laid out from
/// (x0, y0) with an advance of 8, has an ink bit on pixel (px, py).
pub open spec fn text_lights_upto(
    text: Seq<char>,
    n: int,
    x0: int,
    y0: int,
    px: int,
    py: int,
) -> bool {
    exists|i: int|
        0 <= i < n && has_glyph(text[i]) && glyph_lights(glyph_seq(text[i]), x0 + 8 * i, y0, px, py)
}

/// Whether `text`, laid out from (x0, y0), has an ink bit on (px, py).
pub open spec fn text_lights(text: Seq<char>, x0: int, y0: int, px: int, py: int) -> bool {
    text_lights_upto(text, text.len() as int, x0, y0, px, py)
}

/// The buffer after overlaying the glyph bitmap `bits` at (gx0, gy0):
/// bytes of pixels under an ink bit take `color`, all others keep
/// their value. Pixels outside the frame simply have no bytes.
pub open spec fn glyph_blit_spec(
    frame: Seq<u8>,
    width: int,
    gx0: int,
    gy0: int,
    bits: Seq<u8>,
    color: Rgba,
) -> Seq<u8> {
    Seq::new(
        frame.len(),
        |idx: int|
            if glyph_lights(bits, gx0, gy0, idx_px(width, idx), idx_py(width, idx)) {
                channel(color, idx % 4)
            } else {
                frame[idx]
            },
    )
}

/// As `glyph_blit_spec`, but with only the first `k` bitmap cells (in
/// row-major order) applied.
pub open spec fn glyph_blit_upto(
    frame: Seq<u8>,
    width: int,
    gx0: int,
    gy0: int,
    bits: Seq<u8>,
    color: Rgba,
    k: int,
) -> Seq<u8> {
    Seq::new(
        frame.len(),
        |idx: int|
            if glyph_lights(bits, gx0, gy0, idx_px(width, idx), idx_py(width, idx))
                && glyph_cell(gx0, gy0, idx_px(width, idx), idx_py(width, idx)) < k {
                channel(color, idx % 4)
            } else {
                frame[idx]
            },
    )
}

/// The buffer after drawing the first `n` characters of `text` from
/// (x0, y0) in `color` with an advance of 8.
pub open spec fn draw_prefix_spec(
    frame: Seq<u8>,
    width: int,
    x0: int,
    y0: int,
    text: Seq<char>,
    color: Rgba,
    n: int,
) -> Seq<u8> {
    Seq::new(
        frame.len(),
        |idx: int|
            if text_lights_upto(text, n, x0, y0, idx_px(width, idx), idx_py(width, idx)) {
                channel(color, idx % 4)
            } else {
                frame[idx]
            },
    )
}

/// The buffer after drawing all of `text` from (x0, y0) in `color`.
pub open spec fn draw_text_spec(
    frame: Seq<u8>,
    width: int,
    x0: int,
    y0: int,
    text: Seq<char>,
    color: Rgba,
) -> Seq<u8> {
    draw_prefix_spec(frame, width, x0, y0, text, color, text.len() as int)
}

/// Whether every pixel of `text` laid out from (x0, y0) lies inside a
/// `width` by `height` frame. Empty text always fits: there is no
/// rightmost glyph cell to overrun with.
pub open spec fn text_fits(text: Seq<char>, x0: int, y0: int, width: int, height: int) -> bool {
    text.len() == 0 || (x0 + 8 * text.len() <= width && y0 + 8 <= height)
}

/// Byte `idx` of a well-sized buffer belongs to the in-frame pixel
/// (idx_px, idx_py), and lies among that pixel's four bytes.
proof fn lemma_idx_decomp(width: int, height: int, idx: int)
    requires
        width >= 1,
        0 <= idx < 4 * (width * height),
    ensures
        0 <= idx_px(width, idx) < width,
        0 <= idx_py(width, idx) < height,
        pixel_index(width, idx_px(width, idx), idx_py(width, idx)) <= idx
            < pixel_index(width, idx_px(width, idx), idx_py(width, idx)) + 4,
        idx % 4 == idx - pixel_index(width, idx_px(width, idx), idx_py(width, idx)),
{
    let q = idx / 4;
    let t = idx % 4;
    lemma_fundamental_div_mod(idx, 4);
    assert(0 <= t < 4) by (nonlinear_arith)
        requires idx >= 0, t == idx % 4;
    let px = q % width;
    let py = q / width;
    lemma_fundamental_div_mod(q, width);
    assert(0 <= px < width) by (nonlinear_arith)
        requires q >= 0, width >= 1, px == q % width;
    assert(0 <= py < height) by (nonlinear_arith)
        requires q == width * py + px, 0 <= px < width, 0 <= q < width * height, width >= 1;
}

/// The four bytes of the in-frame pixel (px, py) lie inside the
/// buffer, and each maps back to (px, py) under the decomposition.
proof fn lemma_pixel_bytes(width: int, height: int, px: int, py: int, t: int)
    requires
        width >= 1,
        0 <= px < width,
        0 <= py < height,
        0 <= t < 4,
    ensures
        0 <= pixel_index(width, px, py) + t < 4 * (width * height),
        idx_px(width, pixel_index(width, px, py) + t) == px,
        idx_py(width, pixel_index(width, px, py) + t) == py,
        (pixel_index(width, px, py) + t) % 4 == t,
{
    let q = py * width + px;
    assert(0 <= q && q + 1 <= width * height) by (nonlinear_arith)
        requires 0 <= px < width, 0 <= py < height, q == py * width + px;
    let idx = 4 * q + t;
    lemma_fundamental_div_mod_converse(idx, 4, q, t);
    lemma_fundamental_div_mod_converse(q, width, py, px);
}

/// Drawing one more character on top of a drawn prefix: a character
/// without a glyph changes nothing, one with a glyph overlays it at
/// its advance offset, and a glyph starting at or beyond the right
/// edge changes nothing either.
proof fn lemma_prefix_step(
    fb: Seq<u8>,
    width: int,
    height: int,
    x0: int,
    y0: int,
    text: Seq<char>,
    color: Rgba,
    i: int,
)
    requires
        fb.len() == width * height * 4,
        width >= 0,
        height >= 0,
        0 <= i < text.len(),
    ensures
        !has_glyph(text[i]) ==> draw_prefix_spec(fb, width, x0, y0, text, color, i + 1)
            == draw_prefix_spec(fb, width, x0, y0, text, color, i),
        has_glyph(text[i]) ==> draw_prefix_spec(fb, width, x0, y0, text, color, i + 1)
            == glyph_blit_spec(
                draw_prefix_spec(fb, width, x0, y0, text, color, i),
                width,
                x0 + 8 * i,
                y0,
                glyph_seq(text[i]),
                color,
            ),
        has_glyph(text[i]) && x0 + 8 * i >= width ==> draw_prefix_spec(
            fb, width, x0, y0, text, color, i + 1)
            == draw_prefix_spec(fb, width, x0, y0, text, color, i),
{
    let pre = draw_prefix_spec(fb, width, x0, y0, text, color, i);
    let post = draw_prefix_spec(fb, width, x0, y0, text, color, i + 1);
    if !has_glyph(text[i]) {
        assert forall|idx: int| 0 <= idx < fb.len() implies post[idx] == pre[idx] by {
            let ipx = idx_px(width, idx);
            let ipy = idx_py(width, idx);
            if text_lights_upto(text, i + 1, x0, y0, ipx, ipy) {
                let j = choose|j: int|
                    0 <= j < i + 1 && has_glyph(text[j])
                        && glyph_lights(glyph_seq(text[j]), x0 + 8 * j, y0, ipx, ipy);
                assert(j < i);
                assert(text_lights_upto(text, i, x0, y0, ipx, ipy));
            }
        }
        assert(post =~= pre);
    } else {
        let gbits = glyph_seq(text[i]);
        let gx = x0 + 8 * i;
        let mid = glyph_blit_spec(pre, width, gx, y0, gbits, color);
        assert forall|idx: int| 0 <= idx < fb.len() implies post[idx] == mid[idx] by {
            let ipx = idx_px(width, idx);
            let ipy = idx_py(width, idx);
            if glyph_lights(gbits, gx, y0, ipx, ipy) {
                assert(text_lights_upto(text, i + 1, x0, y0, ipx, ipy));
            } else if text_lights_upto(text, i, x0, y0, ipx, ipy) {
                let j = choose|j: int|
                    0 <= j < i && has_glyph(text[j])
                        && glyph_lights(glyph_seq(text[j]), x0 + 8 * j, y0, ipx, ipy);
                assert(text_lights_upto(text, i + 1, x0, y0, ipx, ipy));
            } else {
                if text_lights_upto(text, i + 1, x0, y0, ipx, ipy) {
                    let j = choose|j: int|
                        0 <= j < i + 1 && has_glyph(text[j])
                            && glyph_lights(glyph_seq(text[j]), x0 + 8 * j, y0, ipx, ipy);
                    if j == i {
                        assert(glyph_lights(gbits, gx, y0, ipx, ipy));
                    } else {
                        assert(text_lights_upto(text, i, x0, y0, ipx, ipy));
                    }
                    assert(false);
                }
            }
        }
        assert(post =~= mid);
        if gx >= width {
            assert forall|idx: int| 0 <= idx < fb.len() implies mid[idx] == pre[idx] by {
                let ipx = idx_px(width, idx);
                let ipy = idx_py(width, idx);
                if glyph_lights(gbits, gx, y0, ipx, ipy) {
                    assert(width >= 1 && height >= 1) by (nonlinear_arith)
                        requires width * height * 4 > 0, width >= 0, height >= 0;
                    lemma_idx_decomp(width, height, idx);
                    assert(false);
                }
            }
            assert(mid =~= pre);
        }
    }
}

/// Drawing empty text leaves the buffer unchanged.
pub proof fn lemma_draw_empty(frame: Seq<u8>, width: int, x0: int, y0: int, color: Rgba)
    ensures
        draw_text_spec(frame, width, x0, y0, Seq::empty(), color) == frame,
{
    assert(draw_text_spec(frame, width, x0, y0, Seq::empty(), color) =~= frame);
}

/// Drawing the same text twice at the same position with the same
/// color yields the same buffer as drawing it once.
pub proof fn lemma_draw_idempotent(
    frame: Seq<u8>,
    width: int,
    x0: int,
    y0: int,
    text: Seq<char>,
    color: Rgba,
)
    ensures
        draw_text_spec(
            draw_text_spec(frame, width, x0, y0, text, color), width, x0, y0, text, color)
            == draw_text_spec(frame, width, x0, y0, text, color),
{
    let once = draw_text_spec(frame, width, x0, y0, text, color);
    let twice = draw_text_spec(once, width, x0, y0, text, color);
    assert(twice =~= once);
}

/// What drawing text does to one in-frame pixel: it takes the text
/// color exactly where some glyph of the text has an ink bit, and
/// keeps its prior color everywhere else.
pub proof fn lemma_draw_pixel(
    frame: Seq<u8>,
    width: int,
    height: int,
    x0: int,
    y0: int,
    text: Seq<char>,
    color: Rgba,
    px: int,
    py: int,
)
    requires
        frame.len() == width * height * 4,
        0 <= px < width,
        0 <= py < height,
    ensures
        text_lights(text, x0, y0, px, py) ==> pixel_of(
            draw_text_spec(frame, width, x0, y0, text, color), width, px, py) == color,
        !text_lights(text, x0, y0, px, py) ==> pixel_of(
            draw_text_spec(frame, width, x0, y0, text, color), width, px, py)
            == pixel_of(frame, width, px, py),
{
    assert(width * height * 4 == 4 * (width * height)) by (nonlinear_arith);
    let drawn = draw_text_spec(frame, width, x0, y0, text, color);
    let base = pixel_index(width, px, py);
    lemma_pixel_bytes(width, height, px, py, 0);
    lemma_pixel_bytes(width, height, px, py, 1);
    lemma_pixel_bytes(width, height, px, py, 2);
    lemma_pixel_bytes(width, height, px, py, 3);
    if text_lights(text, x0, y0, px, py) {
        assert(drawn[base] == channel(color, 0));
        assert(drawn[base + 1] == channel(color, 1));
        assert(drawn[base + 2] == channel(color, 2));
        assert(drawn[base + 3] == channel(color, 3));
    } else {
        assert(drawn[base] == frame[base]);
        assert(drawn[base + 1] == frame[base + 1]);
        assert(drawn[base + 2] == frame[base + 2]);
        assert(drawn[base + 3] == frame[base + 3]);
    }
}

impl DrawRequest {
    /// Well-formed: the glyph cell is the fixed 8x8.
    pub open spec fn wf(self) -> bool {
        self.width == 8 && self.height == 8
    }

    /// Builds a request at (x, y) with the fixed 8x8 glyph cell.
    pub fn new(x: usize, y: usize, color: Rgba) -> (r: DrawRequest)
        ensures
            r.wf(),
            r.x == x,
            r.y == y,
            r.color == color,
    {
        DrawRequest { x, y, width: 8, height: 8, color }
    }

    /// Draws `text` into `frame` at this request's position, in its
    /// color, under `policy`.
    pub fn draw(&self, frame: &mut Frame, text: &str, policy: ClipPolicy) -> (r: Result<
        (),
        FrameError,
    >)
        requires
            old(frame).wf(),
            self.wf(),
        ensures
            final(frame).wf(),
            final(frame).spec_width() == old(frame).spec_width(),
            final(frame).spec_height() == old(frame).spec_height(),
            r is Ok <==> (policy == ClipPolicy::Clip || text_fits(
                text@, self.x as int, self.y as int, old(frame).spec_width(),
                old(frame).spec_height())),
            r is Ok ==> final(frame).spec_bytes() == draw_text_spec(
                old(frame).spec_bytes(),
                old(frame).spec_width(),
                self.x as int,
                self.y as int,
                text@,
                self.color,
            ),
            r is Err ==> final(frame).spec_bytes() == old(frame).spec_bytes()
                && r == Result::<(), FrameError>::Err(FrameError::OutOfBounds),
    {
        frame.draw_text(self.x, self.y, text, self.color, policy)
    }
}

impl Frame {
    /// Overlays glyph `g` with its top-left corner at (gx0, gy0):
    /// pixels under an ink bit take `color`, every other pixel keeps
    /// its value, and bits falling outside the frame are dropped.
    fn blit_glyph(&mut self, gx0: usize, gy0: usize, g: &Glyph, color: Rgba)
        requires
            old(self).wf(),
            g.wf(),
        ensures
            final(self).wf(),
            final(self).spec_width() == old(self).spec_width(),
            final(self).spec_height() == old(self).spec_height(),
            final(self).spec_bytes() == glyph_blit_spec(
                old(self).spec_bytes(),
                old(self).spec_width(),
                gx0 as int,
                gy0 as int,
                g.bitmap(),
                color,
            ),
    {
        let ghost orig: Frame = *self;
        let width = self.width();
        let height = self.height();
        proof {
            assert(glyph_blit_upto(
                orig.spec_bytes(), width as int, gx0 as int, gy0 as int, g.bitmap(), color, 0)
                =~= orig.spec_bytes());
        }
        for y in 0..8usize
            invariant
                self.wf(),
                g.wf(),
                orig.wf(),
                self.spec_width() == orig.spec_width(),
                self.spec_height() == orig.spec_height(),
                width == orig.spec_width(),
                height == orig.spec_height(),
                self.spec_bytes() == glyph_blit_upto(
                    orig.spec_bytes(), width as int, gx0 as int, gy0 as int, g.bitmap(), color,
                    8 * y),
        {
            for x in 0..8usize
                invariant
                    self.wf(),
                    g.wf(),
                    orig.wf(),
                    y < 8,
                    self.spec_width() == orig.spec_width(),
                    self.spec_height() == orig.spec_height(),
                    width == orig.spec_width(),
                    height == orig.spec_height(),
                    self.spec_bytes() == glyph_blit_upto(
                        orig.spec_bytes(), width as int, gx0 as int, gy0 as int, g.bitmap(),
                        color, 8 * y + x),
            {
                let ghost k: int = 8 * (y as int) + (x as int);
                let ghost fb = orig.spec_bytes();
                let ghost w = width as int;
                let ghost h = height as int;
                let ghost bits = g.bitmap();
                let ghost gx = gx0 as int;
                let ghost gy = gy0 as int;
                let ghost prev = glyph_blit_upto(fb, w, gx, gy, bits, color, k);
                let ghost next = glyph_blit_upto(fb, w, gx, gy, bits, color, k + 1);
                let b = g.bit(x, y);
                let do_write = b == 1 && gx0 < width && x < width - gx0 && gy0 < height
                    && y < height - gy0;
                if do_write {
                    let px = gx0 + x;
                    let py = gy0 + y;
                    let n = self.byte_len();
                    proof {
                        assert((py as int) * w + px + 1 <= w * h) by (nonlinear_arith)
                            requires px < w, py < h, 0 <= px, 0 <= py;
                        assert(w * h * 4 == 4 * (w * h)) by (nonlinear_arith);
                    }
                    let base: usize = 4 * (py * width + px);
                    self.set_byte(base, color.r);
                    self.set_byte(base + 1, color.g);
                    self.set_byte(base + 2, color.b);
                    self.set_byte(base + 3, color.a);
                    proof {
                        let pxi = px as int;
                        let pyi = py as int;
                        let basei = base as int;
                        assert forall|idx: int| 0 <= idx < fb.len()
                            implies next[idx] == self.spec_bytes()[idx] by {
                            lemma_idx_decomp(w, h, idx);
                            let ipx = idx_px(w, idx);
                            let ipy = idx_py(w, idx);
                            if basei <= idx < basei + 4 {
                                lemma_pixel_bytes(w, h, pxi, pyi, idx - basei);
                            } else {
                                if glyph_lights(bits, gx, gy, ipx, ipy)
                                    && glyph_cell(gx, gy, ipx, ipy) == k {
                                    assert(ipx == pxi && ipy == pyi);
                                    assert(false);
                                }
                            }
                        }
                        assert(self.spec_bytes() =~= next);
                    }
                } else {
                    proof {
                        assert forall|idx: int| 0 <= idx < fb.len()
                            implies next[idx] == prev[idx] by {
                            let ipx = idx_px(w, idx);
                            let ipy = idx_py(w, idx);
                            if glyph_lights(bits, gx, gy, ipx, ipy)
                                && glyph_cell(gx, gy, ipx, ipy) == k {
                                assert(w >= 1 && h >= 1) by (nonlinear_arith)
                                    requires w * h * 4 > 0, w >= 0, h >= 0;
                                lemma_idx_decomp(w, h, idx);
                                assert(ipx == gx + x && ipy == gy + y);
                                assert(false);
                            }
                        }
                        assert(prev =~= next);
                    }
                }
            }
        }
        proof {
            let fb = orig.spec_bytes();
            let w = width as int;
            let bits = g.bitmap();
            let gx = gx0 as int;
            let gy = gy0 as int;
            assert(glyph_blit_upto(fb, w, gx, gy, bits, color, 64)
                =~= glyph_blit_spec(fb, w, gx, gy, bits, color));
        }
    }

    /// Draws `text` from (x0, y0) in `color`, one 8x8 glyph cell per
    /// character with a fixed advance of 8; characters without a
    /// glyph leave their cell blank. Glyph pixels overwrite the frame,
    /// all other pixels keep their value. Under `ClipPolicy::Reject` a
    /// text whose cells would not all fit in the frame is refused
    /// whole; under `ClipPolicy::Clip` only the pixels that fall
    /// outside the frame are dropped.
    pub fn draw_text(
        &mut self,
        x0: usize,
        y0: usize,
        text: &str,
        color: Rgba,
        policy: ClipPolicy,
    ) -> (r: Result<(), FrameError>)
        requires
            old(self).wf(),
        ensures
            final(self).wf(),
            final(self).spec_width() == old(self).spec_width(),
            final(self).spec_height() == old(self).spec_height(),
            r is Ok <==> (policy == ClipPolicy::Clip || text_fits(
                text@, x0 as int, y0 as int, old(self).spec_width(), old(self).spec_height())),
            r is Ok ==> final(self).spec_bytes() == draw_text_spec(
                old(self).spec_bytes(),
                old(self).spec_width(),
                x0 as int,
                y0 as int,
                text@,
                color,
            ),
            r is Err ==> final(self).spec_bytes() == old(self).spec_bytes()
                && r == Result::<(), FrameError>::Err(FrameError::OutOfBounds),
    {
        let ghost orig: Frame = *self;
        let n = text.unicode_len();
        let width = self.width();
        let height = self.height();
        match policy {
            ClipPolicy::Reject => {
                let fits: bool;
                if n == 0 {
                    fits = true;
                } else if !(y0 <= height && height - y0 >= 8) {
                    fits = false;
                } else if x0 > width {
                    fits = false;
                } else {
                    let rem: usize = width - x0;
                    let q: usize = rem / 8;
                    proof {
                        lemma_fundamental_div_mod(rem as int, 8);
                        assert(0 <= (rem as int) % 8 < 8) by (nonlinear_arith)
                            requires rem as int >= 0;
                    }
                    if n <= q {
                        fits = true;
                        proof {
                            assert(8 * (n as int) <= 8 * (q as int));
                            assert(x0 + 8 * (n as int) <= width);
                        }
                    } else {
                        fits = false;
                        proof {
                            assert(8 * (n as int) >= 8 * (q as int) + 8);
                            assert(x0 + 8 * (n as int) > width);
                        }
                    }
                }
                assert(fits == text_fits(
                    text@, x0 as int, y0 as int, width as int, height as int));
                if !fits {
                    return Err(FrameError::OutOfBounds);
                }
            },
            ClipPolicy::Clip => {},
        }
        proof {
            assert(draw_prefix_spec(
                orig.spec_bytes(), width as int, x0 as int, y0 as int, text@, color, 0)
                =~= orig.spec_bytes());
        }
        for i in 0..n
            invariant
                self.wf(),
                orig.wf(),
                self.spec_width() == orig.spec_width(),
                self.spec_height() == orig.spec_height(),
                width == orig.spec_width(),
                height == orig.spec_height(),
                n == text@.len(),
                self.spec_bytes() == draw_prefix_spec(
                    orig.spec_bytes(), width as int, x0 as int, y0 as int, text@, color,
                    i as int),
        {
            let c = text.get_char(i);
            let mut gx0: usize = 0;
            let mut do_blit = false;
            if x0 < width {
                let rem: usize = width - x0;
                let q: usize = (rem - 1) / 8;
                proof {
                    lemma_fundamental_div_mod(rem as int - 1, 8);
                    assert(0 <= (rem as int - 1) % 8 < 8) by (nonlinear_arith)
                        requires rem as int - 1 >= 0;
                }
                if i <= q {
                    proof {
                        assert(8 * (i as int) <= 8 * (q as int));
                    }
                    gx0 = x0 + 8 * i;
                    do_blit = true;
                }
            }
            proof {
                if !do_blit {
                    assert(x0 as int + 8 * (i as int) >= width as int);
                }
                lemma_prefix_step(
                    orig.spec_bytes(), width as int, height as int, x0 as int, y0 as int,
                    text@, color, i as int);
            }
            match lookup(c) {
                Some(g) => {
                    if do_blit {
                        self.blit_glyph(gx0, y0, &g, color);
                    }
                },
                None => {},
            }
        }
        Ok(())
    }
}

} // verus!
