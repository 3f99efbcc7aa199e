//! The framebuffer: a contiguous byte buffer of width*height*4 bytes,
//! row-major, 4 bytes per pixel in R, G, B, A order.

use vstd::prelude::*;
use crate::color::{Rgba, channel};

verus! {

/// The byte pattern of a `width` by `height` buffer in which every
/// pixel holds `color`.
pub open spec fn fill_spec(width: int, height: int, color: Rgba) -> Seq<u8> {
    Seq::new((width * height * 4) as nat, |i: int| channel(color, i % 4))
}

/// The byte index of the first channel of the pixel at column `px`,
/// row `py` of a buffer `width` pixels wide.
pub open spec fn pixel_index(width: int, px: int, py: int) -> int {
    4 * (py * width + px)
}

/// The color of the pixel at column `px`, row `py` of a linear RGBA
/// buffer `width` pixels wide.
pub open spec fn pixel_of(bytes: Seq<u8>, width: int, px: int, py: int) -> Rgba {
    Rgba {
        r: bytes[pixel_index(width, px, py)],
        g: bytes[pixel_index(width, px, py) + 1],
        b: bytes[pixel_index(width, px, py) + 2],
        a: bytes[pixel_index(width, px, py) + 3],
    }
}

/// Every pixel of a filled buffer holds the fill color.
pub proof fn lemma_fill_pixel(width: int, height: int, color: Rgba, px: int, py: int)
    requires
        0 <= px < width,
        0 <= py < height,
    ensures
        pixel_of(fill_spec(width, height, color), width, px, py) == color,
{
    let q = py * width + px;
    assert(0 <= q && q + 1 <= width * height) by (nonlinear_arith)
        requires 0 <= px < width, 0 <= py < height, q == py * width + px;
    assert forall|t: int| 0 <= t < 4 implies #[trigger] ((4 * q + t) % 4) == t by {
        vstd::arithmetic::div_mod::lemma_fundamental_div_mod_converse(4 * q + t, 4, q, t);
    }
}

/// A linear RGBA framebuffer together with its pixel dimensions.
pub struct Frame {
    bytes: Vec<u8>,
    width: usize,
    height: usize,
}

/// An error in the use of a frame.
#[derive(Clone, Copy, Debug, PartialEq, Eq, Structural)]
pub enum FrameError {
    /// The byte buffer does not hold exactly width*height*4 bytes.
    SizeMismatch,
    /// A draw would reach outside the frame under the reject policy.
    OutOfBounds,
}

impl Frame {
    /// The frame's bytes.
    pub closed spec fn spec_bytes(self) -> Seq<u8> {
        self.bytes@
    }

    /// The frame's width in pixels.
    pub closed spec fn spec_width(self) -> int {
        self.width as int
    }

    /// The frame's height in pixels.
    pub closed spec fn spec_height(self) -> int {
        self.height as int
    }

    /// Well-formed: the buffer holds exactly width*height*4 bytes.
    pub open spec fn wf(self) -> bool {
        self.spec_bytes().len() == self.spec_width() * self.spec_height() * 4
    }

    /// The color of the pixel at column `px`, row `py`.
    pub open spec fn pixel_spec(self, px: int, py: int) -> Rgba {
        pixel_of(self.spec_bytes(), self.spec_width(), px, py)
    }

    /// Allocates a `width` by `height` frame with every pixel set to
    /// `color`; nothing if the buffer would not fit in memory.
    pub fn new(width: usize, height: usize, color: Rgba) -> (r: Option<Frame>)
        ensures
            r is Some <==> width * height * 4 <= usize::MAX,
            r matches Some(f) ==> f.wf() && f.spec_width() == width && f.spec_height() == height
                && f.spec_bytes() == fill_spec(width as int, height as int, color),
    {
        let n: usize = match Frame::byte_count(width, height) {
            Some(n) => n,
            None => {
                return None;
            },
        };
        let mut bytes: Vec<u8> = Vec::new();
        for i in 0..n
            invariant
                bytes@.len() == i,
        {
            bytes.push(0);
        }
        let mut f = Frame { bytes, width, height };
        f.fill(color);
        Some(f)
    }

    /// The number of bytes a `width` by `height` frame takes, or
    /// nothing if that number does not fit in `usize`.
    fn byte_count(width: usize, height: usize) -> (r: Option<usize>)
        ensures
            r is Some <==> width * height * 4 <= usize::MAX,
            r matches Some(n) ==> n == width * height * 4,
    {
        let p: usize = match width.checked_mul(height) {
            Some(p) => p,
            None => {
                proof {
                    assert(width * height * 4 > usize::MAX) by (nonlinear_arith)
                        requires width * height > usize::MAX;
                }
                return None;
            },
        };
        match p.checked_mul(4) {
            Some(n) => Some(n),
            None => None,
        }
    }

    /// Wraps an existing byte buffer as a frame; rejects a buffer that
    /// does not hold exactly width*height*4 bytes.
    pub fn from_bytes(bytes: Vec<u8>, width: usize, height: usize) -> (r: Result<Frame, FrameError>)
        ensures
            r is Ok <==> bytes@.len() == width * height * 4,
            r matches Ok(f) ==> f.wf() && f.spec_width() == width && f.spec_height() == height
                && f.spec_bytes() == bytes@,
            r is Err ==> r == Result::<Frame, FrameError>::Err(FrameError::SizeMismatch),
    {
        let blen: usize = bytes.len();
        let n: usize = match Frame::byte_count(width, height) {
            Some(n) => n,
            None => {
                return Err(FrameError::SizeMismatch);
            },
        };
        if blen == n {
            Ok(Frame { bytes, width, height })
        } else {
            Err(FrameError::SizeMismatch)
        }
    }

    /// Overwrites every pixel of the frame with `color`.
    pub fn fill(&mut self, color: Rgba)
        requires
            old(self).wf(),
        ensures
            final(self).wf(),
            final(self).spec_width() == old(self).spec_width(),
            final(self).spec_height() == old(self).spec_height(),
            final(self).spec_bytes()
                == fill_spec(old(self).spec_width(), old(self).spec_height(), color),
    {
        let ghost orig: Frame = *self;
        let n = self.bytes.len();
        for i in 0..n
            invariant
                self.width == orig.width,
                self.height == orig.height,
                self.bytes@.len() == n,
                n == orig.spec_bytes().len(),
                forall|j: int| 0 <= j < i ==> self.bytes@[j] == channel(color, j % 4),
        {
            let k = i % 4;
            let v = if k == 0 {
                color.r
            } else if k == 1 {
                color.g
            } else if k == 2 {
                color.b
            } else {
                color.a
            };
            self.bytes.set(i, v);
        }
        proof {
            assert(self.spec_bytes()
                =~= fill_spec(orig.spec_width(), orig.spec_height(), color));
        }
    }

    /// Overwrites the single byte at `i`.
    pub(crate) fn set_byte(&mut self, i: usize, v: u8)
        requires
            old(self).wf(),
            i < old(self).spec_bytes().len(),
        ensures
            final(self).wf(),
            final(self).spec_width() == old(self).spec_width(),
            final(self).spec_height() == old(self).spec_height(),
            final(self).spec_bytes() == old(self).spec_bytes().update(i as int, v),
    {
        self.bytes.set(i, v);
    }

    /// Reads the color of the pixel at column `x`, row `y`.
    pub fn get_pixel(&self, x: usize, y: usize) -> (c: Rgba)
        requires
            self.wf(),
            x < self.spec_width(),
            y < self.spec_height(),
        ensures
            c == self.pixel_spec(x as int, y as int),
    {
        let n: usize = self.bytes.len();
        proof {
            assert((y as int) * (self.width as int) + x + 1 <= self.spec_width()
                * self.spec_height()) by (nonlinear_arith)
                requires x < self.spec_width(), y < self.spec_height();
            assert(4 * ((y as int) * (self.width as int) + x) + 4
                <= 4 * (self.spec_width() * self.spec_height())) by (nonlinear_arith)
                requires (y as int) * (self.width as int) + x + 1
                    <= self.spec_width() * self.spec_height();
            assert(self.spec_width() * self.spec_height() * 4
                == 4 * (self.spec_width() * self.spec_height())) by (nonlinear_arith);
        }
        let idx: usize = 4 * (y * self.width + x);
        Rgba {
            r: self.bytes[idx],
            g: self.bytes[idx + 1],
            b: self.bytes[idx + 2],
            a: self.bytes[idx + 3],
        }
    }

    /// The number of bytes in the frame's buffer.
    pub fn byte_len(&self) -> (n: usize)
        ensures
            n == self.spec_bytes().len(),
    {
        self.bytes.len()
    }

    /// The frame's width in pixels.
    pub fn width(&self) -> (w: usize)
        ensures
            w == self.spec_width(),
    {
        self.width
    }

    /// The frame's height in pixels.
    pub fn height(&self) -> (h: usize)
        ensures
            h == self.spec_height(),
    {
        self.height
    }
}

} // verus!
