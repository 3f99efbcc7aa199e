//! The glyph table: a fixed mapping from character to an 8x8 monochrome
//! bitmap, 64 binary values in row-major order (index = x + y*8).

use vstd::prelude::*;

verus! {

/// Whether the table has a bitmap for `c`.
pub open spec fn has_glyph(c: char) -> bool {
    c == 'H' || c == 'e' || c == 'l' || c == 'o' || c == 'W' || c == 'r' || c == 'd' || c == '!'
}

/// The eight rows of the bitmap for `c`, one byte per row; bit `x` of a
/// row byte (least significant bit first) is the pixel in column `x`.
pub open spec fn glyph_rows(c: char) -> Seq<u8> {
    if c == 'H' {
        seq![0x66u8, 0x66, 0x66, 0x7e, 0x66, 0x66, 0x66, 0x00]
    } else if c == 'e' {
        seq![0x00u8, 0x00, 0x3c, 0x66, 0x7e, 0x06, 0x3c, 0x00]
    } else if c == 'l' {
        seq![0x1cu8, 0x18, 0x18, 0x18, 0x18, 0x18, 0x3c, 0x00]
    } else if c == 'o' {
        seq![0x00u8, 0x00, 0x3c, 0x66, 0x66, 0x66, 0x3c, 0x00]
    } else if c == 'W' {
        seq![0x63u8, 0x63, 0x63, 0x6b, 0x7f, 0x77, 0x63, 0x00]
    } else if c == 'r' {
        seq![0x00u8, 0x00, 0x1b, 0x36, 0x06, 0x06, 0x0f, 0x00]
    } else if c == 'd' {
        seq![0x38u8, 0x30, 0x3e, 0x33, 0x33, 0x33, 0x6e, 0x00]
    } else if c == '!' {
        seq![0x18u8, 0x18, 0x18, 0x18, 0x18, 0x00, 0x18, 0x00]
    } else {
        Seq::empty()
    }
}

/// The pixel in column `x` of a row byte: 0 or 1.
pub open spec fn row_bit(row: u8, x: int) -> u8 {
    (row >> (x as u8)) & 1
}

/// The flat 64-entry bitmap of the glyph for `c`, row-major.
pub open spec fn glyph_seq(c: char) -> Seq<u8> {
    Seq::new(64, |k: int| row_bit(glyph_rows(c)[k / 8], k % 8))
}

/// Every entry of a supported character's bitmap is 0 or 1, and there
/// are exactly 64 of them.
pub proof fn lemma_glyph_entries(c: char)
    requires
        has_glyph(c),
    ensures
        glyph_seq(c).len() == 64,
        forall|k: int| 0 <= k < 64 ==> glyph_seq(c)[k] == 0 || glyph_seq(c)[k] == 1,
{
    assert forall|k: int| 0 <= k < 64 implies glyph_seq(c)[k] == 0 || glyph_seq(c)[k] == 1 by {
        let row = glyph_rows(c)[k / 8];
        let x = (k % 8) as u8;
        assert((row >> x) & 1 == 0 || (row >> x) & 1 == 1) by (bit_vector);
    }
}

/// One 8x8 monochrome bitmap: 64 binary values, row-major.
pub struct Glyph {
    bits: Vec<u8>,
}

impl Glyph {
    /// The bitmap as a sequence of 64 binary values.
    pub closed spec fn bitmap(self) -> Seq<u8> {
        self.bits@
    }

    /// Well-formed: exactly 64 entries.
    pub open spec fn wf(self) -> bool {
        self.bitmap().len() == 64
    }

    /// The number of entries in the bitmap.
    pub fn len(&self) -> (n: usize)
        ensures
            n == self.bitmap().len(),
    {
        self.bits.len()
    }

    /// The binary value at column `x`, row `y`.
    pub fn bit(&self, x: usize, y: usize) -> (b: u8)
        requires
            self.wf(),
            x < 8,
            y < 8,
        ensures
            b == self.bitmap()[x + 8 * y],
    {
        self.bits[x + 8 * y]
    }
}

/// The row byte of the glyph for `c` at row `y`.
fn glyph_row(c: char, y: usize) -> (r: u8)
    requires
        has_glyph(c),
        y < 8,
    ensures
        r == glyph_rows(c)[y as int],
{
    let rows: [u8; 8] = if c == 'H' {
        [0x66, 0x66, 0x66, 0x7e, 0x66, 0x66, 0x66, 0x00]
    } else if c == 'e' {
        [0x00, 0x00, 0x3c, 0x66, 0x7e, 0x06, 0x3c, 0x00]
    } else if c == 'l' {
        [0x1c, 0x18, 0x18, 0x18, 0x18, 0x18, 0x3c, 0x00]
    } else if c == 'o' {
        [0x00, 0x00, 0x3c, 0x66, 0x66, 0x66, 0x3c, 0x00]
    } else if c == 'W' {
        [0x63, 0x63, 0x63, 0x6b, 0x7f, 0x77, 0x63, 0x00]
    } else if c == 'r' {
        [0x00, 0x00, 0x1b, 0x36, 0x06, 0x06, 0x0f, 0x00]
    } else if c == 'd' {
        [0x38, 0x30, 0x3e, 0x33, 0x33, 0x33, 0x6e, 0x00]
    } else {
        [0x18, 0x18, 0x18, 0x18, 0x18, 0x00, 0x18, 0x00]
    };
    rows[y]
}

/// Looks up the bitmap for `c`: the fixed glyph for a supported
/// character, nothing for any other character.
pub fn lookup(c: char) -> (r: Option<Glyph>)
    ensures
        r is Some <==> has_glyph(c),
        r matches Some(g) ==> g.wf() && g.bitmap() == glyph_seq(c),
{
    match c {
        'H' | 'e' | 'l' | 'o' | 'W' | 'r' | 'd' | '!' => {
            let mut bits: Vec<u8> = Vec::new();
            for y in 0..8usize
                invariant
                    has_glyph(c),
                    bits@.len() == 8 * y,
                    forall|k: int| 0 <= k < 8 * y ==> bits@[k] == glyph_seq(c)[k],
            {
                let row = glyph_row(c, y);
                for x in 0..8usize
                    invariant
                        has_glyph(c),
                        y < 8,
                        row == glyph_rows(c)[y as int],
                        bits@.len() == 8 * y + x,
                        forall|k: int| 0 <= k < 8 * y + x ==> bits@[k] == glyph_seq(c)[k],
                {
                    let b = (row >> (x as u8)) & 1;
                    proof {
                        let k = 8 * (y as int) + (x as int);
                        vstd::arithmetic::div_mod::lemma_fundamental_div_mod_converse(
                            k, 8, y as int, x as int);
                        assert(glyph_seq(c)[k] == row_bit(glyph_rows(c)[y as int], x as int));
                    }
                    bits.push(b);
                }
            }
            let g = Glyph { bits };
            proof {
                assert(g.bitmap() =~= glyph_seq(c));
            }
            Some(g)
        }
        _ => None,
    }
}

} // verus!
