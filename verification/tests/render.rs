use glyphblit::blit::{ClipPolicy, DrawRequest};
use glyphblit::color::Rgba;
use glyphblit::frame::{Frame, FrameError};
use glyphblit::glyph::lookup;

fn assert_frames_equal(a: &Frame, b: &Frame) {
    assert_eq!(a.width(), b.width());
    assert_eq!(a.height(), b.height());
    for y in 0..a.height() {
        for x in 0..a.width() {
            assert_eq!(a.get_pixel(x, y), b.get_pixel(x, y));
        }
    }
}

#[test]
fn fill_sets_every_pixel() {
    let c = Rgba::new(10, 20, 30, 40);
    let mut f = Frame::new(3, 2, c).unwrap();
    for y in 0..2 {
        for x in 0..3 {
            assert_eq!(f.get_pixel(x, y), c);
        }
    }
    let c2 = Rgba::new(200, 100, 50, 255);
    f.fill(c2);
    for y in 0..2 {
        for x in 0..3 {
            assert_eq!(f.get_pixel(x, y), c2);
        }
    }
}

#[test]
fn draw_empty_text_leaves_frame_unchanged() {
    let bg = Rgba::new(0, 0, 255, 255);
    let fg = Rgba::new(255, 255, 0, 255);
    let mut f = Frame::new(16, 8, bg).unwrap();
    let r = f.draw_text(0, 0, "", fg, ClipPolicy::Reject);
    assert!(r.is_ok());
    let r = f.draw_text(3, 2, "", fg, ClipPolicy::Clip);
    assert!(r.is_ok());
    for y in 0..8 {
        for x in 0..16 {
            assert_eq!(f.get_pixel(x, y), bg);
        }
    }
}

#[test]
fn single_glyph_at_origin_writes_exactly_its_ink_bits() {
    let bg = Rgba::new(1, 2, 3, 4);
    let fg = Rgba::new(250, 240, 230, 220);
    let mut f = Frame::new(8, 8, bg).unwrap();
    let r = f.draw_text(0, 0, "H", fg, ClipPolicy::Reject);
    assert!(r.is_ok());
    let g = lookup('H').unwrap();
    for y in 0..8 {
        for x in 0..8 {
            if g.bit(x, y) == 1 {
                assert_eq!(f.get_pixel(x, y), fg);
            } else {
                assert_eq!(f.get_pixel(x, y), bg);
            }
        }
    }
}

#[test]
fn drawing_twice_equals_drawing_once() {
    let bg = Rgba::new(9, 9, 9, 9);
    let fg = Rgba::new(0, 255, 0, 255);
    let mut once = Frame::new(32, 16, bg).unwrap();
    let mut twice = Frame::new(32, 16, bg).unwrap();
    assert!(once.draw_text(4, 3, "Ho", fg, ClipPolicy::Reject).is_ok());
    assert!(twice.draw_text(4, 3, "Ho", fg, ClipPolicy::Reject).is_ok());
    assert!(twice.draw_text(4, 3, "Ho", fg, ClipPolicy::Reject).is_ok());
    assert_frames_equal(&once, &twice);
}

#[test]
fn reject_refuses_text_past_the_right_edge() {
    let bg = Rgba::new(0, 0, 0, 255);
    let fg = Rgba::new(255, 0, 0, 255);
    let mut f = Frame::new(16, 8, bg).unwrap();
    let r = f.draw_text(0, 0, "Hel", fg, ClipPolicy::Reject);
    assert_eq!(r, Err(FrameError::OutOfBounds));
    for y in 0..8 {
        for x in 0..16 {
            assert_eq!(f.get_pixel(x, y), bg);
        }
    }
}

#[test]
fn reject_refuses_text_past_the_bottom_edge() {
    let bg = Rgba::new(0, 0, 0, 255);
    let fg = Rgba::new(255, 0, 0, 255);
    let mut f = Frame::new(16, 8, bg).unwrap();
    let r = f.draw_text(0, 1, "H", fg, ClipPolicy::Reject);
    assert_eq!(r, Err(FrameError::OutOfBounds));
    for y in 0..8 {
        for x in 0..16 {
            assert_eq!(f.get_pixel(x, y), bg);
        }
    }
}

#[test]
fn clip_draws_only_what_fits_horizontally() {
    let bg = Rgba::new(0, 0, 40, 255);
    let fg = Rgba::new(255, 255, 255, 255);
    let mut clipped = Frame::new(16, 8, bg).unwrap();
    let r = clipped.draw_text(0, 0, "Hel", fg, ClipPolicy::Clip);
    assert!(r.is_ok());
    let mut reference = Frame::new(16, 8, bg).unwrap();
    assert!(reference.draw_text(0, 0, "He", fg, ClipPolicy::Reject).is_ok());
    assert_frames_equal(&clipped, &reference);
}

#[test]
fn clip_drops_rows_past_the_bottom_edge() {
    let bg = Rgba::new(70, 70, 70, 255);
    let fg = Rgba::new(0, 0, 0, 255);
    let mut f = Frame::new(8, 4, bg).unwrap();
    let r = f.draw_text(0, 0, "H", fg, ClipPolicy::Clip);
    assert!(r.is_ok());
    let g = lookup('H').unwrap();
    for y in 0..4 {
        for x in 0..8 {
            if g.bit(x, y) == 1 {
                assert_eq!(f.get_pixel(x, y), fg);
            } else {
                assert_eq!(f.get_pixel(x, y), bg);
            }
        }
    }
}

#[test]
fn character_without_glyph_leaves_a_blank_cell() {
    let bg = Rgba::new(8, 8, 8, 8);
    let fg = Rgba::new(100, 100, 100, 100);
    let mut f = Frame::new(24, 8, bg).unwrap();
    let r = f.draw_text(0, 0, "HzH", fg, ClipPolicy::Reject);
    assert!(r.is_ok());
    let g = lookup('H').unwrap();
    for y in 0..8 {
        for x in 0..8 {
            // the middle cell stays background
            assert_eq!(f.get_pixel(8 + x, y), bg);
            let want = if g.bit(x, y) == 1 { fg } else { bg };
            assert_eq!(f.get_pixel(x, y), want);
            assert_eq!(f.get_pixel(16 + x, y), want);
        }
    }
}

#[test]
fn hi_on_prefilled_buffer() {
    let bg = Rgba::new(0, 0, 255, 255);
    let fg = Rgba::new(255, 255, 0, 255);
    let mut f = Frame::new(96, 8, bg).unwrap();
    let r = f.draw_text(0, 0, "Hi", fg, ClipPolicy::Reject);
    assert!(r.is_ok());
    // 'H' has no ink at (0, 0), so the fill color shows through.
    assert_eq!(f.get_pixel(0, 0), bg);
    // pixel (2, 0) is the foreground color exactly when the 'H'
    // bitmap has a 1 at (2, 0) -- which it does.
    let g = lookup('H').unwrap();
    assert_eq!(g.bit(2, 0), 1);
    assert_eq!(f.get_pixel(2, 0), fg);
}

#[test]
fn hello_world_spot_checks() {
    let bg = Rgba::new(0, 0, 255, 255);
    let fg = Rgba::new(255, 255, 0, 255);
    let mut f = Frame::new(112, 24, bg).unwrap();
    let r = f.draw_text(8, 8, "Hello World!", fg, ClipPolicy::Reject);
    assert!(r.is_ok());
    // the space cell (6th character, columns 48..56 after the origin)
    // stays background
    for y in 0..8 {
        for x in 0..8 {
            assert_eq!(f.get_pixel(8 + 40 + x, 8 + y), bg);
        }
    }
    // the 'W' cell shows the 'W' glyph
    let w = lookup('W').unwrap();
    for y in 0..8 {
        for x in 0..8 {
            let want = if w.bit(x, y) == 1 { fg } else { bg };
            assert_eq!(f.get_pixel(8 + 48 + x, 8 + y), want);
        }
    }
    // nothing outside the text's rows was touched
    for x in 0..112 {
        assert_eq!(f.get_pixel(x, 0), bg);
        assert_eq!(f.get_pixel(x, 23), bg);
    }
}

#[test]
fn from_bytes_checks_the_size() {
    let bytes = vec![0u8; 16];
    let r = Frame::from_bytes(bytes, 2, 2);
    let f = r.unwrap();
    assert_eq!(f.width(), 2);
    assert_eq!(f.height(), 2);
    assert_eq!(f.get_pixel(0, 0), Rgba::new(0, 0, 0, 0));

    let bytes = vec![0u8; 15];
    assert_eq!(Frame::from_bytes(bytes, 2, 2).err(), Some(FrameError::SizeMismatch));
    let bytes = vec![0u8; 4];
    assert_eq!(Frame::from_bytes(bytes, 0, 3).err(), Some(FrameError::SizeMismatch));
}

#[test]
fn new_rejects_a_buffer_that_cannot_fit_in_memory() {
    let c = Rgba::new(0, 0, 0, 0);
    assert!(Frame::new(usize::MAX, 2, c).is_none());
    assert!(Frame::new(2, usize::MAX, c).is_none());
}

#[test]
fn draw_request_draws_at_its_position() {
    let bg = Rgba::new(0, 0, 255, 255);
    let fg = Rgba::new(255, 255, 0, 255);
    let req = DrawRequest::new(8, 8, fg);
    assert_eq!(req.width, 8);
    assert_eq!(req.height, 8);
    let mut via_request = Frame::new(32, 24, bg).unwrap();
    assert!(req.draw(&mut via_request, "H!", ClipPolicy::Reject).is_ok());
    let mut direct = Frame::new(32, 24, bg).unwrap();
    assert!(direct.draw_text(8, 8, "H!", fg, ClipPolicy::Reject).is_ok());
    assert_frames_equal(&via_request, &direct);
}
