use omega::animation::{animation_frames, frame_at, scaled_ms, Animation, Rect};
use omega::text::{sw_render_text_to_buffer, text_char_size, GlyphBitmap};
use omega::window::{WindowConfig, WindowStyle};

fn glyph(width: u32, rows: u32, top: i32, advance_x: i64, fill: u8) -> GlyphBitmap {
    GlyphBitmap {
        width,
        rows,
        top,
        advance_x,
        advance_y: 0,
        buffer: vec![fill; (width * rows) as usize],
    }
}

#[test]
fn overlapping_glyphs_add_up_and_saturate() {
    let glyphs = vec![glyph(2, 2, 2, 64, 200), glyph(2, 2, 2, 64, 200)];
    let b = sw_render_text_to_buffer(&glyphs).unwrap();
    assert_eq!((b.width, b.height), (3, 2));
    assert_eq!(b.data, vec![200, 255, 200, 200, 255, 200]);
    assert_eq!(b.data.len(), b.width * b.height);
}

#[test]
fn only_covered_rows_are_kept_in_order() {
    let glyphs = vec![glyph(2, 1, 1, 2 * 64, 10), glyph(1, 1, 4, 64, 30), glyph(1, 1, 0, 64, 50)];
    let b = sw_render_text_to_buffer(&glyphs).unwrap();
    // rows at -4 (second glyph), -1 (first), 0 (third)
    assert_eq!(b.height, 3);
    assert_eq!(b.width, 4);
    assert_eq!(b.data, vec![0, 0, 30, 0, 10, 10, 0, 0, 0, 0, 0, 50]);
}

#[test]
fn glyph_pixels_keep_their_place_inside_the_glyph() {
    let g = GlyphBitmap { width: 2, rows: 2, top: 0, advance_x: 0, advance_y: 0, buffer: vec![1, 2, 3, 4] };
    let b = sw_render_text_to_buffer(&vec![g]).unwrap();
    assert_eq!((b.width, b.height), (2, 2));
    assert_eq!(b.data, vec![1, 2, 3, 4]);
}

#[test]
fn advances_round_toward_zero() {
    let glyphs = vec![glyph(0, 0, 0, 130, 0), glyph(1, 1, 0, 0, 9)];
    let b = sw_render_text_to_buffer(&glyphs).unwrap();
    assert_eq!(b.data, vec![0, 0, 9]);
    let back = vec![glyph(0, 0, 0, -130, 0), glyph(1, 1, 0, 0, 9)];
    assert!(sw_render_text_to_buffer(&back).is_none());
}

#[test]
fn empty_text_gives_empty_image() {
    let b = sw_render_text_to_buffer(&Vec::new()).unwrap();
    assert_eq!((b.width, b.height), (0, 0));
    assert!(b.data.is_empty());
}

#[test]
fn short_glyph_buffer_is_refused() {
    let g = GlyphBitmap { width: 3, rows: 3, top: 0, advance_x: 0, advance_y: 0, buffer: vec![1; 4] };
    assert!(sw_render_text_to_buffer(&vec![g]).is_none());
}

#[test]
fn sprite_sheet_cut_into_frames() {
    let frames = animation_frames(100, 50, 32, 16);
    assert_eq!(frames.len(), 9);
    assert_eq!(frames[0], Rect { x: 0, y: 0, w: 32, h: 16 });
    assert_eq!(frames[4], Rect { x: 32, y: 16, w: 32, h: 16 });
    assert_eq!(frames[8], Rect { x: 64, y: 32, w: 32, h: 16 });
    assert_eq!(animation_frames(64, 64, 32, 32).len(), 1);
    assert!(animation_frames(64, 64, 0, 32).is_empty());
    assert!(animation_frames(10, 10, 32, 32).is_empty());
}

#[test]
fn frame_follows_the_clock() {
    assert_eq!(frame_at(2500, (2, 5)), 4);
    assert_eq!(frame_at(3999, (2, 5)), 2);
    assert_eq!(frame_at(123456, (3, 3)), 3);
    assert_eq!(frame_at(0, (0, 4)), 0);
}

#[test]
fn animation_switches_ranges() {
    let mut a = Animation::new(animation_frames(100, 50, 32, 16));
    assert_eq!(a.frame_range, (0, 9));
    a.add_animation("walk", (3, 6));
    a.set_animation("run");
    assert_eq!(a.frame_range, (0, 9));
    a.set_animation("walk");
    assert_eq!(a.frame_range, (3, 6));
    assert_eq!(a.frame, 0);
    let r = a.advance(1500).unwrap();
    assert_eq!(a.frame, 4);
    assert_eq!(r, Rect { x: 32, y: 16, w: 32, h: 16 });
    a.advance(u64::MAX);
    assert_eq!(a.timer_ms, u64::MAX);
}

#[test]
fn window_size_falls_back_to_desktop() {
    let mut c = WindowConfig::default();
    assert_eq!(c.style, WindowStyle::FullscreenBorderless);
    assert_eq!(c.window_size((2560, 1440)), (2560, 1440));
    c.width = 1920;
    assert_eq!(c.window_size((2560, 1440)), (2560, 1440));
    c.height = 1080;
    assert_eq!(c.window_size((2560, 1440)), (1920, 1080));
}

#[test]
fn animation_clock_runs_at_its_rate() {
    assert_eq!(scaled_ms(1_500_000, 1000), 1500);
    assert_eq!(scaled_ms(1_500_000, 2500), 3750);
    assert_eq!(scaled_ms(999, 1000), 0);
    assert_eq!(scaled_ms(u64::MAX, u32::MAX), u64::MAX);
    let mut a = Animation::new(animation_frames(100, 50, 32, 16));
    assert_eq!(a.rate_permille, 1000);
    a.rate_permille = 2000;
    let r = a.advance_for(1_000_000).unwrap();
    assert_eq!(a.timer_ms, 2000);
    assert_eq!(a.frame, 2);
    assert_eq!(r, Rect { x: 64, y: 0, w: 32, h: 16 });
}

#[test]
fn text_char_size_is_eighty_per_pixel() {
    assert_eq!(text_char_size(36), Some(2880));
    assert_eq!(text_char_size(0), Some(0));
    assert_eq!(text_char_size(isize::MAX), None);
}
