use fos_microkernel::colors::{parse_color, white};
use fos_microkernel::framebuffer::Color;
use fos_microkernel::glyphs::glyph_bits;
use fos_microkernel::graphics::GraphicsManager;
use fos_microkernel::mailbox::MailboxError;
use fos_microkernel::negotiate::{DisplayProfile, PixelOrder};

fn profile(width: u32, height: u32) -> DisplayProfile {
    DisplayProfile {
        width,
        height,
        depth: 32,
        alignment: 16,
        order: PixelOrder::Rgba,
        fallback_address: 0x4000_0000,
        fallback_pitch: width * 4,
        fallback_bytes_per_pixel: 4,
    }
}

/// A manager on the fallback surface, without any hardware exchange.
fn manager(width: u32, height: u32) -> GraphicsManager {
    GraphicsManager::new(&profile(width, height), Err(MailboxError::FirmwareError), &Vec::new())
}

fn pixel_bytes(g: &GraphicsManager, x: u32, y: u32) -> Vec<u8> {
    let fb = &g.framebuffer;
    let off = (y * fb.pitch + x * fb.bytes_per_pixel) as usize;
    fb.pixels[off..off + fb.bytes_per_pixel as usize].to_vec()
}

#[test]
fn new_manager_starts_black_with_home_cursor() {
    let g = manager(64, 96);
    assert_eq!(g.cursor_x, 10);
    assert_eq!(g.cursor_y, 30);
    assert_eq!(g.current_color, white());
    assert_eq!(g.line_height, 25);
    assert_eq!(pixel_bytes(&g, 0, 0), vec![0, 0, 0, 255]);
    assert_eq!(pixel_bytes(&g, 63, 95), vec![0, 0, 0, 255]);
}

#[test]
fn cursor_row_stays_between_the_margins() {
    let mut g = manager(800, 600);
    let lines: Vec<&[u8]> = vec![b"one", b"", b"a much longer line of text", b"x"];
    for i in 0..60 {
        g.draw_text(lines[i % lines.len()]);
        assert!(g.cursor_y >= 30, "cursor above the top margin after line {}", i);
        assert!(g.cursor_y <= 600 - 50, "cursor past the bottom margin after line {}", i);
        assert_eq!(g.cursor_x, 10);
    }
}

#[test]
fn passing_the_bottom_margin_scrolls_destructively() {
    let mut g = manager(800, 600);
    g.set_color(Color { r: 200, g: 0, b: 0 });
    // 30 + 20 * 25 = 530 stays put; one more passes 550 and scrolls.
    for _ in 0..20 {
        g.new_line();
    }
    assert_eq!(g.cursor_y, 530);
    g.draw_text(b"filler");
    assert_eq!(g.cursor_y, 30);
    assert_eq!(g.cursor_x, 10);
    // Destructive: the screen is black again.
    assert_eq!(pixel_bytes(&g, 11, 531), vec![0, 0, 0, 255]);
}

#[test]
fn glyphs_paint_foreground_pixels_only() {
    let mut g = manager(64, 96);
    g.draw_text_at(b"A", 0, 0);
    let bits = glyph_bits(65);
    for row in 0..8u32 {
        for col in 0..8u32 {
            let set = (bits >> (63 - 8 * row - col)) & 1 == 1;
            let expected = if set {
                vec![255, 255, 255, 255]
            } else {
                vec![0, 0, 0, 255]
            };
            assert_eq!(pixel_bytes(&g, col, row), expected, "at ({}, {})", col, row);
        }
    }
    // Nothing outside the glyph cell was touched.
    assert_eq!(pixel_bytes(&g, 8, 0), vec![0, 0, 0, 255]);
    assert_eq!(pixel_bytes(&g, 0, 8), vec![0, 0, 0, 255]);
}

#[test]
fn text_lays_glyph_cells_left_to_right() {
    let mut g = manager(64, 96);
    g.draw_text_at(b"!!", 0, 0);
    // Both cells show the same glyph.
    for row in 0..8 {
        for col in 0..8 {
            assert_eq!(
                pixel_bytes(&g, col, row),
                pixel_bytes(&g, col + 8, row),
                "cells differ at ({}, {})",
                col,
                row
            );
        }
    }
}

#[test]
fn non_ascii_bytes_render_as_the_blank_space_glyph() {
    let mut g = manager(64, 96);
    g.draw_text_at(&[200, 31, 32], 0, 0);
    for row in 0..8 {
        for col in 0..24 {
            assert_eq!(pixel_bytes(&g, col, row), vec![0, 0, 0, 255]);
        }
    }
}

#[test]
fn glyph_table_is_complete_and_distinct() {
    assert_eq!(glyph_bits(32), 0);
    let mut seen: Vec<u64> = Vec::new();
    for code in 33..=127u8 {
        let bits = glyph_bits(code);
        assert_ne!(bits, 0, "code {} shares the space bitmap", code);
        assert!(!seen.contains(&bits), "duplicate bitmap for code {}", code);
        seen.push(bits);
    }
    for code in [0u8, 1, 10, 31, 128, 200, 255] {
        assert_eq!(glyph_bits(code), glyph_bits(32), "code {} is not blank", code);
    }
}

#[test]
fn clipped_text_does_not_corrupt_neighbours() {
    let mut g = manager(16, 96);
    let before_row_9 = pixel_bytes(&g, 0, 9);
    g.draw_text_at(b"wide text overflowing", 4, 1);
    // The rows below the glyph band are untouched.
    assert_eq!(pixel_bytes(&g, 0, 9), before_row_9);
    // Columns left of the start are untouched.
    for row in 0..9 {
        assert_eq!(pixel_bytes(&g, 0, row), vec![0, 0, 0, 255]);
    }
}

#[test]
fn filled_rect_paints_every_covered_pixel() {
    let mut g = manager(16, 96);
    g.set_color(Color { r: 9, g: 8, b: 7 });
    g.draw_rect(1, 2, 3, 2, true);
    for y in 2..4 {
        for x in 1..4 {
            assert_eq!(pixel_bytes(&g, x, y), vec![9, 8, 7, 255]);
        }
    }
    assert_eq!(pixel_bytes(&g, 0, 2), vec![0, 0, 0, 255]);
    assert_eq!(pixel_bytes(&g, 4, 2), vec![0, 0, 0, 255]);
    assert_eq!(pixel_bytes(&g, 1, 4), vec![0, 0, 0, 255]);
}

#[test]
fn outline_rect_leaves_the_interior_untouched() {
    let mut g = manager(16, 96);
    g.set_color(Color { r: 1, g: 1, b: 1 });
    g.draw_rect(0, 0, 8, 8, false);
    // Two-pixel border painted.
    assert_eq!(pixel_bytes(&g, 0, 0), vec![1, 1, 1, 255]);
    assert_eq!(pixel_bytes(&g, 1, 4), vec![1, 1, 1, 255]);
    assert_eq!(pixel_bytes(&g, 7, 7), vec![1, 1, 1, 255]);
    assert_eq!(pixel_bytes(&g, 4, 6), vec![1, 1, 1, 255]);
    // Interior untouched.
    assert_eq!(pixel_bytes(&g, 3, 3), vec![0, 0, 0, 255]);
    assert_eq!(pixel_bytes(&g, 4, 4), vec![0, 0, 0, 255]);
}

#[test]
fn rects_clip_against_the_surface() {
    let mut g = manager(8, 96);
    g.set_color(Color { r: 5, g: 5, b: 5 });
    g.draw_rect(-2, -2, 6, 6, true);
    assert_eq!(pixel_bytes(&g, 0, 0), vec![5, 5, 5, 255]);
    assert_eq!(pixel_bytes(&g, 3, 3), vec![5, 5, 5, 255]);
    assert_eq!(pixel_bytes(&g, 4, 4), vec![0, 0, 0, 255]);
}

#[test]
fn clear_screen_blackens_and_homes_the_cursor() {
    let mut g = manager(16, 96);
    g.set_color(Color { r: 3, g: 4, b: 5 });
    g.draw_rect(0, 0, 16, 16, true);
    g.new_line();
    g.clear_screen();
    assert_eq!(g.cursor_x, 10);
    assert_eq!(g.cursor_y, 30);
    assert_eq!(g.current_color, Color { r: 3, g: 4, b: 5 });
    assert_eq!(pixel_bytes(&g, 5, 5), vec![0, 0, 0, 255]);
}

#[test]
fn new_line_advances_without_drawing() {
    let mut g = manager(800, 600);
    let before = g.framebuffer.pixels.clone();
    g.new_line();
    assert_eq!(g.cursor_y, 55);
    assert_eq!(g.cursor_x, 10);
    assert_eq!(g.framebuffer.pixels, before);
}

#[test]
fn splash_screen_leaves_the_cursor_at_the_content_area() {
    let mut g = manager(800, 600);
    g.show_splash_screen();
    assert_eq!(g.cursor_x, 10);
    assert_eq!(g.cursor_y, 420);
    assert_eq!(g.current_color, white());
    // The decorative border is there.
    assert_eq!(pixel_bytes(&g, 50, 50), vec![128, 0, 128, 255]);
}

#[test]
fn named_colors_parse_and_unknown_names_default_to_white() {
    assert_eq!(parse_color(b"black"), Color { r: 0, g: 0, b: 0 });
    assert_eq!(parse_color(b"red"), Color { r: 255, g: 0, b: 0 });
    assert_eq!(parse_color(b"green"), Color { r: 0, g: 255, b: 0 });
    assert_eq!(parse_color(b"blue"), Color { r: 0, g: 100, b: 255 });
    assert_eq!(parse_color(b"yellow"), Color { r: 255, g: 255, b: 0 });
    assert_eq!(parse_color(b"purple"), Color { r: 128, g: 0, b: 128 });
    assert_eq!(parse_color(b"orange"), Color { r: 255, g: 165, b: 0 });
    assert_eq!(parse_color(b"cyan"), Color { r: 0, g: 255, b: 255 });
    assert_eq!(parse_color(b"white"), Color { r: 255, g: 255, b: 255 });
    assert_eq!(parse_color(b"magenta"), Color { r: 255, g: 255, b: 255 });
    assert_eq!(parse_color(b""), Color { r: 255, g: 255, b: 255 });
}
