use fos_microkernel::framebuffer::{pack_rgb565, Color, FrameBuffer};
use fos_microkernel::negotiate::{DisplayConfig, PixelOrder};

fn small_config(width: u32, height: u32, bytes_per_pixel: u32, pitch: u32, order: PixelOrder)
    -> DisplayConfig {
    DisplayConfig { address: 0x1000, pitch, width, height, bytes_per_pixel, order }
}

fn pixel_bytes(fb: &FrameBuffer, x: u32, y: u32) -> Vec<u8> {
    let off = (y * fb.pitch + x * fb.bytes_per_pixel) as usize;
    fb.pixels[off..off + fb.bytes_per_pixel as usize].to_vec()
}

#[test]
fn packed_16bit_values_for_primary_colors() {
    assert_eq!(pack_rgb565(Color { r: 255, g: 0, b: 0 }), 0xF800);
    assert_eq!(pack_rgb565(Color { r: 0, g: 255, b: 0 }), 0x07E0);
    assert_eq!(pack_rgb565(Color { r: 0, g: 0, b: 255 }), 0x001F);
    assert_eq!(pack_rgb565(Color { r: 255, g: 255, b: 255 }), 0xFFFF);
    assert_eq!(pack_rgb565(Color { r: 0, g: 0, b: 0 }), 0x0000);
}

#[test]
fn write_pixel_stores_16bit_low_byte_first() {
    let mut fb = FrameBuffer::new(small_config(4, 3, 2, 8, PixelOrder::Bgra));
    fb.write_pixel(1, 2, Color { r: 255, g: 0, b: 0 });
    assert_eq!(pixel_bytes(&fb, 1, 2), vec![0x00, 0xF8]);
}

#[test]
fn write_pixel_stores_bgra_and_rgba_orders() {
    let mut fb = FrameBuffer::new(small_config(4, 3, 4, 16, PixelOrder::Bgra));
    fb.write_pixel(2, 1, Color { r: 10, g: 20, b: 30 });
    assert_eq!(pixel_bytes(&fb, 2, 1), vec![30, 20, 10, 255]);

    let mut fb2 = FrameBuffer::new(small_config(4, 3, 4, 16, PixelOrder::Rgba));
    fb2.write_pixel(2, 1, Color { r: 10, g: 20, b: 30 });
    assert_eq!(pixel_bytes(&fb2, 2, 1), vec![10, 20, 30, 255]);
}

#[test]
fn out_of_range_writes_touch_no_memory() {
    let mut fb = FrameBuffer::new(small_config(4, 3, 4, 20, PixelOrder::Rgba));
    fb.clear(Color { r: 7, g: 8, b: 9 });
    let ink = Color { r: 255, g: 255, b: 255 };
    let before = fb.pixels.clone();
    fb.write_pixel(4, 0, ink);
    fb.write_pixel(-1, 0, ink);
    fb.write_pixel(0, 3, ink);
    fb.write_pixel(0, -1, ink);
    fb.write_pixel(i32::MAX, i32::MAX, ink);
    fb.write_pixel(i32::MIN, i32::MIN, ink);
    assert_eq!(fb.pixels, before);
}

#[test]
fn clear_fills_every_pixel_and_spares_the_padding() {
    // Pitch leaves four padding bytes per row.
    let mut fb = FrameBuffer::new(small_config(3, 2, 4, 16, PixelOrder::Rgba));
    fb.clear(Color { r: 1, g: 2, b: 3 });
    for y in 0..2 {
        for x in 0..3 {
            assert_eq!(pixel_bytes(&fb, x, y), vec![1, 2, 3, 255]);
        }
        for pad in 12..16 {
            assert_eq!(fb.pixels[(y * 16 + pad) as usize], 0);
        }
    }
}

#[test]
fn clear_uses_the_pitch_not_the_width() {
    let mut fb = FrameBuffer::new(small_config(2, 2, 2, 10, PixelOrder::Bgra));
    fb.clear(Color { r: 255, g: 0, b: 0 });
    // Second row starts at the pitch, not at width * bytes_per_pixel.
    assert_eq!(fb.pixels[10], 0x00);
    assert_eq!(fb.pixels[11], 0xF8);
    assert_eq!(fb.pixels[4], 0);
}

#[test]
fn new_surface_is_zeroed_with_the_negotiated_shape() {
    let fb = FrameBuffer::new(small_config(5, 4, 2, 12, PixelOrder::Bgra));
    assert_eq!(fb.size(), (5, 4));
    assert_eq!(fb.pixels.len(), 48);
    assert!(fb.pixels.iter().all(|b| *b == 0));
}
