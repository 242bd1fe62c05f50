//! The framebuffer surface: an exclusively owned pixel memory region
//! addressed through its pitch.
//!
//! Every pixel write uses `row * pitch + column * bytes_per_pixel` as
//! its byte offset — never `width * bytes_per_pixel` — because the
//! pitch may include padding past the visible row.  Out-of-range
//! coordinates are silently absorbed: a draw beyond the surface never
//! faults and never touches a byte.

use vstd::prelude::*;
use crate::negotiate::{DisplayConfig, PixelOrder};

verus! {

/// A colour as plain 8-bit red, green and blue components.
#[derive(Clone, Copy, PartialEq, Eq, Structural, Debug)]
pub struct Color {
    pub r: u8,
    pub g: u8,
    pub b: u8,
}

impl Color {
    /// A colour from its components.
    pub fn new(r: u8, g: u8, b: u8) -> (c: Color)
        ensures
            c == (Color { r, g, b }),
    {
        Color { r, g, b }
    }
}

/// 5-6-5 packing of a colour for the 16-bit pixel format: the top five
/// bits of red, six of green and five of blue.
pub open spec fn spec_pack_rgb565(c: Color) -> u16 {
    (((c.r as u16) >> 3) << 11) | (((c.g as u16) >> 2) << 5) | ((c.b as u16) >> 3)
}

/// Packs a colour into the 16-bit format.
pub fn pack_rgb565(c: Color) -> (v: u16)
    ensures
        v == spec_pack_rgb565(c),
{
    (((c.r as u16) >> 3) << 11) | (((c.g as u16) >> 2) << 5) | ((c.b as u16) >> 3)
}

/// The bytes of one pixel of colour `c`, in memory order.
///
/// The 16-bit format stores the packed value low byte first; the
/// 32-bit format stores the components in the profile's order with an
/// alpha of 255.
pub open spec fn spec_pixel_bytes(bytes_per_pixel: u32, order: PixelOrder, c: Color) -> Seq<u8> {
    if bytes_per_pixel == 2 {
        seq![(spec_pack_rgb565(c) & 0xFF) as u8, (spec_pack_rgb565(c) >> 8) as u8]
    } else {
        match order {
            PixelOrder::Bgra => seq![c.b, c.g, c.r, 255u8],
            PixelOrder::Rgba => seq![c.r, c.g, c.b, 255u8],
        }
    }
}

/// The owned pixel memory region together with its addressing shape.
pub struct FrameBuffer {
    /// The raw pixel bytes; `height * pitch` of them.
    pub pixels: Vec<u8>,
    /// Width in pixels.
    pub width: u32,
    /// Height in pixels.
    pub height: u32,
    /// 2 for the packed 16-bit format, 4 for the 32-bit format.
    pub bytes_per_pixel: u32,
    /// Byte stride between row starts; at least `width * bytes_per_pixel`.
    pub pitch: u32,
    /// Component order of the 4-byte format.
    pub order: PixelOrder,
}

impl FrameBuffer {
    /// The addressing shape is consistent: a known pixel size, rows
    /// wide enough for every visible pixel, storage for every row, and
    /// dimensions within the signed coordinate range.
    pub open spec fn wf(self) -> bool {
        &&& (self.bytes_per_pixel == 2 || self.bytes_per_pixel == 4)
        &&& self.width * self.bytes_per_pixel <= self.pitch
        &&& self.pixels@.len() == self.height * self.pitch
        &&& self.width <= i32::MAX
        &&& self.height <= i32::MAX
    }

    /// Whether `(x, y)` is a visible pixel.
    pub open spec fn in_bounds(self, x: int, y: int) -> bool {
        0 <= x < self.width && 0 <= y < self.height
    }

    /// Byte offset of pixel `(x, y)`: the row-major formula over the
    /// pitch, not over the visible width.
    pub open spec fn spec_offset(self, x: int, y: int) -> int {
        y * self.pitch + x * self.bytes_per_pixel
    }

    /// Whether byte `i` belongs to the stored pixel `(x, y)`.
    pub open spec fn region_of(self, x: int, y: int, i: int) -> bool {
        self.spec_offset(x, y) <= i < self.spec_offset(x, y) + self.bytes_per_pixel
    }

    /// Whether `bytes` holds colour `c` at pixel `(x, y)` of a surface
    /// shaped like `self`.
    pub open spec fn has_pixel(self, bytes: Seq<u8>, x: int, y: int, c: Color) -> bool {
        forall|k: int|
            0 <= k < self.bytes_per_pixel ==> bytes[self.spec_offset(x, y) + k]
                == #[trigger] spec_pixel_bytes(self.bytes_per_pixel, self.order, c)[k]
    }

    /// The byte sequence after painting pixel `(x, y)` with `c`:
    /// the pixel's own bytes replaced, every other byte kept.
    pub open spec fn spec_painted(self, x: int, y: int, c: Color) -> Seq<u8> {
        Seq::new(
            self.pixels@.len(),
            |i: int|
                if self.region_of(x, y, i) {
                    spec_pixel_bytes(self.bytes_per_pixel, self.order, c)[i - self.spec_offset(
                        x,
                        y,
                    )]
                } else {
                    self.pixels@[i]
                },
        )
    }

    /// Whether byte `i` belongs to a visible pixel before `(x, y)` in
    /// row-major order: in an earlier row, or earlier within row `y`.
    pub open spec fn covered_before(self, x: int, y: int, i: int) -> bool {
        exists|px: int, py: int|
            self.in_bounds(px, py) && (py < y || (py == y && px < x)) && #[trigger] self.region_of(
                px,
                py,
                i,
            )
    }

    /// Whether byte `i` belongs to any visible pixel; the rest of the
    /// storage is row padding past the visible width.
    pub open spec fn is_pixel_byte(self, i: int) -> bool {
        exists|px: int, py: int| self.in_bounds(px, py) && #[trigger] self.region_of(px, py, i)
    }

    /// A visible pixel's bytes lie inside the stored region.
    pub proof fn lemma_offset_in_surface(self, x: int, y: int)
        requires
            self.wf(),
            self.in_bounds(x, y),
        ensures
            0 <= self.spec_offset(x, y),
            self.spec_offset(x, y) + self.bytes_per_pixel <= self.pixels@.len(),
    {
        assert(0 <= y * self.pitch + x * self.bytes_per_pixel && y * self.pitch + x
            * self.bytes_per_pixel + self.bytes_per_pixel <= self.height * self.pitch)
            by (nonlinear_arith)
            requires
                0 <= x < self.width,
                0 <= y < self.height,
                self.width * self.bytes_per_pixel <= self.pitch,
                0 < self.bytes_per_pixel,
        ;
    }

    /// Distinct visible pixels occupy disjoint byte regions.
    pub proof fn lemma_regions_disjoint(self, x1: int, y1: int, x2: int, y2: int)
        requires
            self.wf(),
            self.in_bounds(x1, y1),
            self.in_bounds(x2, y2),
            x1 != x2 || y1 != y2,
        ensures
            self.spec_offset(x1, y1) + self.bytes_per_pixel <= self.spec_offset(x2, y2)
                || self.spec_offset(x2, y2) + self.bytes_per_pixel <= self.spec_offset(x1, y1),
    {
        assert(y1 * self.pitch + x1 * self.bytes_per_pixel + self.bytes_per_pixel <= y2
            * self.pitch + x2 * self.bytes_per_pixel || y2 * self.pitch + x2
            * self.bytes_per_pixel + self.bytes_per_pixel <= y1 * self.pitch + x1
            * self.bytes_per_pixel) by (nonlinear_arith)
            requires
                0 <= x1 < self.width,
                0 <= y1 < self.height,
                0 <= x2 < self.width,
                0 <= y2 < self.height,
                x1 != x2 || y1 != y2,
                self.width * self.bytes_per_pixel <= self.pitch,
                0 < self.bytes_per_pixel,
        ;
    }

    /// A fresh surface for a negotiated configuration, zero-filled.
    pub fn new(config: DisplayConfig) -> (fb: FrameBuffer)
        requires
            config.renderable(),
        ensures
            fb.wf(),
            fb.width == config.width,
            fb.height == config.height,
            fb.bytes_per_pixel == config.bytes_per_pixel,
            fb.pitch == config.pitch,
            fb.order == config.order,
            forall|i: int| 0 <= i < fb.pixels@.len() ==> fb.pixels@[i] == 0u8,
    {
        proof {
            assert((config.height as int) * (config.pitch as int) <= usize::MAX as int);
        }
        let n: usize = (config.height as u64 * config.pitch as u64) as usize;
        let mut pixels: Vec<u8> = Vec::new();
        while pixels.len() < n
            invariant
                pixels@.len() <= n,
                forall|i: int| 0 <= i < pixels@.len() ==> pixels@[i] == 0u8,
            decreases n - pixels@.len(),
        {
            pixels.push(0);
        }
        FrameBuffer {
            pixels,
            width: config.width,
            height: config.height,
            bytes_per_pixel: config.bytes_per_pixel,
            pitch: config.pitch,
            order: config.order,
        }
    }

    /// The surface dimensions in pixels.
    pub fn size(&self) -> (r: (u32, u32))
        ensures
            r == (self.width, self.height),
    {
        (self.width, self.height)
    }

    /// Paints one pixel, or does nothing at all when `(x, y)` lies
    /// outside the surface: an out-of-range draw is not an error and
    /// corrupts no adjacent memory.
    pub fn write_pixel(&mut self, x: i32, y: i32, color: Color)
        requires
            old(self).wf(),
        ensures
            final(self).wf(),
            final(self).width == old(self).width,
            final(self).height == old(self).height,
            final(self).bytes_per_pixel == old(self).bytes_per_pixel,
            final(self).pitch == old(self).pitch,
            final(self).order == old(self).order,
            old(self).in_bounds(x as int, y as int) ==> final(self).pixels@ == old(
                self,
            ).spec_painted(x as int, y as int, color),
            !old(self).in_bounds(x as int, y as int) ==> *final(self) == *old(self),
    {
        if x < 0 || y < 0 {
            return ;
        }
        if x >= self.width as i32 || y >= self.height as i32 {
            return ;
        }
        proof {
            self.lemma_offset_in_surface(x as int, y as int);
            assert(0 <= (y as int) * (self.pitch as int) && 0 <= (x as int) * (
            self.bytes_per_pixel as int)) by (nonlinear_arith)
                requires
                    0 <= x,
                    0 <= y,
            ;
        }
        let stored = self.pixels.len();
        proof {
            assert(self.spec_offset(x as int, y as int) + self.bytes_per_pixel <= stored);
        }
        let xo: usize = (x as usize) * (self.bytes_per_pixel as usize);
        let off: usize = (y as usize) * (self.pitch as usize) + xo;
        let ghost goff = self.spec_offset(x as int, y as int);
        let ghost before = *self;
        if self.bytes_per_pixel == 2 {
            let v = pack_rgb565(color);
            proof {
                assert(v & 0xFF < 256 && v >> 8 < 256) by (bit_vector);
            }
            self.pixels.set(off, (v & 0xFF) as u8);
            self.pixels.set(off + 1, (v >> 8) as u8);
        } else {
            match self.order {
                PixelOrder::Bgra => {
                    self.pixels.set(off, color.b);
                    self.pixels.set(off + 1, color.g);
                    self.pixels.set(off + 2, color.r);
                    self.pixels.set(off + 3, 255);
                },
                PixelOrder::Rgba => {
                    self.pixels.set(off, color.r);
                    self.pixels.set(off + 1, color.g);
                    self.pixels.set(off + 2, color.b);
                    self.pixels.set(off + 3, 255);
                },
            }
        }
        proof {
            assert(self.pixels@ =~= before.spec_painted(x as int, y as int, color));
        }
    }

    /// Fills every visible pixel with `color`, walking rows by the
    /// pitch; the padding bytes past each visible row are left alone.
    pub fn clear(&mut self, color: Color)
        requires
            old(self).wf(),
        ensures
            final(self).wf(),
            final(self).width == old(self).width,
            final(self).height == old(self).height,
            final(self).bytes_per_pixel == old(self).bytes_per_pixel,
            final(self).pitch == old(self).pitch,
            final(self).order == old(self).order,
            final(self).pixels@.len() == old(self).pixels@.len(),
            forall|px: int, py: int|
                old(self).in_bounds(px, py) ==> old(self).has_pixel(
                    final(self).pixels@,
                    px,
                    py,
                    color,
                ),
            forall|i: int|
                0 <= i < old(self).pixels@.len() && !old(self).is_pixel_byte(i)
                    ==> final(self).pixels@[i] == old(self).pixels@[i],
    {
        let ghost orig = *old(self);
        let height = self.height;
        let width = self.width;
        let mut y: u32 = 0;
        while y < height
            invariant
                self.wf(),
                width == orig.width,
                height == orig.height,
                self.width == orig.width,
                self.height == orig.height,
                self.bytes_per_pixel == orig.bytes_per_pixel,
                self.pitch == orig.pitch,
                self.order == orig.order,
                self.pixels@.len() == orig.pixels@.len(),
                0 <= y <= orig.height,
                forall|px: int, py: int|
                    orig.in_bounds(px, py) && py < y ==> orig.has_pixel(
                        self.pixels@,
                        px,
                        py,
                        color,
                    ),
                forall|i: int|
                    0 <= i < orig.pixels@.len() && !orig.covered_before(0, y as int, i)
                        ==> self.pixels@[i] == orig.pixels@[i],
            decreases orig.height - y,
        {
            let mut x: u32 = 0;
            while x < width
                invariant
                    self.wf(),
                    width == orig.width,
                    self.width == orig.width,
                    self.height == orig.height,
                    self.bytes_per_pixel == orig.bytes_per_pixel,
                    self.pitch == orig.pitch,
                    self.order == orig.order,
                    self.pixels@.len() == orig.pixels@.len(),
                    0 <= x <= orig.width,
                    0 <= y < orig.height,
                    forall|px: int, py: int|
                        orig.in_bounds(px, py) && (py < y || (py == y && px < x))
                            ==> orig.has_pixel(self.pixels@, px, py, color),
                    forall|i: int|
                        0 <= i < orig.pixels@.len() && !orig.covered_before(x as int, y as int, i)
                            ==> self.pixels@[i] == orig.pixels@[i],
                decreases orig.width - x,
            {
                let ghost mid = *self;
                self.write_pixel(x as i32, y as i32, color);
                proof {
                    let xi = x as int;
                    let yi = y as int;
                    orig.lemma_offset_in_surface(xi, yi);
                    assert forall|px: int, py: int|
                        orig.in_bounds(px, py) && (py < yi || (py == yi && px
                            < xi + 1)) implies orig.has_pixel(
                        self.pixels@,
                        px,
                        py,
                        color,
                    ) by {
                        orig.lemma_offset_in_surface(px, py);
                        if px == xi && py == yi {
                            assert forall|k: int| 0 <= k < orig.bytes_per_pixel implies
                                self.pixels@[orig.spec_offset(px, py) + k] == #[trigger
                            ] spec_pixel_bytes(orig.bytes_per_pixel, orig.order, color)[k] by {
                                assert(orig.region_of(xi, yi, orig.spec_offset(px, py) + k));
                            }
                        } else {
                            orig.lemma_regions_disjoint(px, py, xi, yi);
                            assert(orig.has_pixel(mid.pixels@, px, py, color));
                            assert forall|k: int| 0 <= k < orig.bytes_per_pixel implies
                                self.pixels@[orig.spec_offset(px, py) + k] == #[trigger
                            ] spec_pixel_bytes(orig.bytes_per_pixel, orig.order, color)[k] by {
                                assert(!orig.region_of(xi, yi, orig.spec_offset(px, py) + k));
                                assert(self.pixels@[orig.spec_offset(px, py) + k]
                                    == mid.pixels@[orig.spec_offset(px, py) + k]);
                            }
                        }
                    }
                    assert forall|i: int|
                        0 <= i < orig.pixels@.len() && !orig.covered_before(
                            xi + 1,
                            yi,
                            i,
                        ) implies self.pixels@[i] == orig.pixels@[i] by {
                        if orig.region_of(xi, yi, i) {
                            assert(orig.covered_before(xi + 1, yi, i));
                        }
                        if orig.covered_before(xi, yi, i) {
                            let (px, py): (int, int) = choose|px: int, py: int|
                                orig.in_bounds(px, py) && (py < yi || (py == yi && px < xi))
                                    && #[trigger] orig.region_of(px, py, i);
                            assert(orig.covered_before(xi + 1, yi, i));
                        }
                        assert(self.pixels@[i] == mid.pixels@[i]);
                    }
                }
                x = x + 1;
            }
            proof {
                let yi = y as int;
                assert forall|i: int|
                    0 <= i < orig.pixels@.len() && !orig.covered_before(
                        0,
                        yi + 1,
                        i,
                    ) implies self.pixels@[i] == orig.pixels@[i] by {
                    if orig.covered_before(orig.width as int, yi, i) {
                        let (px, py): (int, int) = choose|px: int, py: int|
                            orig.in_bounds(px, py) && (py < yi || (py == yi && px
                                < orig.width as int)) && #[trigger] orig.region_of(px, py, i);
                        assert(orig.covered_before(0, yi + 1, i));
                    }
                }
            }
            y = y + 1;
        }
        proof {
            assert forall|i: int|
                0 <= i < orig.pixels@.len() && !orig.is_pixel_byte(i) implies self.pixels@[i]
                == orig.pixels@[i] by {
                if orig.covered_before(0, orig.height as int, i) {
                    let (px, py): (int, int) = choose|px: int, py: int|
                        orig.in_bounds(px, py) && (py < orig.height as int || (py
                            == orig.height as int && px < 0)) && #[trigger] orig.region_of(
                            px,
                            py,
                            i,
                        );
                    assert(orig.is_pixel_byte(i));
                }
            }
        }
    }
}

} // verus!
