//! The stateful rendering surface: cursor, current colour, text and
//! shape primitives over the framebuffer.
//!
//! Text lands at the cursor, one call per line; after each line the
//! cursor returns to the left margin and moves down one line height.
//! When the cursor would pass the bottom margin the surface scrolls
//! destructively: the whole screen is cleared and the cursor returns
//! to the top margin, so the cursor row always stays inside the band
//! between the two margins.

use vstd::prelude::*;
use crate::colors::{black, white};
use crate::framebuffer::{Color, FrameBuffer, spec_pixel_bytes};
use crate::glyphs::{glyph_row, spec_glyph_pixel, spec_row_pixel};
use crate::mailbox::MailboxError;
use crate::negotiate::{
    DisplayConfig, DisplayProfile, fallback_config, negotiate_config, spec_fallback_config,
    spec_negotiate,
};

verus! {

/// Default screen resolution of the reference target.
pub const SCREEN_WIDTH: u32 = 800;
pub const SCREEN_HEIGHT: u32 = 600;

/// Cursor home column.
pub const LEFT_MARGIN: i32 = 10;
/// Cursor home row, below the top edge.
pub const TOP_MARGIN: i32 = 30;
/// Rows kept free above the bottom edge; passing into them scrolls.
pub const BOTTOM_MARGIN: i32 = 50;
/// Rows the cursor advances per text line.
pub const LINE_HEIGHT: i32 = 25;
/// Columns one glyph occupies, cursor advance per character.
pub const GLYPH_WIDTH: i32 = 8;
/// Rows one glyph occupies.
pub const GLYPH_HEIGHT: i32 = 8;
/// Border thickness of an outline rectangle, in pixels.
pub const STROKE_WIDTH: i32 = 2;

/// The drawing surface with its cursor state.
pub struct GraphicsManager {
    pub framebuffer: FrameBuffer,
    pub current_color: Color,
    pub cursor_x: i32,
    pub cursor_y: i32,
    pub line_height: i32,
}

impl GraphicsManager {
    /// The surface is addressable and the cursor row lies inside the
    /// band `[TOP_MARGIN, height - BOTTOM_MARGIN]`.
    pub open spec fn wf(self) -> bool {
        &&& self.framebuffer.wf()
        &&& self.framebuffer.height >= TOP_MARGIN + BOTTOM_MARGIN
        &&& TOP_MARGIN <= self.cursor_y <= self.framebuffer.height - BOTTOM_MARGIN
        &&& 1 <= self.line_height
    }

    /// Shorthand: the two surfaces have the same addressing shape.
    pub open spec fn same_surface(self, other: GraphicsManager) -> bool {
        &&& self.framebuffer.width == other.framebuffer.width
        &&& self.framebuffer.height == other.framebuffer.height
        &&& self.framebuffer.bytes_per_pixel == other.framebuffer.bytes_per_pixel
        &&& self.framebuffer.pitch == other.framebuffer.pitch
        &&& self.framebuffer.order == other.framebuffer.order
        &&& self.framebuffer.pixels@.len() == other.framebuffer.pixels@.len()
    }

    /// Whether `bytes` shows `c` on every visible pixel — the screen
    /// as it stands right after a clear.
    pub open spec fn screen_filled(self, bytes: Seq<u8>, c: Color) -> bool {
        forall|px: int, py: int|
            self.framebuffer.in_bounds(px, py) ==> self.framebuffer.has_pixel(bytes, px, py, c)
    }

    /// A profile this surface can be built on: its fallback triple is
    /// addressable and the screen is tall enough for both margins.
    pub open spec fn spec_profile_usable(p: DisplayProfile) -> bool {
        &&& spec_fallback_config(p).renderable()
        &&& p.height >= TOP_MARGIN + BOTTOM_MARGIN
    }

    /// The configuration the surface is actually built on: what the
    /// negotiator concluded, unless that shape cannot be addressed
    /// safely — a degenerate response — in which case the fallback
    /// triple is used.
    pub open spec fn spec_effective_config(
        p: DisplayProfile,
        send_result: Result<(), MailboxError>,
        response_words: Seq<u32>,
    ) -> DisplayConfig {
        let c = spec_negotiate(p, send_result, response_words);
        if c.renderable() {
            c
        } else {
            spec_fallback_config(p)
        }
    }

    /// Builds the surface from a finished negotiation: the effective
    /// configuration backs the framebuffer, the screen starts black,
    /// the colour white, and the cursor at the home position.
    pub fn new(
        profile: &DisplayProfile,
        send_result: Result<(), MailboxError>,
        response_words: &Vec<u32>,
    ) -> (g: GraphicsManager)
        requires
            Self::spec_profile_usable(*profile),
        ensures
            g.wf(),
            ({
                let c = Self::spec_effective_config(*profile, send_result, response_words@);
                &&& g.framebuffer.width == c.width
                &&& g.framebuffer.height == c.height
                &&& g.framebuffer.bytes_per_pixel == c.bytes_per_pixel
                &&& g.framebuffer.pitch == c.pitch
                &&& g.framebuffer.order == c.order
            }),
            g.current_color == (Color { r: 255, g: 255, b: 255 }),
            g.cursor_x == LEFT_MARGIN,
            g.cursor_y == TOP_MARGIN,
            g.line_height == LINE_HEIGHT,
            g.screen_filled(g.framebuffer.pixels@, Color { r: 0, g: 0, b: 0 }),
    {
        let negotiated = negotiate_config(profile, send_result, response_words);
        let config = if negotiated.is_renderable() {
            negotiated
        } else {
            fallback_config(profile)
        };
        let framebuffer = FrameBuffer::new(config);
        let mut g = GraphicsManager {
            framebuffer,
            current_color: white(),
            cursor_x: LEFT_MARGIN,
            cursor_y: TOP_MARGIN,
            line_height: LINE_HEIGHT,
        };
        let ghost before = g;
        g.clear_screen();
        proof {
            let ink = Color { r: 0, g: 0, b: 0 };
            assert forall|px: int, py: int| g.framebuffer.in_bounds(px, py) implies
                g.framebuffer.has_pixel(g.framebuffer.pixels@, px, py, ink) by {
                assert(before.framebuffer.in_bounds(px, py));
                assert(before.framebuffer.has_pixel(g.framebuffer.pixels@, px, py, ink));
                assert(before.framebuffer.spec_offset(px, py) == g.framebuffer.spec_offset(px, py));
                assert forall|k: int| 0 <= k < g.framebuffer.bytes_per_pixel implies
                    g.framebuffer.pixels@[g.framebuffer.spec_offset(px, py) + k] == #[trigger
                ] spec_pixel_bytes(g.framebuffer.bytes_per_pixel, g.framebuffer.order, ink)[k] by {
                    assert(g.framebuffer.pixels@[before.framebuffer.spec_offset(px, py) + k]
                        == spec_pixel_bytes(
                        before.framebuffer.bytes_per_pixel,
                        before.framebuffer.order,
                        ink,
                    )[k]);
                }
            }
        }
        g
    }

    /// Clears the whole screen to black and sends the cursor home.
    pub fn clear_screen(&mut self)
        requires
            old(self).wf(),
        ensures
            final(self).wf(),
            old(self).same_surface(*final(self)),
            final(self).current_color == old(self).current_color,
            final(self).line_height == old(self).line_height,
            final(self).cursor_x == LEFT_MARGIN,
            final(self).cursor_y == TOP_MARGIN,
            old(self).screen_filled(final(self).framebuffer.pixels@, Color { r: 0, g: 0, b: 0 }),
            forall|i: int|
                0 <= i < old(self).framebuffer.pixels@.len() && !old(self).framebuffer.is_pixel_byte(
                    i,
                ) ==> final(self).framebuffer.pixels@[i] == old(self).framebuffer.pixels@[i],
    {
        self.framebuffer.clear(black());
        self.cursor_x = LEFT_MARGIN;
        self.cursor_y = TOP_MARGIN;
    }

    /// Changes the colour that future text and shapes are painted in.
    pub fn set_color(&mut self, color: Color)
        requires
            old(self).wf(),
        ensures
            *final(self) == (GraphicsManager { current_color: color, ..*old(self) }),
            final(self).wf(),
    {
        self.current_color = color;
    }

    /// Moves the cursor to the start of the next line, scrolling when
    /// the new row would pass the bottom margin.  The scroll is
    /// destructive: the screen is cleared and the cursor returns to
    /// the top margin.
    pub fn new_line(&mut self)
        requires
            old(self).wf(),
        ensures
            final(self).wf(),
            old(self).same_surface(*final(self)),
            final(self).current_color == old(self).current_color,
            final(self).line_height == old(self).line_height,
            final(self).cursor_x == LEFT_MARGIN,
            if old(self).cursor_y + old(self).line_height > old(self).framebuffer.height
                - BOTTOM_MARGIN {
                &&& final(self).cursor_y == TOP_MARGIN
                &&& old(self).screen_filled(
                    final(self).framebuffer.pixels@,
                    Color { r: 0, g: 0, b: 0 },
                )
            } else {
                &&& final(self).cursor_y == old(self).cursor_y + old(self).line_height
                &&& final(self).framebuffer.pixels@ == old(self).framebuffer.pixels@
            },
    {
        self.cursor_x = LEFT_MARGIN;
        let next: i64 = self.cursor_y as i64 + self.line_height as i64;
        if next > self.framebuffer.height as i64 - BOTTOM_MARGIN as i64 {
            self.scroll_up();
        } else {
            self.cursor_y = next as i32;
        }
    }

    /// Destructive scroll: clear the screen and start again at the top
    /// margin.  Content above the fold is lost; callers that need
    /// scrollback must keep their own buffer.
    fn scroll_up(&mut self)
        requires
            old(self).wf(),
        ensures
            final(self).wf(),
            old(self).same_surface(*final(self)),
            final(self).current_color == old(self).current_color,
            final(self).line_height == old(self).line_height,
            final(self).cursor_x == LEFT_MARGIN,
            final(self).cursor_y == TOP_MARGIN,
            old(self).screen_filled(final(self).framebuffer.pixels@, Color { r: 0, g: 0, b: 0 }),
    {
        self.clear_screen();
    }
}

/// Whether the glyph of `code`, placed with its top-left corner at
/// `(gx, gy)`, has a foreground pixel at `(px, py)`.  Background bits
/// of the glyph cell cover nothing: they are left untouched.
pub open spec fn glyph_covers(code: u8, gx: int, gy: int, px: int, py: int) -> bool {
    &&& gx <= px < gx + GLYPH_WIDTH
    &&& gy <= py < gy + GLYPH_HEIGHT
    &&& spec_glyph_pixel(code, py - gy, px - gx)
}

/// `glyph_covers` restricted to the cell positions before `(row, col)`
/// in row-major order; the painting loop's progress.
spec fn glyph_covers_upto(code: u8, gx: int, gy: int, row: int, col: int, px: int, py: int) -> bool {
    &&& glyph_covers(code, gx, gy, px, py)
    &&& (py - gy < row || (py - gy == row && px - gx < col))
}

/// Whether byte `i` of a surface shaped like `fb` belongs to a pixel
/// the glyph paints.
pub open spec fn glyph_touches(fb: FrameBuffer, code: u8, gx: int, gy: int, i: int) -> bool {
    exists|px: int, py: int|
        fb.in_bounds(px, py) && glyph_covers(code, gx, gy, px, py) && #[trigger] fb.region_of(
            px,
            py,
            i,
        )
}

/// `glyph_touches` restricted to cell positions before `(row, col)`.
spec fn glyph_touches_upto(
    fb: FrameBuffer,
    code: u8,
    gx: int,
    gy: int,
    row: int,
    col: int,
    i: int,
) -> bool {
    exists|px: int, py: int|
        fb.in_bounds(px, py) && glyph_covers_upto(code, gx, gy, row, col, px, py)
            && #[trigger] fb.region_of(px, py, i)
}

/// Whether some glyph of `text`, laid out left to right from
/// `(ox, oy)` with one cell per character, has a foreground pixel at
/// `(px, py)`.
pub open spec fn text_covers(text: Seq<u8>, ox: int, oy: int, px: int, py: int) -> bool {
    exists|n: int|
        0 <= n < text.len() && #[trigger] glyph_covers(text[n], ox + GLYPH_WIDTH * n, oy, px, py)
}

/// Whether byte `i` of a surface shaped like `fb` belongs to a pixel
/// the text paints.
pub open spec fn text_touches(fb: FrameBuffer, text: Seq<u8>, ox: int, oy: int, i: int) -> bool {
    exists|px: int, py: int|
        fb.in_bounds(px, py) && text_covers(text, ox, oy, px, py) && #[trigger] fb.region_of(
            px,
            py,
            i,
        )
}

/// Paints the foreground pixels of one glyph, clipped to the surface;
/// background bits and everything outside the cell stay as they are.
fn draw_glyph(fb: &mut FrameBuffer, code: u8, gx: i64, gy: i64, ink: Color)
    requires
        old(fb).wf(),
        i32::MIN <= gx <= i32::MAX as i64 + GLYPH_WIDTH as i64,
        i32::MIN <= gy <= i32::MAX as i64 + GLYPH_HEIGHT as i64,
    ensures
        final(fb).wf(),
        final(fb).width == old(fb).width,
        final(fb).height == old(fb).height,
        final(fb).bytes_per_pixel == old(fb).bytes_per_pixel,
        final(fb).pitch == old(fb).pitch,
        final(fb).order == old(fb).order,
        final(fb).pixels@.len() == old(fb).pixels@.len(),
        forall|px: int, py: int|
            old(fb).in_bounds(px, py) && glyph_covers(code, gx as int, gy as int, px, py) ==> old(
                fb,
            ).has_pixel(final(fb).pixels@, px, py, ink),
        forall|i: int|
            0 <= i < old(fb).pixels@.len() && !glyph_touches(*old(fb), code, gx as int, gy as int, i)
                ==> final(fb).pixels@[i] == old(fb).pixels@[i],
{
    let ghost orig = *old(fb);
    let mut row: u32 = 0;
    while row < 8
        invariant
            fb.wf(),
            fb.width == orig.width,
            fb.height == orig.height,
            fb.bytes_per_pixel == orig.bytes_per_pixel,
            fb.pitch == orig.pitch,
            fb.order == orig.order,
            fb.pixels@.len() == orig.pixels@.len(),
            i32::MIN <= gx <= i32::MAX as i64 + GLYPH_WIDTH as i64,
            i32::MIN <= gy <= i32::MAX as i64 + GLYPH_HEIGHT as i64,
            0 <= row <= 8,
            forall|px: int, py: int|
                orig.in_bounds(px, py) && glyph_covers_upto(
                    code,
                    gx as int,
                    gy as int,
                    row as int,
                    0,
                    px,
                    py,
                ) ==> orig.has_pixel(fb.pixels@, px, py, ink),
            forall|i: int|
                0 <= i < orig.pixels@.len() && !glyph_touches_upto(
                    orig,
                    code,
                    gx as int,
                    gy as int,
                    row as int,
                    0,
                    i,
                ) ==> fb.pixels@[i] == orig.pixels@[i],
        decreases 8 - row,
    {
        let row_bits = glyph_row(code, row);
        let mut col: u32 = 0;
        while col < 8
            invariant
                fb.wf(),
                fb.width == orig.width,
                fb.height == orig.height,
                fb.bytes_per_pixel == orig.bytes_per_pixel,
                fb.pitch == orig.pitch,
                fb.order == orig.order,
                fb.pixels@.len() == orig.pixels@.len(),
                i32::MIN <= gx <= i32::MAX as i64 + GLYPH_WIDTH as i64,
                i32::MIN <= gy <= i32::MAX as i64 + GLYPH_HEIGHT as i64,
                0 <= row < 8,
                0 <= col <= 8,
                forall|c: int|
                    0 <= c < 8 ==> #[trigger] spec_row_pixel(row_bits, c) == spec_glyph_pixel(
                        code,
                        row as int,
                        c,
                    ),
                forall|px: int, py: int|
                    orig.in_bounds(px, py) && glyph_covers_upto(
                        code,
                        gx as int,
                        gy as int,
                        row as int,
                        col as int,
                        px,
                        py,
                    ) ==> orig.has_pixel(fb.pixels@, px, py, ink),
                forall|i: int|
                    0 <= i < orig.pixels@.len() && !glyph_touches_upto(
                        orig,
                        code,
                        gx as int,
                        gy as int,
                        row as int,
                        col as int,
                        i,
                    ) ==> fb.pixels@[i] == orig.pixels@[i],
            decreases 8 - col,
        {
            let ghost gxi = gx as int;
            let ghost gyi = gy as int;
            let ghost rowi = row as int;
            let ghost coli = col as int;
            let bit = (row_bits >> ((7 - col) as u8)) & 1;
            let px64: i64 = gx + col as i64;
            let py64: i64 = gy + row as i64;
            proof {
                assert(spec_row_pixel(row_bits, coli) == ((row_bits >> ((7 - coli) as u8)) & 1
                    == 1));
            }
            if bit == 1 && px64 >= 0 && py64 >= 0 && px64 < fb.width as i64 && py64
                < fb.height as i64 {
                let ghost mid = *fb;
                fb.write_pixel(px64 as i32, py64 as i32, ink);
                proof {
                    let nx = px64 as int;
                    let ny = py64 as int;
                    orig.lemma_offset_in_surface(nx, ny);
                    assert forall|px: int, py: int|
                        orig.in_bounds(px, py) && glyph_covers_upto(
                            code,
                            gxi,
                            gyi,
                            rowi,
                            coli + 1,
                            px,
                            py,
                        ) implies orig.has_pixel(fb.pixels@, px, py, ink) by {
                        orig.lemma_offset_in_surface(px, py);
                        if px == nx && py == ny {
                            assert forall|k: int| 0 <= k < orig.bytes_per_pixel implies
                                fb.pixels@[orig.spec_offset(px, py) + k] == #[trigger
                            ] spec_pixel_bytes(orig.bytes_per_pixel, orig.order, ink)[k] by {
                                assert(mid.region_of(nx, ny, orig.spec_offset(px, py) + k));
                            }
                        } else {
                            orig.lemma_regions_disjoint(px, py, nx, ny);
                            assert(glyph_covers_upto(code, gxi, gyi, rowi, coli, px, py));
                            assert(orig.has_pixel(mid.pixels@, px, py, ink));
                            assert forall|k: int| 0 <= k < orig.bytes_per_pixel implies
                                fb.pixels@[orig.spec_offset(px, py) + k] == #[trigger
                            ] spec_pixel_bytes(orig.bytes_per_pixel, orig.order, ink)[k] by {
                                assert(!mid.region_of(nx, ny, orig.spec_offset(px, py) + k));
                                assert(fb.pixels@[orig.spec_offset(px, py) + k]
                                    == mid.pixels@[orig.spec_offset(px, py) + k]);
                            }
                        }
                    }
                    assert forall|i: int|
                        0 <= i < orig.pixels@.len() && !glyph_touches_upto(
                            orig,
                            code,
                            gxi,
                            gyi,
                            rowi,
                            coli + 1,
                            i,
                        ) implies fb.pixels@[i] == orig.pixels@[i] by {
                        if orig.region_of(nx, ny, i) {
                            assert(glyph_covers_upto(code, gxi, gyi, rowi, coli + 1, nx, ny));
                            assert(glyph_touches_upto(orig, code, gxi, gyi, rowi, coli + 1, i));
                        }
                        assert(!mid.region_of(nx, ny, i));
                        if glyph_touches_upto(orig, code, gxi, gyi, rowi, coli, i) {
                            let (px, py): (int, int) = choose|px: int, py: int|
                                orig.in_bounds(px, py) && glyph_covers_upto(
                                    code,
                                    gxi,
                                    gyi,
                                    rowi,
                                    coli,
                                    px,
                                    py,
                                ) && #[trigger] orig.region_of(px, py, i);
                            assert(glyph_covers_upto(code, gxi, gyi, rowi, coli + 1, px, py));
                            assert(glyph_touches_upto(orig, code, gxi, gyi, rowi, coli + 1, i));
                        }
                        assert(fb.pixels@[i] == mid.pixels@[i]);
                    }
                }
            } else {
                proof {
                    assert forall|px: int, py: int|
                        orig.in_bounds(px, py) && glyph_covers_upto(
                            code,
                            gxi,
                            gyi,
                            rowi,
                            coli + 1,
                            px,
                            py,
                        ) implies orig.has_pixel(fb.pixels@, px, py, ink) by {
                        assert(glyph_covers_upto(code, gxi, gyi, rowi, coli, px, py));
                    }
                    assert forall|i: int|
                        0 <= i < orig.pixels@.len() && !glyph_touches_upto(
                            orig,
                            code,
                            gxi,
                            gyi,
                            rowi,
                            coli + 1,
                            i,
                        ) implies fb.pixels@[i] == orig.pixels@[i] by {
                        if glyph_touches_upto(orig, code, gxi, gyi, rowi, coli, i) {
                            let (px, py): (int, int) = choose|px: int, py: int|
                                orig.in_bounds(px, py) && glyph_covers_upto(
                                    code,
                                    gxi,
                                    gyi,
                                    rowi,
                                    coli,
                                    px,
                                    py,
                                ) && #[trigger] orig.region_of(px, py, i);
                            assert(glyph_covers_upto(code, gxi, gyi, rowi, coli + 1, px, py));
                            assert(glyph_touches_upto(orig, code, gxi, gyi, rowi, coli + 1, i));
                        }
                    }
                }
            }
            col = col + 1;
        }
        proof {
            let gxi = gx as int;
            let gyi = gy as int;
            let rowi = row as int;
            assert forall|px: int, py: int|
                orig.in_bounds(px, py) && glyph_covers_upto(
                    code,
                    gxi,
                    gyi,
                    rowi + 1,
                    0,
                    px,
                    py,
                ) implies orig.has_pixel(fb.pixels@, px, py, ink) by {
                assert(glyph_covers_upto(code, gxi, gyi, rowi, 8, px, py));
            }
            assert forall|i: int|
                0 <= i < orig.pixels@.len() && !glyph_touches_upto(
                    orig,
                    code,
                    gxi,
                    gyi,
                    rowi + 1,
                    0,
                    i,
                ) implies fb.pixels@[i] == orig.pixels@[i] by {
                if glyph_touches_upto(orig, code, gxi, gyi, rowi, 8, i) {
                    let (px, py): (int, int) = choose|px: int, py: int|
                        orig.in_bounds(px, py) && glyph_covers_upto(code, gxi, gyi, rowi, 8, px, py)
                            && #[trigger] orig.region_of(px, py, i);
                    assert(glyph_covers_upto(code, gxi, gyi, rowi + 1, 0, px, py));
                    assert(glyph_touches_upto(orig, code, gxi, gyi, rowi + 1, 0, i));
                }
            }
        }
        row = row + 1;
    }
    proof {
        let gxi = gx as int;
        let gyi = gy as int;
        assert forall|px: int, py: int|
            orig.in_bounds(px, py) && glyph_covers(code, gxi, gyi, px, py) implies orig.has_pixel(
            fb.pixels@,
            px,
            py,
            ink,
        ) by {
            assert(glyph_covers_upto(code, gxi, gyi, 8, 0, px, py));
        }
        assert forall|i: int|
            0 <= i < orig.pixels@.len() && !glyph_touches(orig, code, gxi, gyi, i) implies
            fb.pixels@[i] == orig.pixels@[i] by {
            if glyph_touches_upto(orig, code, gxi, gyi, 8, 0, i) {
                let (px, py): (int, int) = choose|px: int, py: int|
                    orig.in_bounds(px, py) && glyph_covers_upto(code, gxi, gyi, 8, 0, px, py)
                        && #[trigger] orig.region_of(px, py, i);
                assert(glyph_covers(code, gxi, gyi, px, py));
                assert(glyph_touches(orig, code, gxi, gyi, i));
            }
        }
    }
}

/// A screen filled with one colour looks filled from any surface of
/// the same shape.
proof fn lemma_screen_filled_transfer(a: GraphicsManager, b: GraphicsManager, bytes: Seq<u8>, c: Color)
    requires
        a.same_surface(b),
        b.screen_filled(bytes, c),
    ensures
        a.screen_filled(bytes, c),
{
    assert forall|px: int, py: int| a.framebuffer.in_bounds(px, py) implies a.framebuffer.has_pixel(
        bytes,
        px,
        py,
        c,
    ) by {
        assert(b.framebuffer.in_bounds(px, py));
        assert(b.framebuffer.has_pixel(bytes, px, py, c));
        assert forall|k: int| 0 <= k < a.framebuffer.bytes_per_pixel implies
            bytes[a.framebuffer.spec_offset(px, py) + k] == #[trigger] spec_pixel_bytes(
            a.framebuffer.bytes_per_pixel,
            a.framebuffer.order,
            c,
        )[k] by {
            assert(bytes[b.framebuffer.spec_offset(px, py) + k] == spec_pixel_bytes(
                b.framebuffer.bytes_per_pixel,
                b.framebuffer.order,
                c,
            )[k]);
        }
    }
}

impl GraphicsManager {
    /// Paints `text` with its top-left corner at `(x, y)`, one glyph
    /// cell per byte, left to right.  Foreground bits get the current
    /// colour; background bits and the cursor are left untouched, and
    /// anything past the surface is clipped away.
    pub fn draw_text_at(&mut self, text: &[u8], x: i32, y: i32)
        requires
            old(self).wf(),
        ensures
            final(self).wf(),
            old(self).same_surface(*final(self)),
            final(self).current_color == old(self).current_color,
            final(self).cursor_x == old(self).cursor_x,
            final(self).cursor_y == old(self).cursor_y,
            final(self).line_height == old(self).line_height,
            forall|px: int, py: int|
                old(self).framebuffer.in_bounds(px, py) && text_covers(
                    text@,
                    x as int,
                    y as int,
                    px,
                    py,
                ) ==> old(self).framebuffer.has_pixel(
                    final(self).framebuffer.pixels@,
                    px,
                    py,
                    old(self).current_color,
                ),
            forall|i: int|
                0 <= i < old(self).framebuffer.pixels@.len() && !text_touches(
                    old(self).framebuffer,
                    text@,
                    x as int,
                    y as int,
                    i,
                ) ==> final(self).framebuffer.pixels@[i] == old(self).framebuffer.pixels@[i],
    {
        let ghost orig = self.framebuffer;
        let ghost cx0 = self.cursor_x;
        let ghost cy0 = self.cursor_y;
        let ghost lh0 = self.line_height;
        let ink = self.current_color;
        let xi: i64 = x as i64;
        let yi: i64 = y as i64;
        let mut gx: i64 = xi;
        let mut n: usize = 0;
        while n < text.len()
            invariant
                self.framebuffer.wf(),
                self.framebuffer.width == orig.width,
                self.framebuffer.height == orig.height,
                self.framebuffer.bytes_per_pixel == orig.bytes_per_pixel,
                self.framebuffer.pitch == orig.pitch,
                self.framebuffer.order == orig.order,
                self.framebuffer.pixels@.len() == orig.pixels@.len(),
                self.current_color == ink,
                self.cursor_x == cx0,
                self.cursor_y == cy0,
                self.line_height == lh0,
                xi == x as int,
                yi == y as int,
                0 <= n <= text@.len(),
                gx == xi + GLYPH_WIDTH * n,
                xi <= gx <= i32::MAX as i64 + GLYPH_WIDTH as i64,
                forall|px: int, py: int|
                    orig.in_bounds(px, py) && text_covers(
                        text@.subrange(0, n as int),
                        xi as int,
                        yi as int,
                        px,
                        py,
                    ) ==> orig.has_pixel(self.framebuffer.pixels@, px, py, ink),
                forall|i: int|
                    0 <= i < orig.pixels@.len() && !text_touches(
                        orig,
                        text@.subrange(0, n as int),
                        xi as int,
                        yi as int,
                        i,
                    ) ==> self.framebuffer.pixels@[i] == orig.pixels@[i],
            ensures
                n as int == text@.len() || gx > i32::MAX as i64,
                self.framebuffer.wf(),
                self.framebuffer.width == orig.width,
                self.framebuffer.height == orig.height,
                self.framebuffer.bytes_per_pixel == orig.bytes_per_pixel,
                self.framebuffer.pitch == orig.pitch,
                self.framebuffer.order == orig.order,
                self.framebuffer.pixels@.len() == orig.pixels@.len(),
                self.current_color == ink,
                self.cursor_x == cx0,
                self.cursor_y == cy0,
                self.line_height == lh0,
                0 <= n <= text@.len(),
                gx == xi + GLYPH_WIDTH * n,
                forall|px: int, py: int|
                    orig.in_bounds(px, py) && text_covers(
                        text@.subrange(0, n as int),
                        xi as int,
                        yi as int,
                        px,
                        py,
                    ) ==> orig.has_pixel(self.framebuffer.pixels@, px, py, ink),
                forall|i: int|
                    0 <= i < orig.pixels@.len() && !text_touches(
                        orig,
                        text@.subrange(0, n as int),
                        xi as int,
                        yi as int,
                        i,
                    ) ==> self.framebuffer.pixels@[i] == orig.pixels@[i],
            decreases text@.len() - n,
        {
            if gx > i32::MAX as i64 {
                break ;
            }
            let code = text[n];
            let ghost mid = self.framebuffer;
            let ghost pre = text@.subrange(0, n as int);
            let ghost post = text@.subrange(0, n + 1);
            draw_glyph(&mut self.framebuffer, code, gx, yi, ink);
            proof {
                let gxi = gx as int;
                assert(post =~= pre.push(text@[n as int]));
                assert forall|px: int, py: int|
                    orig.in_bounds(px, py) && text_covers(post, xi as int, yi as int, px, py)
                        implies orig.has_pixel(self.framebuffer.pixels@, px, py, ink) by {
                    let m = choose|m: int|
                        0 <= m < post.len() && #[trigger] glyph_covers(
                            post[m],
                            xi + GLYPH_WIDTH * m,
                            yi as int,
                            px,
                            py,
                        );
                    if m == n as int {
                        assert(glyph_covers(code, gxi, yi as int, px, py));
                        assert(mid.in_bounds(px, py));
                        assert(mid.has_pixel(self.framebuffer.pixels@, px, py, ink));
                        assert forall|k: int| 0 <= k < orig.bytes_per_pixel implies
                            self.framebuffer.pixels@[orig.spec_offset(px, py) + k] == #[trigger
                        ] spec_pixel_bytes(orig.bytes_per_pixel, orig.order, ink)[k] by {
                            assert(self.framebuffer.pixels@[mid.spec_offset(px, py) + k]
                                == spec_pixel_bytes(mid.bytes_per_pixel, mid.order, ink)[k]);
                        }
                    } else {
                        // An earlier glyph's pixel: its cell lies left of
                        // this one, so this glyph touched none of its bytes.
                        assert(text_covers(pre, xi as int, yi as int, px, py));
                        assert(orig.has_pixel(mid.pixels@, px, py, ink));
                        orig.lemma_offset_in_surface(px, py);
                        assert(px < xi + GLYPH_WIDTH * m + GLYPH_WIDTH <= gxi);
                        assert forall|k: int| 0 <= k < orig.bytes_per_pixel implies
                            self.framebuffer.pixels@[orig.spec_offset(px, py) + k] == #[trigger
                        ] spec_pixel_bytes(orig.bytes_per_pixel, orig.order, ink)[k] by {
                            let i = orig.spec_offset(px, py) + k;
                            assert(orig.region_of(px, py, i));
                            assert forall|qx: int, qy: int|
                                mid.in_bounds(qx, qy) && glyph_covers(code, gxi, yi as int, qx, qy)
                                    implies !#[trigger] mid.region_of(qx, qy, i) by {
                                if mid.region_of(qx, qy, i) {
                                    assert(orig.region_of(qx, qy, i));
                                    if qx != px || qy != py {
                                        orig.lemma_regions_disjoint(px, py, qx, qy);
                                    }
                                    assert(qx == px && qy == py);
                                    assert(qx >= gxi);
                                    assert(false);
                                }
                            }
                            assert(!glyph_touches(mid, code, gxi, yi as int, i));
                            assert(self.framebuffer.pixels@[i] == mid.pixels@[i]);
                        }
                    }
                }
                assert forall|i: int|
                    0 <= i < orig.pixels@.len() && !text_touches(
                        orig,
                        post,
                        xi as int,
                        yi as int,
                        i,
                    ) implies self.framebuffer.pixels@[i] == orig.pixels@[i] by {
                    // Not touched by the longer prefix means not touched by
                    // the shorter one, nor by the glyph just painted.
                    if text_touches(orig, pre, xi as int, yi as int, i) {
                        let (px, py): (int, int) = choose|px: int, py: int|
                            orig.in_bounds(px, py) && text_covers(pre, xi as int, yi as int, px, py)
                                && #[trigger] orig.region_of(px, py, i);
                        let m = choose|m: int|
                            0 <= m < pre.len() && #[trigger] glyph_covers(
                                pre[m],
                                xi + GLYPH_WIDTH * m,
                                yi as int,
                                px,
                                py,
                            );
                        assert(glyph_covers(post[m], xi + GLYPH_WIDTH * m, yi as int, px, py));
                        assert(text_covers(post, xi as int, yi as int, px, py));
                        assert(text_touches(orig, post, xi as int, yi as int, i));
                    }
                    if glyph_touches(mid, code, gx as int, yi as int, i) {
                        let (px, py): (int, int) = choose|px: int, py: int|
                            mid.in_bounds(px, py) && glyph_covers(code, gx as int, yi as int, px, py)
                                && #[trigger] mid.region_of(px, py, i);
                        assert(glyph_covers(post[n as int], xi + GLYPH_WIDTH * (n as int), yi as int, px, py));
                        assert(text_covers(post, xi as int, yi as int, px, py));
                        assert(orig.region_of(px, py, i));
                        assert(text_touches(orig, post, xi as int, yi as int, i));
                    }
                    assert(self.framebuffer.pixels@[i] == mid.pixels@[i]);
                }
            }
            gx = gx + GLYPH_WIDTH as i64;
            n = n + 1;
        }
        proof {
            let full = text@;
            let pre = text@.subrange(0, n as int);
            if n as int == full.len() {
                assert(pre =~= full);
            } else {
                // The rest of the line lies beyond the coordinate range:
                // no visible pixel is covered by any remaining glyph.
                assert forall|px: int, py: int|
                    orig.in_bounds(px, py) && text_covers(full, xi as int, yi as int, px, py)
                        implies orig.has_pixel(self.framebuffer.pixels@, px, py, ink) by {
                    let m = choose|m: int|
                        0 <= m < full.len() && #[trigger] glyph_covers(
                            full[m],
                            xi + GLYPH_WIDTH * m,
                            yi as int,
                            px,
                            py,
                        );
                    if m < n as int {
                        assert(glyph_covers(pre[m], xi + GLYPH_WIDTH * m, yi as int, px, py));
                        assert(text_covers(pre, xi as int, yi as int, px, py));
                    } else {
                        assert(GLYPH_WIDTH * m >= GLYPH_WIDTH * (n as int));
                        assert(px >= xi + GLYPH_WIDTH * m >= gx > i32::MAX);
                        assert(px < orig.width <= i32::MAX);
                        assert(false);
                    }
                }
                assert forall|i: int|
                    0 <= i < orig.pixels@.len() && !text_touches(
                        orig,
                        full,
                        xi as int,
                        yi as int,
                        i,
                    ) implies self.framebuffer.pixels@[i] == orig.pixels@[i] by {
                    if text_touches(orig, pre, xi as int, yi as int, i) {
                        let (px, py): (int, int) = choose|px: int, py: int|
                            orig.in_bounds(px, py) && text_covers(pre, xi as int, yi as int, px, py)
                                && #[trigger] orig.region_of(px, py, i);
                        let m = choose|m: int|
                            0 <= m < pre.len() && #[trigger] glyph_covers(
                                pre[m],
                                xi + GLYPH_WIDTH * m,
                                yi as int,
                                px,
                                py,
                            );
                        assert(glyph_covers(full[m], xi + GLYPH_WIDTH * m, yi as int, px, py));
                        assert(text_covers(full, xi as int, yi as int, px, py));
                        assert(text_touches(orig, full, xi as int, yi as int, i));
                    }
                }
            }
        }
    }

    /// Draws one line of text at the cursor, then starts a new line:
    /// the cursor returns to the left margin and moves down one line
    /// height, scrolling destructively when it would pass the bottom
    /// margin.  Every call is itself one line; wrapping longer text is
    /// the caller's concern.
    pub fn draw_text(&mut self, text: &[u8])
        requires
            old(self).wf(),
        ensures
            final(self).wf(),
            old(self).same_surface(*final(self)),
            final(self).current_color == old(self).current_color,
            final(self).line_height == old(self).line_height,
            final(self).cursor_x == LEFT_MARGIN,
            if old(self).cursor_y + old(self).line_height > old(self).framebuffer.height
                - BOTTOM_MARGIN {
                &&& final(self).cursor_y == TOP_MARGIN
                &&& old(self).screen_filled(
                    final(self).framebuffer.pixels@,
                    Color { r: 0, g: 0, b: 0 },
                )
            } else {
                &&& final(self).cursor_y == old(self).cursor_y + old(self).line_height
                &&& forall|px: int, py: int|
                    old(self).framebuffer.in_bounds(px, py) && text_covers(
                        text@,
                        old(self).cursor_x as int,
                        old(self).cursor_y as int,
                        px,
                        py,
                    ) ==> old(self).framebuffer.has_pixel(
                        final(self).framebuffer.pixels@,
                        px,
                        py,
                        old(self).current_color,
                    )
                &&& forall|i: int|
                    0 <= i < old(self).framebuffer.pixels@.len() && !text_touches(
                        old(self).framebuffer,
                        text@,
                        old(self).cursor_x as int,
                        old(self).cursor_y as int,
                        i,
                    ) ==> final(self).framebuffer.pixels@[i] == old(self).framebuffer.pixels@[i]
            },
    {
        let cx = self.cursor_x;
        let cy = self.cursor_y;
        self.draw_text_at(text, cx, cy);
        let ghost mid = *self;
        self.new_line();
        proof {
            if mid.cursor_y + mid.line_height > mid.framebuffer.height - BOTTOM_MARGIN {
                lemma_screen_filled_transfer(
                    *old(self),
                    mid,
                    self.framebuffer.pixels@,
                    Color { r: 0, g: 0, b: 0 },
                );
            }
        }
    }
}

/// Whether the axis-aligned rectangle with top-left corner `(x, y)`,
/// `w` columns and `h` rows covers `(px, py)`: every inner pixel when
/// filled, otherwise only the border of `STROKE_WIDTH` pixels.
pub open spec fn rect_covers(
    x: int,
    y: int,
    w: int,
    h: int,
    filled: bool,
    px: int,
    py: int,
) -> bool {
    &&& x <= px < x + w
    &&& y <= py < y + h
    &&& (filled || px < x + STROKE_WIDTH || px >= x + w - STROKE_WIDTH || py < y + STROKE_WIDTH
        || py >= y + h - STROKE_WIDTH)
}

/// `rect_covers` restricted to pixels before `(col, row)` in row-major
/// order; the painting loop's progress.
spec fn rect_covers_upto(
    x: int,
    y: int,
    w: int,
    h: int,
    filled: bool,
    row: int,
    col: int,
    qx: int,
    qy: int,
) -> bool {
    &&& rect_covers(x, y, w, h, filled, qx, qy)
    &&& (qy < row || (qy == row && qx < col))
}

/// Whether byte `i` of a surface shaped like `fb` belongs to a pixel
/// the rectangle paints.
pub open spec fn rect_touches(
    fb: FrameBuffer,
    x: int,
    y: int,
    w: int,
    h: int,
    filled: bool,
    i: int,
) -> bool {
    exists|qx: int, qy: int|
        fb.in_bounds(qx, qy) && rect_covers(x, y, w, h, filled, qx, qy) && #[trigger] fb.region_of(
            qx,
            qy,
            i,
        )
}

/// `rect_touches` restricted to pixels before `(col, row)`.
spec fn rect_touches_upto(
    fb: FrameBuffer,
    x: int,
    y: int,
    w: int,
    h: int,
    filled: bool,
    row: int,
    col: int,
    i: int,
) -> bool {
    exists|qx: int, qy: int|
        fb.in_bounds(qx, qy) && rect_covers_upto(x, y, w, h, filled, row, col, qx, qy)
            && #[trigger] fb.region_of(qx, qy, i)
}

impl GraphicsManager {
    /// Paints a rectangle in the current colour: every pixel of it
    /// when `filled`, otherwise only a border two pixels wide.  Both
    /// forms clip against the surface; nothing outside the rectangle
    /// is touched.
    pub fn draw_rect(&mut self, x: i32, y: i32, width: u32, height: u32, filled: bool)
        requires
            old(self).wf(),
        ensures
            final(self).wf(),
            old(self).same_surface(*final(self)),
            final(self).current_color == old(self).current_color,
            final(self).cursor_x == old(self).cursor_x,
            final(self).cursor_y == old(self).cursor_y,
            final(self).line_height == old(self).line_height,
            forall|px: int, py: int|
                old(self).framebuffer.in_bounds(px, py) && rect_covers(
                    x as int,
                    y as int,
                    width as int,
                    height as int,
                    filled,
                    px,
                    py,
                ) ==> old(self).framebuffer.has_pixel(
                    final(self).framebuffer.pixels@,
                    px,
                    py,
                    old(self).current_color,
                ),
            forall|i: int|
                0 <= i < old(self).framebuffer.pixels@.len() && !rect_touches(
                    old(self).framebuffer,
                    x as int,
                    y as int,
                    width as int,
                    height as int,
                    filled,
                    i,
                ) ==> final(self).framebuffer.pixels@[i] == old(self).framebuffer.pixels@[i],
    {
        let ghost orig = self.framebuffer;
        let ghost cx0 = self.cursor_x;
        let ghost cy0 = self.cursor_y;
        let ghost lh0 = self.line_height;
        let ghost xi = x as int;
        let ghost yi = y as int;
        let ghost wi = width as int;
        let ghost hi = height as int;
        let ink = self.current_color;
        let x64: i64 = x as i64;
        let y64: i64 = y as i64;
        let x0: i64 = if x64 > 0 {
            x64
        } else {
            0
        };
        let y0: i64 = if y64 > 0 {
            y64
        } else {
            0
        };
        let xr: i64 = x64 + width as i64;
        let yr: i64 = y64 + height as i64;
        let x1: i64 = if xr < self.framebuffer.width as i64 {
            xr
        } else {
            self.framebuffer.width as i64
        };
        let y1: i64 = if yr < self.framebuffer.height as i64 {
            yr
        } else {
            self.framebuffer.height as i64
        };
        let mut py: i64 = y0;
        proof {
            assert forall|qx: int, qy: int|
                orig.in_bounds(qx, qy) && rect_covers_upto(
                    xi,
                    yi,
                    wi,
                    hi,
                    filled,
                    py as int,
                    x0 as int,
                    qx,
                    qy,
                ) implies orig.has_pixel(self.framebuffer.pixels@, qx, qy, ink) by {
                assert(qy >= 0 && qy >= yi);
                assert(false);
            }
        }
        while py < y1
            invariant
                self.framebuffer.wf(),
                self.framebuffer.width == orig.width,
                self.framebuffer.height == orig.height,
                self.framebuffer.bytes_per_pixel == orig.bytes_per_pixel,
                self.framebuffer.pitch == orig.pitch,
                self.framebuffer.order == orig.order,
                self.framebuffer.pixels@.len() == orig.pixels@.len(),
                self.current_color == ink,
                self.cursor_x == cx0,
                self.cursor_y == cy0,
                self.line_height == lh0,
                xi == x as int && yi == y as int && wi == width as int && hi == height as int,
                x64 == xi && y64 == yi && xr == xi + wi && yr == yi + hi,
                x0 == if xi > 0 { xi } else { 0 },
                y0 == if yi > 0 { yi } else { 0 },
                x1 == if xi + wi < orig.width as int { xi + wi } else { orig.width as int },
                y1 == if yi + hi < orig.height as int { yi + hi } else { orig.height as int },
                y0 <= py,
                py <= y1 || py == y0,
                forall|qx: int, qy: int|
                    orig.in_bounds(qx, qy) && rect_covers_upto(
                        xi,
                        yi,
                        wi,
                        hi,
                        filled,
                        py as int,
                        x0 as int,
                        qx,
                        qy,
                    ) ==> orig.has_pixel(self.framebuffer.pixels@, qx, qy, ink),
                forall|i: int|
                    0 <= i < orig.pixels@.len() && !rect_touches_upto(
                        orig,
                        xi,
                        yi,
                        wi,
                        hi,
                        filled,
                        py as int,
                        x0 as int,
                        i,
                    ) ==> self.framebuffer.pixels@[i] == orig.pixels@[i],
            decreases y1 - py,
        {
            let mut px: i64 = x0;
            while px < x1
                invariant
                    self.framebuffer.wf(),
                    self.framebuffer.width == orig.width,
                    self.framebuffer.height == orig.height,
                    self.framebuffer.bytes_per_pixel == orig.bytes_per_pixel,
                    self.framebuffer.pitch == orig.pitch,
                    self.framebuffer.order == orig.order,
                    self.framebuffer.pixels@.len() == orig.pixels@.len(),
                    self.current_color == ink,
                    self.cursor_x == cx0,
                    self.cursor_y == cy0,
                    self.line_height == lh0,
                    xi == x as int && yi == y as int && wi == width as int && hi == height as int,
                    x64 == xi && y64 == yi && xr == xi + wi && yr == yi + hi,
                    x0 == if xi > 0 { xi } else { 0 },
                    y0 == if yi > 0 { yi } else { 0 },
                    x1 == if xi + wi < orig.width as int { xi + wi } else { orig.width as int },
                    y1 == if yi + hi < orig.height as int { yi + hi } else { orig.height as int },
                    y0 <= py < y1,
                    x0 <= px,
                    px <= x1 || px == x0,
                    forall|qx: int, qy: int|
                        orig.in_bounds(qx, qy) && rect_covers_upto(
                            xi,
                            yi,
                            wi,
                            hi,
                            filled,
                            py as int,
                            px as int,
                            qx,
                            qy,
                        ) ==> orig.has_pixel(self.framebuffer.pixels@, qx, qy, ink),
                    forall|i: int|
                        0 <= i < orig.pixels@.len() && !rect_touches_upto(
                            orig,
                            xi,
                            yi,
                            wi,
                            hi,
                            filled,
                            py as int,
                            px as int,
                            i,
                        ) ==> self.framebuffer.pixels@[i] == orig.pixels@[i],
                decreases x1 - px,
            {
                let on_border = px < x64 + STROKE_WIDTH as i64 || px >= xr - STROKE_WIDTH as i64
                    || py < y64 + STROKE_WIDTH as i64 || py >= yr - STROKE_WIDTH as i64;
                let ghost pyi = py as int;
                let ghost pxi = px as int;
                if filled || on_border {
                    let ghost mid = self.framebuffer;
                    self.framebuffer.write_pixel(px as i32, py as i32, ink);
                    proof {
                        orig.lemma_offset_in_surface(pxi, pyi);
                        assert(rect_covers(xi, yi, wi, hi, filled, pxi, pyi));
                        assert forall|qx: int, qy: int|
                            orig.in_bounds(qx, qy) && rect_covers_upto(
                                xi,
                                yi,
                                wi,
                                hi,
                                filled,
                                pyi,
                                pxi + 1,
                                qx,
                                qy,
                            ) implies orig.has_pixel(self.framebuffer.pixels@, qx, qy, ink) by {
                            orig.lemma_offset_in_surface(qx, qy);
                            if qx == pxi && qy == pyi {
                                assert forall|k: int| 0 <= k < orig.bytes_per_pixel implies
                                    self.framebuffer.pixels@[orig.spec_offset(qx, qy) + k]
                                    == #[trigger] spec_pixel_bytes(
                                    orig.bytes_per_pixel,
                                    orig.order,
                                    ink,
                                )[k] by {
                                    assert(mid.region_of(pxi, pyi, orig.spec_offset(qx, qy) + k));
                                }
                            } else {
                                orig.lemma_regions_disjoint(qx, qy, pxi, pyi);
                                assert(rect_covers_upto(xi, yi, wi, hi, filled, pyi, pxi, qx, qy));
                                assert(orig.has_pixel(mid.pixels@, qx, qy, ink));
                                assert forall|k: int| 0 <= k < orig.bytes_per_pixel implies
                                    self.framebuffer.pixels@[orig.spec_offset(qx, qy) + k]
                                    == #[trigger] spec_pixel_bytes(
                                    orig.bytes_per_pixel,
                                    orig.order,
                                    ink,
                                )[k] by {
                                    assert(!mid.region_of(pxi, pyi, orig.spec_offset(qx, qy) + k));
                                    assert(self.framebuffer.pixels@[orig.spec_offset(qx, qy) + k]
                                        == mid.pixels@[orig.spec_offset(qx, qy) + k]);
                                }
                            }
                        }
                        assert forall|i: int|
                            0 <= i < orig.pixels@.len() && !rect_touches_upto(
                                orig,
                                xi,
                                yi,
                                wi,
                                hi,
                                filled,
                                pyi,
                                pxi + 1,
                                i,
                            ) implies self.framebuffer.pixels@[i] == orig.pixels@[i] by {
                            if orig.region_of(pxi, pyi, i) {
                                assert(rect_covers_upto(
                                    xi,
                                    yi,
                                    wi,
                                    hi,
                                    filled,
                                    pyi,
                                    pxi + 1,
                                    pxi,
                                    pyi,
                                ));
                                assert(rect_touches_upto(
                                    orig,
                                    xi,
                                    yi,
                                    wi,
                                    hi,
                                    filled,
                                    pyi,
                                    pxi + 1,
                                    i,
                                ));
                            }
                            assert(!mid.region_of(pxi, pyi, i));
                            if rect_touches_upto(orig, xi, yi, wi, hi, filled, pyi, pxi, i) {
                                let (qx, qy): (int, int) = choose|qx: int, qy: int|
                                    orig.in_bounds(qx, qy) && rect_covers_upto(
                                        xi,
                                        yi,
                                        wi,
                                        hi,
                                        filled,
                                        pyi,
                                        pxi,
                                        qx,
                                        qy,
                                    ) && #[trigger] orig.region_of(qx, qy, i);
                                assert(rect_covers_upto(
                                    xi,
                                    yi,
                                    wi,
                                    hi,
                                    filled,
                                    pyi,
                                    pxi + 1,
                                    qx,
                                    qy,
                                ));
                                assert(rect_touches_upto(
                                    orig,
                                    xi,
                                    yi,
                                    wi,
                                    hi,
                                    filled,
                                    pyi,
                                    pxi + 1,
                                    i,
                                ));
                            }
                            assert(self.framebuffer.pixels@[i] == mid.pixels@[i]);
                        }
                    }
                } else {
                    proof {
                        assert(!rect_covers(xi, yi, wi, hi, filled, pxi, pyi));
                        assert forall|qx: int, qy: int|
                            orig.in_bounds(qx, qy) && rect_covers_upto(
                                xi,
                                yi,
                                wi,
                                hi,
                                filled,
                                pyi,
                                pxi + 1,
                                qx,
                                qy,
                            ) implies orig.has_pixel(self.framebuffer.pixels@, qx, qy, ink) by {
                            assert(rect_covers_upto(xi, yi, wi, hi, filled, pyi, pxi, qx, qy));
                        }
                        assert forall|i: int|
                            0 <= i < orig.pixels@.len() && !rect_touches_upto(
                                orig,
                                xi,
                                yi,
                                wi,
                                hi,
                                filled,
                                pyi,
                                pxi + 1,
                                i,
                            ) implies self.framebuffer.pixels@[i] == orig.pixels@[i] by {
                            if rect_touches_upto(orig, xi, yi, wi, hi, filled, pyi, pxi, i) {
                                let (qx, qy): (int, int) = choose|qx: int, qy: int|
                                    orig.in_bounds(qx, qy) && rect_covers_upto(
                                        xi,
                                        yi,
                                        wi,
                                        hi,
                                        filled,
                                        pyi,
                                        pxi,
                                        qx,
                                        qy,
                                    ) && #[trigger] orig.region_of(qx, qy, i);
                                assert(rect_covers_upto(
                                    xi,
                                    yi,
                                    wi,
                                    hi,
                                    filled,
                                    pyi,
                                    pxi + 1,
                                    qx,
                                    qy,
                                ));
                                assert(rect_touches_upto(
                                    orig,
                                    xi,
                                    yi,
                                    wi,
                                    hi,
                                    filled,
                                    pyi,
                                    pxi + 1,
                                    i,
                                ));
                            }
                        }
                    }
                }
                px = px + 1;
            }
            proof {
                let pyi = py as int;
                assert forall|qx: int, qy: int|
                    orig.in_bounds(qx, qy) && rect_covers_upto(
                        xi,
                        yi,
                        wi,
                        hi,
                        filled,
                        pyi + 1,
                        x0 as int,
                        qx,
                        qy,
                    ) implies orig.has_pixel(self.framebuffer.pixels@, qx, qy, ink) by {
                    assert(qx < xi + wi && qx < orig.width as int);
                    assert(rect_covers_upto(xi, yi, wi, hi, filled, pyi, x1 as int, qx, qy));
                }
                assert forall|i: int|
                    0 <= i < orig.pixels@.len() && !rect_touches_upto(
                        orig,
                        xi,
                        yi,
                        wi,
                        hi,
                        filled,
                        pyi + 1,
                        x0 as int,
                        i,
                    ) implies self.framebuffer.pixels@[i] == orig.pixels@[i] by {
                    if rect_touches_upto(orig, xi, yi, wi, hi, filled, pyi, x1 as int, i) {
                        let (qx, qy): (int, int) = choose|qx: int, qy: int|
                            orig.in_bounds(qx, qy) && rect_covers_upto(
                                xi,
                                yi,
                                wi,
                                hi,
                                filled,
                                pyi,
                                x1 as int,
                                qx,
                                qy,
                            ) && #[trigger] orig.region_of(qx, qy, i);
                        assert(rect_covers_upto(
                            xi,
                            yi,
                            wi,
                            hi,
                            filled,
                            pyi + 1,
                            x0 as int,
                            qx,
                            qy,
                        ));
                        assert(rect_touches_upto(
                            orig,
                            xi,
                            yi,
                            wi,
                            hi,
                            filled,
                            pyi + 1,
                            x0 as int,
                            i,
                        ));
                    }
                }
            }
            py = py + 1;
        }
        proof {
            assert forall|qx: int, qy: int|
                orig.in_bounds(qx, qy) && rect_covers(xi, yi, wi, hi, filled, qx, qy) implies
                orig.has_pixel(self.framebuffer.pixels@, qx, qy, ink) by {
                assert(qy < yi + hi && qy < orig.height as int);
                assert(qy < y1 <= py);
                assert(rect_covers_upto(xi, yi, wi, hi, filled, py as int, x0 as int, qx, qy));
            }
            assert forall|i: int|
                0 <= i < orig.pixels@.len() && !rect_touches(
                    orig,
                    xi,
                    yi,
                    wi,
                    hi,
                    filled,
                    i,
                ) implies self.framebuffer.pixels@[i] == orig.pixels@[i] by {
                if rect_touches_upto(orig, xi, yi, wi, hi, filled, py as int, x0 as int, i) {
                    let (qx, qy): (int, int) = choose|qx: int, qy: int|
                        orig.in_bounds(qx, qy) && rect_covers_upto(
                            xi,
                            yi,
                            wi,
                            hi,
                            filled,
                            py as int,
                            x0 as int,
                            qx,
                            qy,
                        ) && #[trigger] orig.region_of(qx, qy, i);
                    assert(rect_touches(orig, xi, yi, wi, hi, filled, i));
                }
            }
        }
    }

    /// The welcome screen: a cleared surface with the title block, a
    /// decorative border and a small logo, leaving the colour white
    /// and the cursor at the start of the content area — one line
    /// height groups below the top margin when the screen is tall
    /// enough, else the top margin itself.
    pub fn show_splash_screen(&mut self)
        requires
            old(self).wf(),
        ensures
            final(self).wf(),
            old(self).same_surface(*final(self)),
            final(self).line_height == old(self).line_height,
            final(self).current_color == (Color { r: 255, g: 255, b: 255 }),
            final(self).cursor_x == LEFT_MARGIN,
            final(self).cursor_y == if 420 <= old(self).framebuffer.height - BOTTOM_MARGIN {
                420
            } else {
                TOP_MARGIN
            },
    {
        self.clear_screen();

        // Title block.
        self.set_color(Color { r: 0, g: 100, b: 255 });
        let title: [u8; 14] = [70, 101, 114, 114, 111, 79, 83, 32, 77, 111, 98, 105, 108, 101];
        self.draw_text_at(title.as_slice(), 280, 100);
        self.set_color(Color { r: 255, g: 255, b: 255 });
        let subtitle: [u8; 23] = [
            78, 97, 116, 105, 118, 101, 32, 79, 112, 101, 114, 97, 116, 105, 110, 103, 32, 83, 121,
            115, 116, 101, 109,
        ];
        self.draw_text_at(subtitle.as_slice(), 230, 140);
        self.set_color(Color { r: 0, g: 255, b: 0 });
        let version: [u8; 26] = [
            118, 49, 46, 48, 46, 48, 32, 45, 32, 90, 101, 114, 111, 32, 68, 101, 112, 101, 110,
            100, 101, 110, 99, 105, 101, 115,
        ];
        self.draw_text_at(version.as_slice(), 220, 180);

        // Decorative border, inset from every edge.
        self.set_color(Color { r: 128, g: 0, b: 128 });
        let border_w = if self.framebuffer.width > 100 {
            self.framebuffer.width - 100
        } else {
            0
        };
        let border_h = if self.framebuffer.height > 100 {
            self.framebuffer.height - 100
        } else {
            0
        };
        self.draw_rect(50, 50, border_w, border_h, false);

        // A small box logo.
        self.set_color(Color { r: 255, g: 165, b: 0 });
        self.draw_rect(320, 280, 80, 80, false);

        // Leave the cursor at the start of the content area.
        self.set_color(Color { r: 255, g: 255, b: 255 });
        self.cursor_x = LEFT_MARGIN;
        if 420 <= self.framebuffer.height as i64 - BOTTOM_MARGIN as i64 {
            self.cursor_y = 420;
        } else {
            self.cursor_y = TOP_MARGIN;
        }
    }
}

/// The cursor row never leaves the band between the margins: every
/// operation of a well-formed surface keeps
/// `TOP_MARGIN <= cursor_y <= height - BOTTOM_MARGIN`, however many
/// lines of whatever length have been drawn.
pub proof fn lemma_cursor_stays_in_band(g: GraphicsManager)
    requires
        g.wf(),
    ensures
        TOP_MARGIN <= g.cursor_y,
        g.cursor_y <= g.framebuffer.height - BOTTOM_MARGIN,
{
}

} // verus!
