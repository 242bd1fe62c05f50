//! The application runner: recognizes a packaged application image,
//! digs the embedded script out of it, and drives the drawing
//! interface from the script's commands.
//!
//! Scripts are handled as plain bytes throughout: a command line is a
//! function name, a parenthesized comma-separated parameter list, and
//! nothing after the closing parenthesis.

use vstd::prelude::*;
use crate::colors::{bytes_eq, parse_color, spec_color_named};
use crate::framebuffer::Color;
use crate::graphics::{
    GraphicsManager, text_covers, text_touches, rect_covers, rect_touches, BOTTOM_MARGIN,
    LEFT_MARGIN, TOP_MARGIN,
};

verus! {

/// The bytes of each command name the script interface knows.
pub open spec fn spec_name_clear_screen() -> Seq<u8> {
    seq![99u8, 108, 101, 97, 114, 95, 115, 99, 114, 101, 101, 110]
}

pub open spec fn spec_name_set_color() -> Seq<u8> {
    seq![115u8, 101, 116, 95, 99, 111, 108, 111, 114]
}

pub open spec fn spec_name_draw_text() -> Seq<u8> {
    seq![100u8, 114, 97, 119, 95, 116, 101, 120, 116]
}

pub open spec fn spec_name_draw_text_at() -> Seq<u8> {
    seq![100u8, 114, 97, 119, 95, 116, 101, 120, 116, 95, 97, 116]
}

pub open spec fn spec_name_draw_rect() -> Seq<u8> {
    seq![100u8, 114, 97, 119, 95, 114, 101, 99, 116]
}

/// The literal a filled-rectangle flag is compared against.
pub open spec fn spec_true_bytes() -> Seq<u8> {
    seq![116u8, 114, 117, 101]
}

/// What a screen clear leaves behind: cursor home, colour kept, every
/// visible pixel black.
pub open spec fn spec_cleared_effects(g0: GraphicsManager, g1: GraphicsManager) -> bool {
    &&& g1.cursor_x == LEFT_MARGIN
    &&& g1.cursor_y == TOP_MARGIN
    &&& g1.current_color == g0.current_color
    &&& g1.line_height == g0.line_height
    &&& g0.screen_filled(g1.framebuffer.pixels@, Color { r: 0, g: 0, b: 0 })
}

/// What one text line drawn at the cursor leaves behind: the glyph
/// pixels painted and the cursor advanced, or a scroll when the new
/// row would pass the bottom margin.
pub open spec fn spec_text_line_effects(
    g0: GraphicsManager,
    g1: GraphicsManager,
    t: Seq<u8>,
) -> bool {
    &&& g1.current_color == g0.current_color
    &&& g1.line_height == g0.line_height
    &&& g1.cursor_x == LEFT_MARGIN
    &&& if g0.cursor_y + g0.line_height > g0.framebuffer.height - BOTTOM_MARGIN {
        &&& g1.cursor_y == TOP_MARGIN
        &&& g0.screen_filled(g1.framebuffer.pixels@, Color { r: 0, g: 0, b: 0 })
    } else {
        &&& g1.cursor_y == g0.cursor_y + g0.line_height
        &&& forall|px: int, py: int|
            g0.framebuffer.in_bounds(px, py) && text_covers(
                t,
                g0.cursor_x as int,
                g0.cursor_y as int,
                px,
                py,
            ) ==> g0.framebuffer.has_pixel(g1.framebuffer.pixels@, px, py, g0.current_color)
        &&& forall|i: int|
            0 <= i < g0.framebuffer.pixels@.len() && !text_touches(
                g0.framebuffer,
                t,
                g0.cursor_x as int,
                g0.cursor_y as int,
                i,
            ) ==> g1.framebuffer.pixels@[i] == g0.framebuffer.pixels@[i]
    }
}

/// What text placed at `(x, y)` leaves behind: the glyph pixels
/// painted, everything else — cursor included — untouched.
pub open spec fn spec_text_at_effects(
    g0: GraphicsManager,
    g1: GraphicsManager,
    t: Seq<u8>,
    x: int,
    y: int,
) -> bool {
    &&& g1.current_color == g0.current_color
    &&& g1.cursor_x == g0.cursor_x
    &&& g1.cursor_y == g0.cursor_y
    &&& g1.line_height == g0.line_height
    &&& forall|px: int, py: int|
        g0.framebuffer.in_bounds(px, py) && text_covers(t, x, y, px, py)
            ==> g0.framebuffer.has_pixel(g1.framebuffer.pixels@, px, py, g0.current_color)
    &&& forall|i: int|
        0 <= i < g0.framebuffer.pixels@.len() && !text_touches(g0.framebuffer, t, x, y, i)
            ==> g1.framebuffer.pixels@[i] == g0.framebuffer.pixels@[i]
}

/// What a rectangle leaves behind: its covered pixels painted,
/// everything else untouched.
pub open spec fn spec_rect_effects(
    g0: GraphicsManager,
    g1: GraphicsManager,
    x: int,
    y: int,
    w: int,
    h: int,
    filled: bool,
) -> bool {
    &&& g1.current_color == g0.current_color
    &&& g1.cursor_x == g0.cursor_x
    &&& g1.cursor_y == g0.cursor_y
    &&& g1.line_height == g0.line_height
    &&& forall|px: int, py: int|
        g0.framebuffer.in_bounds(px, py) && rect_covers(x, y, w, h, filled, px, py)
            ==> g0.framebuffer.has_pixel(g1.framebuffer.pixels@, px, py, g0.current_color)
    &&& forall|i: int|
        0 <= i < g0.framebuffer.pixels@.len() && !rect_touches(g0.framebuffer, x, y, w, h, filled, i)
            ==> g1.framebuffer.pixels@[i] == g0.framebuffer.pixels@[i]
}

/// What one command line does to the surface.  The first recognized
/// call form decides; a recognized call with unusable parameters, or
/// a line that is no call at all, changes nothing.  A `draw_text_at`
/// line is caught by the `draw_text` form first, as its name starts
/// the other's: the first parameter is then drawn at the cursor.
pub open spec fn spec_command_effects(
    line: Seq<u8>,
    g0: GraphicsManager,
    g1: GraphicsManager,
) -> bool {
    match spec_params_of(line, spec_name_clear_screen()) {
        Some(ps) => if ps.len() == 0 {
            spec_cleared_effects(g0, g1)
        } else {
            g1 == g0
        },
        None => match spec_params_of(line, spec_name_set_color()) {
            Some(ps) => if ps.len() >= 1 {
                g1 == (GraphicsManager { current_color: spec_color_named(ps[0]), ..g0 })
            } else {
                g1 == g0
            },
            None => match spec_params_of(line, spec_name_draw_text()) {
                Some(ps) => if ps.len() >= 1 {
                    spec_text_line_effects(g0, g1, ps[0])
                } else {
                    g1 == g0
                },
                None => match spec_params_of(line, spec_name_draw_text_at()) {
                    Some(ps) => if ps.len() >= 3 {
                        match (spec_parse_i32(ps[1]), spec_parse_i32(ps[2])) {
                            (Some(x), Some(y)) => spec_text_at_effects(
                                g0,
                                g1,
                                ps[0],
                                x as int,
                                y as int,
                            ),
                            _ => g1 == g0,
                        }
                    } else {
                        g1 == g0
                    },
                    None => match spec_params_of(line, spec_name_draw_rect()) {
                        Some(ps) => if ps.len() >= 5 {
                            match (
                                spec_parse_i32(ps[0]),
                                spec_parse_i32(ps[1]),
                                spec_parse_u32(ps[2]),
                                spec_parse_u32(ps[3]),
                            ) {
                                (Some(x), Some(y), Some(w), Some(h)) => spec_rect_effects(
                                    g0,
                                    g1,
                                    x as int,
                                    y as int,
                                    w as int,
                                    h as int,
                                    ps[4] == spec_true_bytes(),
                                ),
                                _ => g1 == g0,
                            }
                        } else {
                            g1 == g0
                        },
                        None => g1 == g0,
                    },
                },
            },
        },
    }
}

/// The image magic: a zero byte, then `asm`.
pub open spec fn spec_valid_wasm(d: Seq<u8>) -> bool {
    d.len() >= 4 && d[0] == 0 && d[1] == 0x61 && d[2] == 0x73 && d[3] == 0x6d
}

/// The byte pattern that betrays an embedded script: `print(`.
pub open spec fn spec_print_pattern() -> Seq<u8> {
    seq![112u8, 114, 105, 110, 116, 40]
}

/// The first position strictly before `len - 6` where the pattern
/// starts, scanning from `i`.
pub open spec fn spec_first_print(d: Seq<u8>, i: int) -> Option<int>
    decreases d.len() - i,
{
    if i < 0 || i + 6 >= d.len() {
        None
    } else if d.subrange(i, i + 6) == spec_print_pattern() {
        Some(i)
    } else {
        spec_first_print(d, i + 1)
    }
}

/// Whether the pattern occurs anywhere in `s`.
pub open spec fn spec_contains_print(s: Seq<u8>) -> bool {
    exists|i: int|
        0 <= i && i + 6 <= s.len() && #[trigger] s.subrange(i, i + 6) == spec_print_pattern()
}

/// Walks backwards from `p` to the position right after the nearest
/// zero byte, or to the start of the data.
pub open spec fn spec_back_boundary(d: Seq<u8>, p: int) -> int
    decreases p,
{
    if p <= 0 {
        0
    } else if d[p - 1] == 0 {
        p
    } else {
        spec_back_boundary(d, p - 1)
    }
}

/// Walks forward from `e` to the first zero byte that lies more than
/// a hundred positions past `start`, or to the end of the data.
pub open spec fn spec_fwd_end(d: Seq<u8>, start: int, e: int) -> int
    decreases d.len() - e,
{
    if e < 0 || e >= d.len() {
        e
    } else if d[e] == 0 && e > start + 100 {
        e
    } else {
        spec_fwd_end(d, start, e + 1)
    }
}

proof fn lemma_back_boundary_range(d: Seq<u8>, p: int)
    requires
        0 <= p,
    ensures
        0 <= spec_back_boundary(d, p) <= p,
    decreases p,
{
    if p > 0 && d[p - 1] != 0 {
        lemma_back_boundary_range(d, p - 1);
    }
}

proof fn lemma_fwd_end_range(d: Seq<u8>, start: int, e: int)
    requires
        0 <= e <= d.len(),
    ensures
        e <= spec_fwd_end(d, start, e) <= d.len(),
    decreases d.len() - e,
{
    if e < d.len() && !(d[e] == 0 && e > start + 100) {
        lemma_fwd_end_range(d, start, e + 1);
    }
}

/// The script found around position `start`: everything between the
/// enclosing zero bytes, provided it still holds the pattern and is
/// longer than twenty bytes.
pub open spec fn spec_script_at(d: Seq<u8>, start: int) -> Option<Seq<u8>> {
    let s = spec_back_boundary(d, start);
    let e = spec_fwd_end(d, start, start);
    let script = d.subrange(s, e);
    if spec_contains_print(script) && script.len() > 20 {
        Some(script)
    } else {
        None
    }
}

/// The script embedded in an image: the region around the first
/// occurrence of the pattern, if any qualifies.
pub open spec fn spec_extract_lua(d: Seq<u8>) -> Option<Seq<u8>> {
    match spec_first_print(d, 0) {
        None => None,
        Some(i) => spec_script_at(d, i),
    }
}

/// Whether the six pattern bytes stand at position `i` of `s`.
fn print_pattern_at(s: &[u8], i: usize) -> (r: bool)
    requires
        i + 6 <= s@.len(),
    ensures
        r == (s@.subrange(i as int, i + 6) == spec_print_pattern()),
{
    let hit = s[i] == 112 && s[i + 1] == 114 && s[i + 2] == 105 && s[i + 3] == 110 && s[i + 4]
        == 116 && s[i + 5] == 40;
    proof {
        if hit {
            assert(s@.subrange(i as int, i + 6) =~= spec_print_pattern());
        } else {
            assert(s@.subrange(i as int, i + 6) != spec_print_pattern()) by {
                if s@.subrange(i as int, i + 6) == spec_print_pattern() {
                    assert(s@[i as int] == spec_print_pattern()[0]);
                    assert(s@[i + 1] == spec_print_pattern()[1]);
                    assert(s@[i + 2] == spec_print_pattern()[2]);
                    assert(s@[i + 3] == spec_print_pattern()[3]);
                    assert(s@[i + 4] == spec_print_pattern()[4]);
                    assert(s@[i + 5] == spec_print_pattern()[5]);
                }
            }
        }
    }
    hit
}

/// Whether the pattern occurs anywhere in `s`.
fn contains_print(s: &[u8]) -> (r: bool)
    ensures
        r == spec_contains_print(s@),
{
    let n = s.len();
    if n < 6 {
        return false;
    }
    let mut i: usize = 0;
    while i <= n - 6
        invariant
            n == s@.len(),
            6 <= n,
            0 <= i <= n - 5,
            forall|j: int| 0 <= j < i ==> #[trigger] s@.subrange(j, j + 6) != spec_print_pattern(),
        decreases n - i,
    {
        if print_pattern_at(s, i) {
            return true;
        }
        i = i + 1;
    }
    false
}

/// Renders a numeral: every byte an ASCII digit.
pub open spec fn spec_all_digits(s: Seq<u8>) -> bool {
    forall|i: int| 0 <= i < s.len() ==> 48 <= #[trigger] s[i] <= 57
}

/// The value of a digit string, most significant digit first.
pub open spec fn spec_digits_value(s: Seq<u8>) -> int
    decreases s.len(),
{
    if s.len() == 0 {
        0
    } else {
        spec_digits_value(s.drop_last()) * 10 + (s[s.len() - 1] - 48)
    }
}

proof fn lemma_digits_value_nonneg(s: Seq<u8>)
    requires
        spec_all_digits(s),
    ensures
        spec_digits_value(s) >= 0,
    decreases s.len(),
{
    if s.len() > 0 {
        assert(spec_all_digits(s.drop_last()));
        lemma_digits_value_nonneg(s.drop_last());
    }
}

/// More digits never shrink the value.
proof fn lemma_digits_value_mono(s: Seq<u8>, k: int)
    requires
        spec_all_digits(s),
        0 <= k <= s.len(),
    ensures
        spec_digits_value(s) >= spec_digits_value(s.subrange(0, k)),
    decreases s.len() - k,
{
    if k == s.len() {
        assert(s.subrange(0, k) =~= s);
    } else {
        assert(s.subrange(0, k + 1).drop_last() =~= s.subrange(0, k));
        assert(spec_all_digits(s.subrange(0, k)));
        lemma_digits_value_nonneg(s.subrange(0, k));
        assert(spec_digits_value(s.subrange(0, k + 1)) == spec_digits_value(s.subrange(0, k)) * 10
            + (s[k] - 48));
        lemma_digits_value_mono(s, k + 1);
    }
}

/// The signed number a byte string denotes: an optional sign, then
/// one or more digits, with a value in range — exactly the strings
/// the standard integer parser accepts.
pub open spec fn spec_parse_i32(s: Seq<u8>) -> Option<i32> {
    let neg = s.len() > 0 && s[0] == 45;
    let body = if s.len() > 0 && (s[0] == 43 || s[0] == 45) {
        s.drop_first()
    } else {
        s
    };
    if body.len() > 0 && spec_all_digits(body) {
        let v = spec_digits_value(body);
        if neg {
            if v <= 0x8000_0000 {
                Some((-v) as i32)
            } else {
                None
            }
        } else {
            if v <= 0x7FFF_FFFF {
                Some(v as i32)
            } else {
                None
            }
        }
    } else {
        None
    }
}

/// The unsigned number a byte string denotes: an optional plus sign,
/// then one or more digits, with a value in range.
pub open spec fn spec_parse_u32(s: Seq<u8>) -> Option<u32> {
    let body = if s.len() > 0 && s[0] == 43 {
        s.drop_first()
    } else {
        s
    };
    if s.len() > 0 && s[0] == 45 {
        None
    } else if body.len() > 0 && spec_all_digits(body) && spec_digits_value(body) <= 0xFFFF_FFFF {
        Some(spec_digits_value(body) as u32)
    } else {
        None
    }
}

/// Reads the digits of `s` from `from` on, as long as the running
/// value stays within `cap`; reports the value, a malformed digit, or
/// an overflow past `cap`.
fn digits_value_capped(s: &[u8], from: usize, cap: u64) -> (r: Option<Option<u64>>)
    requires
        from <= s@.len(),
        cap <= 0x1_0000_0000,
    ensures
        ({
            let body = s@.subrange(from as int, s@.len() as int);
            match r {
                None => !(body.len() > 0 && spec_all_digits(body)),
                Some(None) => body.len() > 0 && (spec_all_digits(body) ==> spec_digits_value(body)
                    > cap),
                Some(Some(v)) => body.len() > 0 && spec_all_digits(body) && spec_digits_value(body)
                    == v && v <= cap,
            }
        }),
{
    let ghost body = s@.subrange(from as int, s@.len() as int);
    let n = s.len();
    if from == n {
        return None;
    }
    let mut acc: u64 = 0;
    let mut i: usize = from;
    while i < n
        invariant
            from <= i <= n,
            n == s@.len(),
            from < n,
            cap <= 0x1_0000_0000,
            body == s@.subrange(from as int, s@.len() as int),
            spec_all_digits(s@.subrange(from as int, i as int)),
            acc == spec_digits_value(s@.subrange(from as int, i as int)),
            acc <= cap,
        decreases n - i,
    {
        let d = s[i];
        if d < 48 || d > 57 {
            proof {
                assert(body[i - from] == s@[i as int]);
                assert(!spec_all_digits(body));
            }
            return None;
        }
        proof {
            assert(s@.subrange(from as int, i + 1).drop_last() =~= s@.subrange(
                from as int,
                i as int,
            ));
            assert(spec_all_digits(s@.subrange(from as int, i + 1)));
        }
        let next: u64 = acc * 10 + (d - 48) as u64;
        if next > cap {
            proof {
                if spec_all_digits(body) {
                    assert(body.subrange(0, i + 1 - from) =~= s@.subrange(from as int, i + 1));
                    lemma_digits_value_mono(body, i + 1 - from);
                }
            }
            return Some(None);
        }
        acc = next;
        i = i + 1;
    }
    proof {
        assert(s@.subrange(from as int, n as int) =~= body);
    }
    Some(Some(acc))
}

/// Parses a signed 32-bit numeral, exactly as the standard library
/// parser would.
pub fn parse_i32(s: &[u8]) -> (r: Option<i32>)
    ensures
        r == spec_parse_i32(s@),
{
    let n = s.len();
    if n == 0 {
        return None;
    }
    let neg = s[0] == 45;
    let from: usize = if s[0] == 43 || s[0] == 45 {
        1
    } else {
        0
    };
    proof {
        if from == 1 {
            assert(s@.subrange(1, n as int) =~= s@.drop_first());
        } else {
            assert(s@.subrange(0, n as int) =~= s@);
        }
    }
    let cap: u64 = if neg {
        0x8000_0000
    } else {
        0x7FFF_FFFF
    };
    match digits_value_capped(s, from, cap) {
        None => None,
        Some(None) => None,
        Some(Some(v)) => {
            if neg {
                Some((-(v as i64)) as i32)
            } else {
                Some(v as i32)
            }
        },
    }
}

/// Parses an unsigned 32-bit numeral, exactly as the standard library
/// parser would.
pub fn parse_u32(s: &[u8]) -> (r: Option<u32>)
    ensures
        r == spec_parse_u32(s@),
{
    let n = s.len();
    if n == 0 {
        return None;
    }
    if s[0] == 45 {
        return None;
    }
    let from: usize = if s[0] == 43 {
        1
    } else {
        0
    };
    proof {
        if from == 1 {
            assert(s@.subrange(1, n as int) =~= s@.drop_first());
        } else {
            assert(s@.subrange(0, n as int) =~= s@);
        }
    }
    match digits_value_capped(s, from, 0xFFFF_FFFF) {
        None => None,
        Some(None) => None,
        Some(Some(v)) => Some(v as u32),
    }
}

/// Whether `s` begins with `p`.
pub open spec fn spec_starts_with(s: Seq<u8>, p: Seq<u8>) -> bool {
    p.len() <= s.len() && s.subrange(0, p.len() as int) == p
}

/// The first position at or after `i` holding byte `b`.
pub open spec fn spec_find_byte(s: Seq<u8>, b: u8, i: int) -> Option<int>
    decreases s.len() - i,
{
    if i < 0 || i >= s.len() {
        None
    } else if s[i] == b {
        Some(i)
    } else {
        spec_find_byte(s, b, i + 1)
    }
}

/// What a successful or failed scan for `b` means, position by
/// position.
proof fn lemma_find_byte_props(s: Seq<u8>, b: u8, i: int)
    requires
        0 <= i,
    ensures
        match spec_find_byte(s, b, i) {
            Some(j) => i <= j < s.len() && s[j] == b && forall|k: int| i <= k < j ==> s[k] != b,
            None => forall|k: int| i <= k < s.len() ==> s[k] != b,
        },
    decreases s.len() - i,
{
    if i < s.len() && s[i] != b {
        lemma_find_byte_props(s, b, i + 1);
    }
}

/// The last position holding byte `b`.
pub open spec fn spec_rfind_byte(s: Seq<u8>, b: u8) -> Option<int>
    decreases s.len(),
{
    if s.len() == 0 {
        None
    } else if s[s.len() - 1] == b {
        Some(s.len() - 1)
    } else {
        spec_rfind_byte(s.drop_last(), b)
    }
}

/// ASCII whitespace, the bytes the line parser trims.
pub open spec fn spec_is_ws(b: u8) -> bool {
    b == 32 || b == 9 || b == 10 || b == 11 || b == 12 || b == 13
}

pub open spec fn spec_trim_front(s: Seq<u8>) -> Seq<u8>
    decreases s.len(),
{
    if s.len() > 0 && spec_is_ws(s[0]) {
        spec_trim_front(s.drop_first())
    } else {
        s
    }
}

pub open spec fn spec_trim_back(s: Seq<u8>) -> Seq<u8>
    decreases s.len(),
{
    if s.len() > 0 && spec_is_ws(s[s.len() - 1]) {
        spec_trim_back(s.drop_last())
    } else {
        s
    }
}

/// `s` without leading and trailing ASCII whitespace.
pub open spec fn spec_trim(s: Seq<u8>) -> Seq<u8> {
    spec_trim_back(spec_trim_front(s))
}

pub open spec fn spec_strip_quotes_front(s: Seq<u8>) -> Seq<u8>
    decreases s.len(),
{
    if s.len() > 0 && s[0] == 34 {
        spec_strip_quotes_front(s.drop_first())
    } else {
        s
    }
}

pub open spec fn spec_strip_quotes_back(s: Seq<u8>) -> Seq<u8>
    decreases s.len(),
{
    if s.len() > 0 && s[s.len() - 1] == 34 {
        spec_strip_quotes_back(s.drop_last())
    } else {
        s
    }
}

/// One parameter as handed to a command: trimmed of whitespace, then
/// of the surrounding quote characters.
pub open spec fn spec_clean(s: Seq<u8>) -> Seq<u8> {
    spec_strip_quotes_back(spec_strip_quotes_front(spec_trim(s)))
}

/// The cleaned parameters of `s` from position `from` on, one per
/// comma-separated piece.
pub open spec fn spec_cleaned_split(s: Seq<u8>, from: int) -> Seq<Seq<u8>>
    decreases s.len() - from,
    via spec_cleaned_split_decreases
{
    match spec_find_byte(s, 44, from) {
        None => seq![spec_clean(s.subrange(from, s.len() as int))],
        Some(c) => seq![spec_clean(s.subrange(from, c))] + spec_cleaned_split(s, c + 1),
    }
}

#[via_fn]
proof fn spec_cleaned_split_decreases(s: Seq<u8>, from: int) {
    if from >= 0 {
        lemma_find_byte_props(s, 44, from);
    }
}

/// The parameter list of a command line calling `name`: the line must
/// start with the name, contain an opening parenthesis and end with a
/// closing one; the parameters are the cleaned comma-separated pieces
/// between the first opening and the last closing parenthesis, none
/// at all when that span is empty.
pub open spec fn spec_params_of(line: Seq<u8>, name: Seq<u8>) -> Option<Seq<Seq<u8>>> {
    if spec_starts_with(line, name) && line.len() > 0 && line[line.len() - 1] == 41 {
        match spec_find_byte(line, 40, 0) {
            None => None,
            Some(fo) => match spec_rfind_byte(line, 41) {
                None => None,
                Some(rc) => if fo + 1 >= rc {
                    Some(Seq::empty())
                } else {
                    Some(spec_cleaned_split(line.subrange(fo + 1, rc), 0))
                },
            },
        }
    } else {
        None
    }
}

/// Whether `s` begins with `p`.
pub fn starts_with(s: &[u8], p: &[u8]) -> (r: bool)
    ensures
        r == spec_starts_with(s@, p@),
{
    if p.len() > s.len() {
        return false;
    }
    let mut i: usize = 0;
    while i < p.len()
        invariant
            0 <= i <= p@.len() <= s@.len(),
            forall|j: int| 0 <= j < i ==> s@[j] == p@[j],
        decreases p@.len() - i,
    {
        if s[i] != p[i] {
            proof {
                assert(s@.subrange(0, p@.len() as int)[i as int] != p@[i as int]);
            }
            return false;
        }
        i = i + 1;
    }
    proof {
        assert(s@.subrange(0, p@.len() as int) =~= p@);
    }
    true
}

/// First position of `b` in `s` at or after `from`.
pub fn find_byte(s: &[u8], b: u8, from: usize) -> (r: Option<usize>)
    ensures
        match r {
            Some(i) => spec_find_byte(s@, b, from as int) == Some(i as int),
            None => spec_find_byte(s@, b, from as int) is None,
        },
{
    let n = s.len();
    let mut i: usize = from;
    while i < n
        invariant
            from <= i,
            n == s@.len(),
            spec_find_byte(s@, b, from as int) == spec_find_byte(s@, b, i as int),
        decreases n - i,
    {
        if s[i] == b {
            return Some(i);
        }
        i = i + 1;
    }
    None
}

/// Last position of `b` in `s`.
pub fn rfind_byte(s: &[u8], b: u8) -> (r: Option<usize>)
    ensures
        match r {
            Some(i) => spec_rfind_byte(s@, b) == Some(i as int),
            None => spec_rfind_byte(s@, b) is None,
        },
{
    let mut j: usize = s.len();
    proof {
        assert(s@.subrange(0, s@.len() as int) =~= s@);
    }
    while j > 0
        invariant
            0 <= j <= s@.len(),
            spec_rfind_byte(s@, b) == spec_rfind_byte(s@.subrange(0, j as int), b),
        decreases j,
    {
        if s[j - 1] == b {
            return Some(j - 1);
        }
        proof {
            assert(s@.subrange(0, j as int).drop_last() =~= s@.subrange(0, j - 1));
        }
        j = j - 1;
    }
    None
}

/// Copies `s[from..to]` trimmed of whitespace, then of surrounding
/// quotes: one cleaned parameter.
fn cleaned_segment(s: &[u8], from: usize, to: usize) -> (r: Vec<u8>)
    requires
        from <= to <= s@.len(),
    ensures
        r@ == spec_clean(s@.subrange(from as int, to as int)),
{
    let mut a: usize = from;
    let mut z: usize = to;
    while a < z && (s[a] == 32 || s[a] == 9 || s[a] == 10 || s[a] == 11 || s[a] == 12 || s[a] == 13)
        invariant
            from <= a <= z <= s@.len(),
            spec_trim_front(s@.subrange(from as int, to as int)) == spec_trim_front(
                s@.subrange(a as int, z as int),
            ),
            z == to,
        decreases z - a,
    {
        proof {
            assert(s@.subrange(a as int, z as int).drop_first() =~= s@.subrange(a + 1, z as int));
        }
        a = a + 1;
    }
    proof {
        assert(spec_trim_front(s@.subrange(a as int, z as int)) == s@.subrange(a as int, z as int));
    }
    while z > a && (s[z - 1] == 32 || s[z - 1] == 9 || s[z - 1] == 10 || s[z - 1] == 11 || s[z - 1]
        == 12 || s[z - 1] == 13)
        invariant
            from <= a <= z <= s@.len(),
            spec_trim(s@.subrange(from as int, to as int)) == spec_trim_back(
                s@.subrange(a as int, z as int),
            ),
        decreases z - a,
    {
        proof {
            assert(s@.subrange(a as int, z as int).drop_last() =~= s@.subrange(a as int, z - 1));
        }
        z = z - 1;
    }
    proof {
        assert(spec_trim_back(s@.subrange(a as int, z as int)) == s@.subrange(a as int, z as int));
    }
    while a < z && s[a] == 34
        invariant
            from <= a <= z <= s@.len(),
            spec_strip_quotes_front(spec_trim(s@.subrange(from as int, to as int)))
                == spec_strip_quotes_front(s@.subrange(a as int, z as int)),
        decreases z - a,
    {
        proof {
            assert(s@.subrange(a as int, z as int).drop_first() =~= s@.subrange(a + 1, z as int));
        }
        a = a + 1;
    }
    proof {
        assert(spec_strip_quotes_front(s@.subrange(a as int, z as int)) == s@.subrange(
            a as int,
            z as int,
        ));
    }
    while z > a && s[z - 1] == 34
        invariant
            from <= a <= z <= s@.len(),
            spec_clean(s@.subrange(from as int, to as int)) == spec_strip_quotes_back(
                s@.subrange(a as int, z as int),
            ),
        decreases z - a,
    {
        proof {
            assert(s@.subrange(a as int, z as int).drop_last() =~= s@.subrange(a as int, z - 1));
        }
        z = z - 1;
    }
    proof {
        assert(spec_strip_quotes_back(s@.subrange(a as int, z as int)) == s@.subrange(
            a as int,
            z as int,
        ));
    }
    let mut out: Vec<u8> = Vec::new();
    let mut k: usize = a;
    while k < z
        invariant
            a <= k <= z <= s@.len(),
            out@ == s@.subrange(a as int, k as int),
        decreases z - k,
    {
        out.push(s[k]);
        proof {
            assert(s@.subrange(a as int, k + 1) =~= s@.subrange(a as int, k as int).push(
                s@[k as int],
            ));
        }
        k = k + 1;
    }
    proof {
        assert(out@ =~= s@.subrange(a as int, z as int));
    }
    out
}

/// The raw lines of a script from position `from` on, split at
/// newline bytes; the last line needs no newline of its own.
pub open spec fn spec_raw_lines(s: Seq<u8>, from: int) -> Seq<Seq<u8>>
    decreases s.len() - from,
    via spec_raw_lines_decreases
{
    match spec_find_byte(s, 10, from) {
        None => seq![s.subrange(from, s.len() as int)],
        Some(c) => seq![s.subrange(from, c)] + spec_raw_lines(s, c + 1),
    }
}

#[via_fn]
proof fn spec_raw_lines_decreases(s: Seq<u8>, from: int) {
    if from >= 0 {
        lemma_find_byte_props(s, 10, from);
    }
}

/// What one raw script line does to the surface: nothing when it is
/// blank or a comment after trimming, else what its command does.
pub open spec fn spec_line_effect(raw: Seq<u8>, g0: GraphicsManager, g1: GraphicsManager) -> bool {
    let t = spec_trim(raw);
    if t.len() == 0 || (t.len() >= 2 && t[0] == 45 && t[1] == 45) {
        g1 == g0
    } else {
        spec_command_effects(t, g0, g1)
    }
}

/// What a run of raw lines does: each line's effect in order, through
/// some chain of intermediate surface states.
pub open spec fn spec_lines_effects(
    lines: Seq<Seq<u8>>,
    g0: GraphicsManager,
    g1: GraphicsManager,
) -> bool
    decreases lines.len(),
{
    if lines.len() == 0 {
        g1 == g0
    } else {
        exists|mid: GraphicsManager|
            #[trigger] spec_line_effect(lines[0], g0, mid) && spec_lines_effects(
                lines.drop_first(),
                mid,
                g1,
            )
    }
}

/// One more line's effect extends a chain of line effects.
proof fn lemma_lines_effects_push(
    lines: Seq<Seq<u8>>,
    raw: Seq<u8>,
    g0: GraphicsManager,
    gm: GraphicsManager,
    g1: GraphicsManager,
)
    requires
        spec_lines_effects(lines, g0, gm),
        spec_line_effect(raw, gm, g1),
    ensures
        spec_lines_effects(lines.push(raw), g0, g1),
    decreases lines.len(),
{
    if lines.len() == 0 {
        assert(g0 == gm);
        assert(lines.push(raw)[0] == raw);
        assert(lines.push(raw).drop_first() =~= Seq::<Seq<u8>>::empty());
        assert(spec_lines_effects(lines.push(raw).drop_first(), g1, g1));
        assert(spec_line_effect(lines.push(raw)[0], g0, g1) && spec_lines_effects(
            lines.push(raw).drop_first(),
            g1,
            g1,
        ));
    } else {
        assert(exists|mid: GraphicsManager|
            #[trigger] spec_line_effect(lines[0], g0, mid) && spec_lines_effects(
                lines.drop_first(),
                mid,
                gm,
            ));
        let m1 = choose|m1: GraphicsManager|
            #[trigger] spec_line_effect(lines[0], g0, m1) && spec_lines_effects(
                lines.drop_first(),
                m1,
                gm,
            );
        lemma_lines_effects_push(lines.drop_first(), raw, m1, gm, g1);
        assert(lines.push(raw).drop_first() =~= lines.drop_first().push(raw));
        assert(lines.push(raw)[0] == lines[0]);
        assert(spec_line_effect(lines.push(raw)[0], g0, m1) && spec_lines_effects(
            lines.push(raw).drop_first(),
            m1,
            g1,
        ));
    }
}

/// Copies `s[from..to]` trimmed of surrounding whitespace: one raw
/// command line.
fn trimmed_segment(s: &[u8], from: usize, to: usize) -> (r: Vec<u8>)
    requires
        from <= to <= s@.len(),
    ensures
        r@ == spec_trim(s@.subrange(from as int, to as int)),
{
    let mut a: usize = from;
    let mut z: usize = to;
    while a < z && (s[a] == 32 || s[a] == 9 || s[a] == 10 || s[a] == 11 || s[a] == 12 || s[a] == 13)
        invariant
            from <= a <= z <= s@.len(),
            spec_trim_front(s@.subrange(from as int, to as int)) == spec_trim_front(
                s@.subrange(a as int, z as int),
            ),
            z == to,
        decreases z - a,
    {
        proof {
            assert(s@.subrange(a as int, z as int).drop_first() =~= s@.subrange(a + 1, z as int));
        }
        a = a + 1;
    }
    proof {
        assert(spec_trim_front(s@.subrange(a as int, z as int)) == s@.subrange(a as int, z as int));
    }
    while z > a && (s[z - 1] == 32 || s[z - 1] == 9 || s[z - 1] == 10 || s[z - 1] == 11 || s[z - 1]
        == 12 || s[z - 1] == 13)
        invariant
            from <= a <= z <= s@.len(),
            spec_trim(s@.subrange(from as int, to as int)) == spec_trim_back(
                s@.subrange(a as int, z as int),
            ),
        decreases z - a,
    {
        proof {
            assert(s@.subrange(a as int, z as int).drop_last() =~= s@.subrange(a as int, z - 1));
        }
        z = z - 1;
    }
    proof {
        assert(spec_trim_back(s@.subrange(a as int, z as int)) == s@.subrange(a as int, z as int));
    }
    let mut out: Vec<u8> = Vec::new();
    let mut k: usize = a;
    while k < z
        invariant
            a <= k <= z <= s@.len(),
            out@ == s@.subrange(a as int, k as int),
        decreases z - k,
    {
        out.push(s[k]);
        proof {
            assert(s@.subrange(a as int, k + 1) =~= s@.subrange(a as int, k as int).push(
                s@[k as int],
            ));
        }
        k = k + 1;
    }
    proof {
        assert(out@ =~= s@.subrange(a as int, z as int));
    }
    out
}

/// Extracts the parameters of a call of `func_name` from a command
/// line, or nothing when the line is not such a call.
pub fn get_params(line: &[u8], func_name: &[u8]) -> (r: Option<Vec<Vec<u8>>>)
    ensures
        match r {
            Some(ps) => spec_params_of(line@, func_name@) == Some(ps.deep_view()),
            None => spec_params_of(line@, func_name@) is None,
        },
{
    if !starts_with(line, func_name) {
        return None;
    }
    let n = line.len();
    if n == 0 || line[n - 1] != 41 {
        return None;
    }
    let fo = match find_byte(line, 40, 0) {
        None => {
            return None;
        },
        Some(x) => x,
    };
    proof {
        lemma_find_byte_props(line@, 40, 0);
    }
    let rc = match rfind_byte(line, 41) {
        None => {
            // Impossible: the line ends with the closing parenthesis.
            proof {
                assert(spec_rfind_byte(line@, 41) == Some(line@.len() - 1));
            }
            return None;
        },
        Some(x) => x,
    };
    if fo + 1 >= rc {
        let empty: Vec<Vec<u8>> = Vec::new();
        proof {
            assert(empty.deep_view() =~= Seq::<Seq<u8>>::empty());
        }
        return Some(empty);
    }
    // Copy the span between the parentheses, then cut it at commas.
    let start = fo + 1;
    let mut inner: Vec<u8> = Vec::new();
    let mut k: usize = start;
    while k < rc
        invariant
            start <= k <= rc <= line@.len(),
            inner@ == line@.subrange(start as int, k as int),
        decreases rc - k,
    {
        inner.push(line[k]);
        proof {
            assert(line@.subrange(start as int, k + 1) =~= line@.subrange(
                start as int,
                k as int,
            ).push(line@[k as int]));
        }
        k = k + 1;
    }
    let mut out: Vec<Vec<u8>> = Vec::new();
    let mut pos: usize = 0;
    let m = inner.len();
    loop
        invariant_except_break
            spec_cleaned_split(inner@, 0) == out.deep_view() + spec_cleaned_split(
                inner@,
                pos as int,
            ),
        invariant
            0 <= pos <= m,
            m == inner@.len(),
            inner@ == line@.subrange(start as int, rc as int),
        ensures
            out.deep_view() == spec_cleaned_split(inner@, 0),
        decreases m - pos,
    {
        let seg_end = find_byte(inner.as_slice(), 44, pos);
        match seg_end {
            None => {
                let seg = cleaned_segment(inner.as_slice(), pos, m);
                let ghost before = out.deep_view();
                out.push(seg);
                proof {
                    assert(out.deep_view() =~~= before.push(seg@));
                    assert(spec_cleaned_split(inner@, pos as int) == seq![
                        spec_clean(inner@.subrange(pos as int, inner@.len() as int)),
                    ]);
                    assert(before + spec_cleaned_split(inner@, pos as int) =~~= out.deep_view());
                    assert(out.deep_view() =~~= spec_cleaned_split(inner@, 0));
                }
                break ;
            },
            Some(c) => {
                proof {
                    lemma_find_byte_props(inner@, 44, pos as int);
                }
                let seg = cleaned_segment(inner.as_slice(), pos, c);
                let ghost before = out.deep_view();
                out.push(seg);
                proof {
                    assert(out.deep_view() =~~= before.push(seg@));
                    assert(spec_cleaned_split(inner@, pos as int) == seq![
                        spec_clean(inner@.subrange(pos as int, c as int)),
                    ] + spec_cleaned_split(inner@, c + 1));
                    assert(before + spec_cleaned_split(inner@, pos as int) =~~= out.deep_view()
                        + spec_cleaned_split(inner@, c + 1));
                }
                pos = c + 1;
            },
        }
    }
    Some(out)
}

/// The runtime that hosts one packaged application: a fixed scratch
/// memory, zeroed at start.
pub struct WasmRunner {
    pub memory: Vec<u8>,
}

impl WasmRunner {
    /// A fresh runtime with 32 KiB of zeroed scratch memory.
    pub fn new() -> (r: WasmRunner)
        ensures
            r.memory@.len() == 32768,
            forall|i: int| 0 <= i < r.memory@.len() ==> r.memory@[i] == 0u8,
    {
        let mut memory: Vec<u8> = Vec::new();
        while memory.len() < 32768
            invariant
                memory@.len() <= 32768,
                forall|i: int| 0 <= i < memory@.len() ==> memory@[i] == 0u8,
            decreases 32768 - memory@.len(),
        {
            memory.push(0);
        }
        WasmRunner { memory }
    }

    /// Whether `data` starts with the image magic.
    pub fn is_valid_wasm(&self, data: &[u8]) -> (r: bool)
        ensures
            r == spec_valid_wasm(data@),
    {
        data.len() >= 4 && data[0] == 0x00 && data[1] == 0x61 && data[2] == 0x73 && data[3] == 0x6d
    }

    /// Finds the embedded script: the region of text around the first
    /// print call, delimited by zero bytes.
    pub fn extract_lua_from_wasm(&self, data: &[u8]) -> (r: Option<Vec<u8>>)
        ensures
            match r {
                Some(script) => spec_extract_lua(data@) == Some(script@),
                None => spec_extract_lua(data@) is None,
            },
    {
        let n = data.len();
        let bound: usize = if n > 6 {
            n - 6
        } else {
            0
        };
        let mut i: usize = 0;
        while i < bound
            invariant
                n == data@.len(),
                bound == if n > 6 { n - 6 } else { 0int },
                0 <= i <= bound,
                spec_first_print(data@, 0) == spec_first_print(data@, i as int),
            decreases bound - i,
        {
            if print_pattern_at(data, i) {
                return self.find_lua_script_at(data, i);
            }
            i = i + 1;
        }
        None
    }

    /// Cuts the candidate script out around `start`: back to the byte
    /// after the nearest zero, forward to the first zero more than a
    /// hundred bytes past `start`, then checks that it still looks
    /// like a script.
    pub fn find_lua_script_at(&self, data: &[u8], start: usize) -> (r: Option<Vec<u8>>)
        requires
            start <= data@.len(),
        ensures
            match r {
                Some(script) => spec_script_at(data@, start as int) == Some(script@),
                None => spec_script_at(data@, start as int) is None,
            },
    {
        let n = data.len();
        let mut s: usize = start;
        while s > 0 && data[s - 1] != 0
            invariant
                0 <= s <= start <= n,
                n == data@.len(),
                spec_back_boundary(data@, start as int) == spec_back_boundary(data@, s as int),
            decreases s,
        {
            s = s - 1;
        }
        let mut e: usize = start;
        while e < n && !(data[e] == 0 && e - start > 100)
            invariant
                start <= e <= n,
                n == data@.len(),
                spec_fwd_end(data@, start as int, start as int) == spec_fwd_end(
                    data@,
                    start as int,
                    e as int,
                ),
            decreases n - e,
        {
            e = e + 1;
        }
        proof {
            lemma_back_boundary_range(data@, start as int);
            lemma_fwd_end_range(data@, start as int, start as int);
        }
        let mut script: Vec<u8> = Vec::new();
        let mut k: usize = s;
        while k < e
            invariant
                s <= k <= e <= n,
                n == data@.len(),
                script@ == data@.subrange(s as int, k as int),
            decreases e - k,
        {
            script.push(data[k]);
            proof {
                assert(data@.subrange(s as int, k + 1) =~= data@.subrange(s as int, k as int).push(
                    data@[k as int],
                ));
            }
            k = k + 1;
        }
        if script.len() > 20 && contains_print(script.as_slice()) {
            Some(script)
        } else {
            None
        }
    }

    /// Carries out one script command on the surface: the line is
    /// matched against each drawing call form in turn and the first
    /// recognized one runs with its cleaned parameters.
    pub fn parse_and_execute_lua_command(&self, line: &[u8], graphics: &mut GraphicsManager)
        requires
            old(graphics).wf(),
        ensures
            final(graphics).wf(),
            old(graphics).same_surface(*final(graphics)),
            spec_command_effects(line@, *old(graphics), *final(graphics)),
    {
        let lit_clear: [u8; 12] = [99, 108, 101, 97, 114, 95, 115, 99, 114, 101, 101, 110];
        let lit_set_color: [u8; 9] = [115, 101, 116, 95, 99, 111, 108, 111, 114];
        let lit_draw_text: [u8; 9] = [100, 114, 97, 119, 95, 116, 101, 120, 116];
        let lit_draw_text_at: [u8; 12] = [
            100, 114, 97, 119, 95, 116, 101, 120, 116, 95, 97, 116,
        ];
        let lit_draw_rect: [u8; 9] = [100, 114, 97, 119, 95, 114, 101, 99, 116];
        let lit_true: [u8; 4] = [116, 114, 117, 101];
        proof {
            assert(lit_clear@ =~= spec_name_clear_screen());
            assert(lit_set_color@ =~= spec_name_set_color());
            assert(lit_draw_text@ =~= spec_name_draw_text());
            assert(lit_draw_text_at@ =~= spec_name_draw_text_at());
            assert(lit_draw_rect@ =~= spec_name_draw_rect());
            assert(lit_true@ =~= spec_true_bytes());
        }
        if let Some(params) = get_params(line, lit_clear.as_slice()) {
            if params.len() == 0 {
                proof {
                    assert(params.deep_view() =~= Seq::<Seq<u8>>::empty());
                }
                graphics.clear_screen();
            }
        } else if let Some(params) = get_params(line, lit_set_color.as_slice()) {
            if params.len() >= 1 {
                proof {
                    assert(params@[0].deep_view() =~= params@[0]@);
                }
                let color = parse_color(params[0].as_slice());
                graphics.set_color(color);
            }
        } else if let Some(params) = get_params(line, lit_draw_text.as_slice()) {
            if params.len() >= 1 {
                proof {
                    assert(params@[0].deep_view() =~= params@[0]@);
                }
                graphics.draw_text(params[0].as_slice());
            }
        } else if let Some(params) = get_params(line, lit_draw_text_at.as_slice()) {
            if params.len() >= 3 {
                proof {
                    assert(params@[0].deep_view() =~= params@[0]@);
                    assert(params@[1].deep_view() =~= params@[1]@);
                    assert(params@[2].deep_view() =~= params@[2]@);
                }
                let xo = parse_i32(params[1].as_slice());
                let yo = parse_i32(params[2].as_slice());
                match (xo, yo) {
                    (Some(x), Some(y)) => {
                        graphics.draw_text_at(params[0].as_slice(), x, y);
                    },
                    _ => {},
                }
            }
        } else if let Some(params) = get_params(line, lit_draw_rect.as_slice()) {
            if params.len() >= 5 {
                proof {
                    assert(params@[0].deep_view() =~= params@[0]@);
                    assert(params@[1].deep_view() =~= params@[1]@);
                    assert(params@[2].deep_view() =~= params@[2]@);
                    assert(params@[3].deep_view() =~= params@[3]@);
                    assert(params@[4].deep_view() =~= params@[4]@);
                }
                let xo = parse_i32(params[0].as_slice());
                let yo = parse_i32(params[1].as_slice());
                let wo = parse_u32(params[2].as_slice());
                let ho = parse_u32(params[3].as_slice());
                match (xo, yo, wo, ho) {
                    (Some(x), Some(y), Some(w), Some(h)) => {
                        let filled = bytes_eq(params[4].as_slice(), lit_true.as_slice());
                        graphics.draw_rect(x, y, w, h, filled);
                    },
                    _ => {},
                }
            }
        }
    }

    /// Runs one line of the script: trimmed of whitespace, skipped
    /// when empty or a comment, otherwise handed to the command
    /// dispatcher.
    fn run_script_line(&self, script: &[u8], from: usize, to: usize, graphics: &mut GraphicsManager)
        requires
            old(graphics).wf(),
            from <= to <= script@.len(),
        ensures
            final(graphics).wf(),
            old(graphics).same_surface(*final(graphics)),
            spec_line_effect(
                script@.subrange(from as int, to as int),
                *old(graphics),
                *final(graphics),
            ),
    {
        let line = trimmed_segment(script, from, to);
        if line.len() == 0 {
            return ;
        }
        if line.len() >= 2 && line[0] == 45 && line[1] == 45 {
            return ;
        }
        self.parse_and_execute_lua_command(line.as_slice(), graphics);
    }

    /// Interprets a script against the surface, one line at a time:
    /// empty lines and comment lines are skipped, every other line is
    /// dispatched as one drawing command.
    pub fn execute_lua_script_graphics(&self, script: &[u8], graphics: &mut GraphicsManager)
        requires
            old(graphics).wf(),
        ensures
            final(graphics).wf(),
            old(graphics).same_surface(*final(graphics)),
            spec_lines_effects(spec_raw_lines(script@, 0), *old(graphics), *final(graphics)),
    {
        let ghost g0 = *graphics;
        let ghost mut done: Seq<Seq<u8>> = Seq::empty();
        let n = script.len();
        let mut pos: usize = 0;
        loop
            invariant_except_break
                spec_raw_lines(script@, 0) == done + spec_raw_lines(script@, pos as int),
                spec_lines_effects(done, g0, *graphics),
            invariant
                graphics.wf(),
                g0.same_surface(*graphics),
                g0 == *old(graphics),
                0 <= pos <= n,
                n == script@.len(),
            ensures
                graphics.wf(),
                g0.same_surface(*graphics),
                spec_lines_effects(spec_raw_lines(script@, 0), g0, *graphics),
            decreases n - pos,
        {
            match find_byte(script, 10, pos) {
                None => {
                    let ghost mid = *graphics;
                    let ghost raw = script@.subrange(pos as int, n as int);
                    self.run_script_line(script, pos, n, graphics);
                    proof {
                        lemma_lines_effects_push(done, raw, g0, mid, *graphics);
                        assert(spec_raw_lines(script@, pos as int) =~= seq![raw]);
                        assert(done.push(raw) =~= done + seq![raw]);
                        assert(spec_raw_lines(script@, 0) == done.push(raw));
                    }
                    break ;
                },
                Some(newline) => {
                    proof {
                        lemma_find_byte_props(script@, 10, pos as int);
                    }
                    let ghost mid = *graphics;
                    let ghost raw = script@.subrange(pos as int, newline as int);
                    self.run_script_line(script, pos, newline, graphics);
                    proof {
                        lemma_lines_effects_push(done, raw, g0, mid, *graphics);
                        assert(spec_raw_lines(script@, pos as int) == seq![raw] + spec_raw_lines(
                            script@,
                            newline + 1,
                        ));
                        assert((done + spec_raw_lines(script@, pos as int)) =~= (done.push(raw)
                            + spec_raw_lines(script@, newline + 1)));
                        done = done.push(raw);
                    }
                    pos = newline + 1;
                },
            }
        }
    }

    /// Runs a packaged application: checks the image magic, digs out
    /// the embedded script, and interprets it against the surface.
    /// Reports whether a script was found and interpreted.
    pub fn run_wasm_app_with_graphics(
        &mut self,
        wasm_data: &[u8],
        graphics: &mut GraphicsManager,
    ) -> (success: bool)
        requires
            old(graphics).wf(),
        ensures
            final(graphics).wf(),
            old(graphics).same_surface(*final(graphics)),
            *final(self) == *old(self),
            success == (spec_valid_wasm(wasm_data@) && spec_extract_lua(wasm_data@) is Some),
            !spec_valid_wasm(wasm_data@) ==> *final(graphics) == *old(graphics),
            spec_valid_wasm(wasm_data@) ==> match spec_extract_lua(wasm_data@) {
                Some(script) => spec_lines_effects(
                    spec_raw_lines(script, 0),
                    *old(graphics),
                    *final(graphics),
                ),
                None => *final(graphics) == *old(graphics),
            },
    {
        if !self.is_valid_wasm(wasm_data) {
            return false;
        }
        if let Some(lua_script) = self.extract_lua_from_wasm(wasm_data) {
            self.execute_lua_script_graphics(lua_script.as_slice(), graphics);
            true
        } else {
            false
        }
    }
}

} // verus!
