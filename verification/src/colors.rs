//! The named colours of the drawing interface.

use vstd::prelude::*;
use crate::framebuffer::Color;

verus! {

/// Black: all components zero.
pub fn black() -> (c: Color)
    ensures
        c == (Color { r: 0, g: 0, b: 0 }),
{
    Color { r: 0, g: 0, b: 0 }
}

/// White: all components full.
pub fn white() -> (c: Color)
    ensures
        c == (Color { r: 255, g: 255, b: 255 }),
{
    Color { r: 255, g: 255, b: 255 }
}

/// The interface blue.
pub fn blue() -> (c: Color)
    ensures
        c == (Color { r: 0, g: 100, b: 255 }),
{
    Color { r: 0, g: 100, b: 255 }
}

/// Full green.
pub fn green() -> (c: Color)
    ensures
        c == (Color { r: 0, g: 255, b: 0 }),
{
    Color { r: 0, g: 255, b: 0 }
}

/// Full red.
pub fn red() -> (c: Color)
    ensures
        c == (Color { r: 255, g: 0, b: 0 }),
{
    Color { r: 255, g: 0, b: 0 }
}

/// Yellow.
pub fn yellow() -> (c: Color)
    ensures
        c == (Color { r: 255, g: 255, b: 0 }),
{
    Color { r: 255, g: 255, b: 0 }
}

/// Purple.
pub fn purple() -> (c: Color)
    ensures
        c == (Color { r: 128, g: 0, b: 128 }),
{
    Color { r: 128, g: 0, b: 128 }
}

/// Orange.
pub fn orange() -> (c: Color)
    ensures
        c == (Color { r: 255, g: 165, b: 0 }),
{
    Color { r: 255, g: 165, b: 0 }
}

/// Cyan.
pub fn cyan() -> (c: Color)
    ensures
        c == (Color { r: 0, g: 255, b: 255 }),
{
    Color { r: 0, g: 255, b: 255 }
}

/// The bytes of each colour name the interface knows.
pub open spec fn spec_name_black() -> Seq<u8> {
    seq![98u8, 108, 97, 99, 107]
}

pub open spec fn spec_name_white() -> Seq<u8> {
    seq![119u8, 104, 105, 116, 101]
}

pub open spec fn spec_name_red() -> Seq<u8> {
    seq![114u8, 101, 100]
}

pub open spec fn spec_name_green() -> Seq<u8> {
    seq![103u8, 114, 101, 101, 110]
}

pub open spec fn spec_name_blue() -> Seq<u8> {
    seq![98u8, 108, 117, 101]
}

pub open spec fn spec_name_yellow() -> Seq<u8> {
    seq![121u8, 101, 108, 108, 111, 119]
}

pub open spec fn spec_name_purple() -> Seq<u8> {
    seq![112u8, 117, 114, 112, 108, 101]
}

pub open spec fn spec_name_orange() -> Seq<u8> {
    seq![111u8, 114, 97, 110, 103, 101]
}

pub open spec fn spec_name_cyan() -> Seq<u8> {
    seq![99u8, 121, 97, 110]
}

/// The colour a name denotes; an unknown name denotes white.
pub open spec fn spec_color_named(s: Seq<u8>) -> Color {
    if s == spec_name_black() {
        Color { r: 0, g: 0, b: 0 }
    } else if s == spec_name_white() {
        Color { r: 255, g: 255, b: 255 }
    } else if s == spec_name_red() {
        Color { r: 255, g: 0, b: 0 }
    } else if s == spec_name_green() {
        Color { r: 0, g: 255, b: 0 }
    } else if s == spec_name_blue() {
        Color { r: 0, g: 100, b: 255 }
    } else if s == spec_name_yellow() {
        Color { r: 255, g: 255, b: 0 }
    } else if s == spec_name_purple() {
        Color { r: 128, g: 0, b: 128 }
    } else if s == spec_name_orange() {
        Color { r: 255, g: 165, b: 0 }
    } else if s == spec_name_cyan() {
        Color { r: 0, g: 255, b: 255 }
    } else {
        Color { r: 255, g: 255, b: 255 }
    }
}

/// Whether two byte strings hold the same bytes.
pub fn bytes_eq(a: &[u8], b: &[u8]) -> (r: bool)
    ensures
        r == (a@ == b@),
{
    if a.len() != b.len() {
        proof {
            assert(a@.len() != b@.len());
        }
        return false;
    }
    let mut i: usize = 0;
    while i < a.len()
        invariant
            0 <= i <= a@.len(),
            a@.len() == b@.len(),
            forall|j: int| 0 <= j < i ==> a@[j] == b@[j],
        decreases a@.len() - i,
    {
        if a[i] != b[i] {
            return false;
        }
        i = i + 1;
    }
    proof {
        assert(a@ =~= b@);
    }
    true
}

/// Maps a colour name to its colour; unknown names map to white.
pub fn parse_color(name: &[u8]) -> (c: Color)
    ensures
        c == spec_color_named(name@),
{
    let lit_black: [u8; 5] = [98, 108, 97, 99, 107];
    let lit_white: [u8; 5] = [119, 104, 105, 116, 101];
    let lit_red: [u8; 3] = [114, 101, 100];
    let lit_green: [u8; 5] = [103, 114, 101, 101, 110];
    let lit_blue: [u8; 4] = [98, 108, 117, 101];
    let lit_yellow: [u8; 6] = [121, 101, 108, 108, 111, 119];
    let lit_purple: [u8; 6] = [112, 117, 114, 112, 108, 101];
    let lit_orange: [u8; 6] = [111, 114, 97, 110, 103, 101];
    let lit_cyan: [u8; 4] = [99, 121, 97, 110];
    proof {
        assert(lit_black@ =~= spec_name_black());
        assert(lit_white@ =~= spec_name_white());
        assert(lit_red@ =~= spec_name_red());
        assert(lit_green@ =~= spec_name_green());
        assert(lit_blue@ =~= spec_name_blue());
        assert(lit_yellow@ =~= spec_name_yellow());
        assert(lit_purple@ =~= spec_name_purple());
        assert(lit_orange@ =~= spec_name_orange());
        assert(lit_cyan@ =~= spec_name_cyan());
    }
    if bytes_eq(name, lit_black.as_slice()) {
        black()
    } else if bytes_eq(name, lit_white.as_slice()) {
        white()
    } else if bytes_eq(name, lit_red.as_slice()) {
        red()
    } else if bytes_eq(name, lit_green.as_slice()) {
        green()
    } else if bytes_eq(name, lit_blue.as_slice()) {
        blue()
    } else if bytes_eq(name, lit_yellow.as_slice()) {
        yellow()
    } else if bytes_eq(name, lit_purple.as_slice()) {
        purple()
    } else if bytes_eq(name, lit_orange.as_slice()) {
        orange()
    } else if bytes_eq(name, lit_cyan.as_slice()) {
        cyan()
    } else {
        white()
    }
}

} // verus!
