//! The fixed 8x8 glyph table of the text renderer.
//!
//! One monochrome bitmap per ASCII code from 32 to 127, packed into a
//! `u64`: the most significant byte is the top row, and within each
//! row the most significant bit is the leftmost pixel.  Codes outside
//! that range render as the space glyph, which is blank; every other
//! code has its own bitmap, distinct from all the rest.

use vstd::prelude::*;

verus! {

/// The glyph bitmap of an ASCII code; anything outside `[32, 127]`
/// falls through to the blank space bitmap.
pub open spec fn spec_glyph_bits(code: u8) -> u64 {
    match code {
        33 => 0x183c3c1818001800,
        34 => 0x6c6c000000000000,
        35 => 0x6c6cfe6cfe6c6c00,
        36 => 0x307cc0780cf83000,
        37 => 0x00c6cc183066c600,
        38 => 0x386c3876dccc7600,
        39 => 0x6060c00000000000,
        40 => 0x1830606060301800,
        41 => 0x6030181818306000,
        42 => 0x00663cff3c660000,
        43 => 0x003030fc30300000,
        44 => 0x0000000000303060,
        45 => 0x000000fc00000000,
        46 => 0x0000000000303000,
        47 => 0x060c183060c08000,
        48 => 0x7cc6cedef6e67c00,
        49 => 0x307030303030fc00,
        50 => 0x78cc0c3860ccfc00,
        51 => 0x78cc0c380ccc7800,
        52 => 0x1c3c6cccfe0c1e00,
        53 => 0xfcc0f80c0ccc7800,
        54 => 0x3860c0f8cccc7800,
        55 => 0xfccc0c1830303000,
        56 => 0x78cccc78cccc7800,
        57 => 0x78cccc7c0c187000,
        58 => 0x0030300000303000,
        59 => 0x0030300000303060,
        60 => 0x183060c060301800,
        61 => 0x0000fc0000fc0000,
        62 => 0x6030180c18306000,
        63 => 0x78cc0c1830003000,
        64 => 0x7cc6dededec07800,
        65 => 0x3078ccccfccccc00,
        66 => 0xfc66667c6666fc00,
        67 => 0x3c66c0c0c0663c00,
        68 => 0xf86c6666666cf800,
        69 => 0xfe6268786862fe00,
        70 => 0xfe6268786860f000,
        71 => 0x3c66c0c0ce663e00,
        72 => 0xccccccfccccccc00,
        73 => 0x7830303030307800,
        74 => 0x1e0c0c0ccccc7800,
        75 => 0xe6666c786c66e600,
        76 => 0xf06060606266fe00,
        77 => 0xc6eefefed6c6c600,
        78 => 0xc6e6f6decec6c600,
        79 => 0x386cc6c6c66c3800,
        80 => 0xfc66667c6060f000,
        81 => 0x78ccccccdc781c00,
        82 => 0xfc66667c6c66e600,
        83 => 0x78cce0701ccc7800,
        84 => 0xfcb4303030307800,
        85 => 0xccccccccccccfc00,
        86 => 0xcccccccccc783000,
        87 => 0xc6c6c6d6feeec600,
        88 => 0xc6c66c38386cc600,
        89 => 0xcccccc7830307800,
        90 => 0xfec68c183266fe00,
        91 => 0x7860606060607800,
        92 => 0xc06030180c060200,
        93 => 0x7818181818187800,
        94 => 0x10386cc600000000,
        95 => 0x00000000000000ff,
        96 => 0x3030180000000000,
        97 => 0x0000780c7ccc7600,
        98 => 0xe060607c6666dc00,
        99 => 0x000078ccc0cc7800,
        100 => 0x1c0c0c7ccccc7600,
        101 => 0x000078ccfcc07800,
        102 => 0x386c60f06060f000,
        103 => 0x000076cccc7c0cf8,
        104 => 0xe0606c766666e600,
        105 => 0x3000703030307800,
        106 => 0x0c000c0c0ccccc78,
        107 => 0xe060666c786ce600,
        108 => 0x7030303030307800,
        109 => 0x0000ccfefed6c600,
        110 => 0x0000f8cccccccc00,
        111 => 0x000078cccccc7800,
        112 => 0x0000dc66667c60f0,
        113 => 0x000076cccc7c0c1e,
        114 => 0x0000dc766660f000,
        115 => 0x00007cc0780cf800,
        116 => 0x10307c3030341800,
        117 => 0x0000cccccccc7600,
        118 => 0x0000cccccc783000,
        119 => 0x0000c6d6fefe6c00,
        120 => 0x0000c66c386cc600,
        121 => 0x0000cccccc7c0cf8,
        122 => 0x0000fc983064fc00,
        123 => 0x1c3030e030301c00,
        124 => 0x1818180018181800,
        125 => 0xe030301c3030e000,
        126 => 0x76dc000000000000,
        127 => 0xff818181818181ff,
        _ => 0x0000000000000000,
    }
}

/// The code a non-blank bitmap belongs to: the table read backwards.
/// Every arm here mirrors one arm of `spec_glyph_bits`, which is what
/// makes the table injective on `[32, 127]`.
spec fn spec_code_of(bits: u64) -> u8 {
    match bits {
        0x183c3c1818001800 => 33,
        0x6c6c000000000000 => 34,
        0x6c6cfe6cfe6c6c00 => 35,
        0x307cc0780cf83000 => 36,
        0x00c6cc183066c600 => 37,
        0x386c3876dccc7600 => 38,
        0x6060c00000000000 => 39,
        0x1830606060301800 => 40,
        0x6030181818306000 => 41,
        0x00663cff3c660000 => 42,
        0x003030fc30300000 => 43,
        0x0000000000303060 => 44,
        0x000000fc00000000 => 45,
        0x0000000000303000 => 46,
        0x060c183060c08000 => 47,
        0x7cc6cedef6e67c00 => 48,
        0x307030303030fc00 => 49,
        0x78cc0c3860ccfc00 => 50,
        0x78cc0c380ccc7800 => 51,
        0x1c3c6cccfe0c1e00 => 52,
        0xfcc0f80c0ccc7800 => 53,
        0x3860c0f8cccc7800 => 54,
        0xfccc0c1830303000 => 55,
        0x78cccc78cccc7800 => 56,
        0x78cccc7c0c187000 => 57,
        0x0030300000303000 => 58,
        0x0030300000303060 => 59,
        0x183060c060301800 => 60,
        0x0000fc0000fc0000 => 61,
        0x6030180c18306000 => 62,
        0x78cc0c1830003000 => 63,
        0x7cc6dededec07800 => 64,
        0x3078ccccfccccc00 => 65,
        0xfc66667c6666fc00 => 66,
        0x3c66c0c0c0663c00 => 67,
        0xf86c6666666cf800 => 68,
        0xfe6268786862fe00 => 69,
        0xfe6268786860f000 => 70,
        0x3c66c0c0ce663e00 => 71,
        0xccccccfccccccc00 => 72,
        0x7830303030307800 => 73,
        0x1e0c0c0ccccc7800 => 74,
        0xe6666c786c66e600 => 75,
        0xf06060606266fe00 => 76,
        0xc6eefefed6c6c600 => 77,
        0xc6e6f6decec6c600 => 78,
        0x386cc6c6c66c3800 => 79,
        0xfc66667c6060f000 => 80,
        0x78ccccccdc781c00 => 81,
        0xfc66667c6c66e600 => 82,
        0x78cce0701ccc7800 => 83,
        0xfcb4303030307800 => 84,
        0xccccccccccccfc00 => 85,
        0xcccccccccc783000 => 86,
        0xc6c6c6d6feeec600 => 87,
        0xc6c66c38386cc600 => 88,
        0xcccccc7830307800 => 89,
        0xfec68c183266fe00 => 90,
        0x7860606060607800 => 91,
        0xc06030180c060200 => 92,
        0x7818181818187800 => 93,
        0x10386cc600000000 => 94,
        0x00000000000000ff => 95,
        0x3030180000000000 => 96,
        0x0000780c7ccc7600 => 97,
        0xe060607c6666dc00 => 98,
        0x000078ccc0cc7800 => 99,
        0x1c0c0c7ccccc7600 => 100,
        0x000078ccfcc07800 => 101,
        0x386c60f06060f000 => 102,
        0x000076cccc7c0cf8 => 103,
        0xe0606c766666e600 => 104,
        0x3000703030307800 => 105,
        0x0c000c0c0ccccc78 => 106,
        0xe060666c786ce600 => 107,
        0x7030303030307800 => 108,
        0x0000ccfefed6c600 => 109,
        0x0000f8cccccccc00 => 110,
        0x000078cccccc7800 => 111,
        0x0000dc66667c60f0 => 112,
        0x000076cccc7c0c1e => 113,
        0x0000dc766660f000 => 114,
        0x00007cc0780cf800 => 115,
        0x10307c3030341800 => 116,
        0x0000cccccccc7600 => 117,
        0x0000cccccc783000 => 118,
        0x0000c6d6fefe6c00 => 119,
        0x0000c66c386cc600 => 120,
        0x0000cccccc7c0cf8 => 121,
        0x0000fc983064fc00 => 122,
        0x1c3030e030301c00 => 123,
        0x1818180018181800 => 124,
        0xe030301c3030e000 => 125,
        0x76dc000000000000 => 126,
        0xff818181818181ff => 127,
        _ => 32,
    }
}

/// Looks up the glyph bitmap for a code.
pub fn glyph_bits(code: u8) -> (bits: u64)
    ensures
        bits == spec_glyph_bits(code),
{
    match code {
        33 => 0x183c3c1818001800,
        34 => 0x6c6c000000000000,
        35 => 0x6c6cfe6cfe6c6c00,
        36 => 0x307cc0780cf83000,
        37 => 0x00c6cc183066c600,
        38 => 0x386c3876dccc7600,
        39 => 0x6060c00000000000,
        40 => 0x1830606060301800,
        41 => 0x6030181818306000,
        42 => 0x00663cff3c660000,
        43 => 0x003030fc30300000,
        44 => 0x0000000000303060,
        45 => 0x000000fc00000000,
        46 => 0x0000000000303000,
        47 => 0x060c183060c08000,
        48 => 0x7cc6cedef6e67c00,
        49 => 0x307030303030fc00,
        50 => 0x78cc0c3860ccfc00,
        51 => 0x78cc0c380ccc7800,
        52 => 0x1c3c6cccfe0c1e00,
        53 => 0xfcc0f80c0ccc7800,
        54 => 0x3860c0f8cccc7800,
        55 => 0xfccc0c1830303000,
        56 => 0x78cccc78cccc7800,
        57 => 0x78cccc7c0c187000,
        58 => 0x0030300000303000,
        59 => 0x0030300000303060,
        60 => 0x183060c060301800,
        61 => 0x0000fc0000fc0000,
        62 => 0x6030180c18306000,
        63 => 0x78cc0c1830003000,
        64 => 0x7cc6dededec07800,
        65 => 0x3078ccccfccccc00,
        66 => 0xfc66667c6666fc00,
        67 => 0x3c66c0c0c0663c00,
        68 => 0xf86c6666666cf800,
        69 => 0xfe6268786862fe00,
        70 => 0xfe6268786860f000,
        71 => 0x3c66c0c0ce663e00,
        72 => 0xccccccfccccccc00,
        73 => 0x7830303030307800,
        74 => 0x1e0c0c0ccccc7800,
        75 => 0xe6666c786c66e600,
        76 => 0xf06060606266fe00,
        77 => 0xc6eefefed6c6c600,
        78 => 0xc6e6f6decec6c600,
        79 => 0x386cc6c6c66c3800,
        80 => 0xfc66667c6060f000,
        81 => 0x78ccccccdc781c00,
        82 => 0xfc66667c6c66e600,
        83 => 0x78cce0701ccc7800,
        84 => 0xfcb4303030307800,
        85 => 0xccccccccccccfc00,
        86 => 0xcccccccccc783000,
        87 => 0xc6c6c6d6feeec600,
        88 => 0xc6c66c38386cc600,
        89 => 0xcccccc7830307800,
        90 => 0xfec68c183266fe00,
        91 => 0x7860606060607800,
        92 => 0xc06030180c060200,
        93 => 0x7818181818187800,
        94 => 0x10386cc600000000,
        95 => 0x00000000000000ff,
        96 => 0x3030180000000000,
        97 => 0x0000780c7ccc7600,
        98 => 0xe060607c6666dc00,
        99 => 0x000078ccc0cc7800,
        100 => 0x1c0c0c7ccccc7600,
        101 => 0x000078ccfcc07800,
        102 => 0x386c60f06060f000,
        103 => 0x000076cccc7c0cf8,
        104 => 0xe0606c766666e600,
        105 => 0x3000703030307800,
        106 => 0x0c000c0c0ccccc78,
        107 => 0xe060666c786ce600,
        108 => 0x7030303030307800,
        109 => 0x0000ccfefed6c600,
        110 => 0x0000f8cccccccc00,
        111 => 0x000078cccccc7800,
        112 => 0x0000dc66667c60f0,
        113 => 0x000076cccc7c0c1e,
        114 => 0x0000dc766660f000,
        115 => 0x00007cc0780cf800,
        116 => 0x10307c3030341800,
        117 => 0x0000cccccccc7600,
        118 => 0x0000cccccc783000,
        119 => 0x0000c6d6fefe6c00,
        120 => 0x0000c66c386cc600,
        121 => 0x0000cccccc7c0cf8,
        122 => 0x0000fc983064fc00,
        123 => 0x1c3030e030301c00,
        124 => 0x1818180018181800,
        125 => 0xe030301c3030e000,
        126 => 0x76dc000000000000,
        127 => 0xff818181818181ff,
        _ => 0x0000000000000000,
    }
}

/// Whether the glyph of `code` has a foreground pixel at `(col, row)`,
/// counting from the top-left corner.
pub open spec fn spec_glyph_pixel(code: u8, row: int, col: int) -> bool {
    (spec_glyph_bits(code) >> ((63 - 8 * row - col) as u64)) & 1 == 1
}

/// Whether bit `col` of a row byte, read most-significant-first, is a
/// foreground pixel.
pub open spec fn spec_row_pixel(row_bits: u8, col: int) -> bool {
    (row_bits >> ((7 - col) as u8)) & 1 == 1
}

/// One row of a glyph as a byte, leftmost pixel in the top bit.
pub fn glyph_row(code: u8, row: u32) -> (row_bits: u8)
    requires
        row < 8,
    ensures
        forall|col: int|
            0 <= col < 8 ==> #[trigger] spec_row_pixel(row_bits, col) == spec_glyph_pixel(
                code,
                row as int,
                col,
            ),
{
    let g = glyph_bits(code);
    let row_bits = ((g >> (56 - 8 * row)) & 0xFF) as u8;
    proof {
        let r = row as u64;
        assert forall|col: int| 0 <= col < 8 implies #[trigger] spec_row_pixel(row_bits, col)
            == spec_glyph_pixel(code, row as int, col) by {
            let c = col as u64;
            assert(((((g >> ((56 - 8 * r) as u64)) & 0xFF) as u8 >> ((7 - c) as u8)) & 1 == 1) == (
            (g >> ((63 - 8 * r - c) as u64)) & 1 == 1)) by (bit_vector)
                requires
                    r < 8,
                    c < 8,
            ;
        }
    }
    row_bits
}

/// Every code in `[32, 127]` has its own bitmap: two different codes
/// in the table never share one, so in particular every non-space
/// code's glyph differs from the blank space glyph.
#[verifier::rlimit(100)]
pub proof fn lemma_glyph_codes_distinct(a: u8, b: u8)
    requires
        32 <= a <= 127,
        32 <= b <= 127,
        a != b,
    ensures
        spec_glyph_bits(a) != spec_glyph_bits(b),
{
    assert(spec_code_of(spec_glyph_bits(a)) == a);
    assert(spec_code_of(spec_glyph_bits(b)) == b);
}

/// The space glyph is blank: no foreground pixel anywhere.
pub proof fn lemma_space_glyph_blank()
    ensures
        spec_glyph_bits(32) == 0,
        forall|row: int, col: int|
            0 <= row < 8 && 0 <= col < 8 ==> !spec_glyph_pixel(32, row, col),
{
    assert forall|row: int, col: int|
        0 <= row < 8 && 0 <= col < 8 implies !spec_glyph_pixel(32, row, col) by {
        let sh = (63 - 8 * row - col) as u64;
        assert((0u64 >> sh) & 1 == 0) by (bit_vector);
    }
}

/// Every code outside `[32, 127]` renders as the space glyph.
pub proof fn lemma_glyph_outside_range_is_space(code: u8)
    requires
        code < 32 || code > 127,
    ensures
        spec_glyph_bits(code) == spec_glyph_bits(32),
{
}

} // verus!
