use vstd::prelude::*;

verus! {

/// Classification of a payload's character set, which decides the
/// bit-packing density of the data segment.
#[derive(Clone, Copy, PartialEq, Eq, Structural, Debug)]
pub enum EncodingMode {
    Numeric,
    Alphanumeric,
    Byte,
}

/// Side length of a symbol of the given version: `4*version + 17`.
pub open spec fn spec_side(v: int) -> int {
    4 * v + 17
}

pub fn side_of(v: u8) -> (r: usize)
    requires
        1 <= v <= 40,
    ensures
        r == spec_side(v as int),
        21 <= r <= 177,
{
    4 * (v as usize) + 17
}

/// Number of data codewords available at error-correction level L,
/// per ISO/IEC 18004 table 7 (bit counts divided by eight).
pub open spec fn spec_data_codewords_l(v: int) -> int {
    if v == 1 { 19 } else if v == 2 { 34 } else if v == 3 { 55 } else if v == 4 { 80 }
    else if v == 5 { 108 } else if v == 6 { 136 } else if v == 7 { 156 } else if v == 8 { 194 }
    else if v == 9 { 232 } else if v == 10 { 274 } else if v == 11 { 324 } else if v == 12 { 370 }
    else if v == 13 { 428 } else if v == 14 { 461 } else if v == 15 { 523 } else if v == 16 { 589 }
    else if v == 17 { 647 } else if v == 18 { 721 } else if v == 19 { 795 } else if v == 20 { 861 }
    else if v == 21 { 932 } else if v == 22 { 1006 } else if v == 23 { 1094 } else if v == 24 { 1174 }
    else if v == 25 { 1276 } else if v == 26 { 1370 } else if v == 27 { 1468 } else if v == 28 { 1531 }
    else if v == 29 { 1631 } else if v == 30 { 1735 } else if v == 31 { 1843 } else if v == 32 { 1955 }
    else if v == 33 { 2071 } else if v == 34 { 2191 } else if v == 35 { 2306 } else if v == 36 { 2434 }
    else if v == 37 { 2566 } else if v == 38 { 2702 } else if v == 39 { 2812 } else if v == 40 { 2956 }
    else { 0 }
}

pub fn data_codewords_l(v: u8) -> (r: usize)
    requires
        1 <= v <= 40,
    ensures
        r == spec_data_codewords_l(v as int),
        19 <= r <= 2956,
{
    match v {
        1 => 19, 2 => 34, 3 => 55, 4 => 80, 5 => 108, 6 => 136, 7 => 156, 8 => 194,
        9 => 232, 10 => 274, 11 => 324, 12 => 370, 13 => 428, 14 => 461, 15 => 523, 16 => 589,
        17 => 647, 18 => 721, 19 => 795, 20 => 861, 21 => 932, 22 => 1006, 23 => 1094, 24 => 1174,
        25 => 1276, 26 => 1370, 27 => 1468, 28 => 1531, 29 => 1631, 30 => 1735, 31 => 1843, 32 => 1955,
        33 => 2071, 34 => 2191, 35 => 2306, 36 => 2434, 37 => 2566, 38 => 2702, 39 => 2812, _ => 2956,
    }
}

/// Number of Reed-Solomon error-correction codewords per block at level L.
pub open spec fn spec_ec_len_l(v: int) -> int {
    if v == 1 { 7 } else if v == 2 { 10 } else if v == 3 { 15 } else if v == 4 { 20 }
    else if v == 5 { 26 } else if v == 6 { 18 } else if v == 7 { 20 } else if v == 8 { 24 }
    else if v == 9 { 30 } else if v == 10 { 18 } else if v == 11 { 20 } else if v == 12 { 24 }
    else if v == 13 { 26 } else if v == 14 { 30 } else if v == 15 { 22 } else if v == 16 { 24 }
    else if v == 17 { 28 } else if v == 18 { 30 } else if v == 19 { 28 } else if v == 20 { 28 }
    else if v == 21 { 28 } else if v == 22 { 28 } else if v == 23 { 30 } else if v == 24 { 30 }
    else if v == 25 { 26 } else if v == 26 { 28 } else if v == 27 { 30 } else { 30 }
}

/// Block layout at level L: `(group-1 block count, group-1 data codewords,
/// group-2 block count, group-2 data codewords)`.
pub open spec fn spec_blocks_l(v: int) -> (int, int, int, int) {
    if v == 1 { (1, 19, 0, 0) } else if v == 2 { (1, 34, 0, 0) } else if v == 3 { (1, 55, 0, 0) }
    else if v == 4 { (1, 80, 0, 0) } else if v == 5 { (1, 108, 0, 0) } else if v == 6 { (2, 68, 0, 0) }
    else if v == 7 { (2, 78, 0, 0) } else if v == 8 { (2, 97, 0, 0) } else if v == 9 { (2, 116, 0, 0) }
    else if v == 10 { (2, 68, 2, 69) } else if v == 11 { (4, 81, 0, 0) } else if v == 12 { (2, 92, 2, 93) }
    else if v == 13 { (4, 107, 0, 0) } else if v == 14 { (3, 115, 1, 116) } else if v == 15 { (5, 87, 1, 88) }
    else if v == 16 { (5, 98, 1, 99) } else if v == 17 { (1, 107, 5, 108) } else if v == 18 { (5, 120, 1, 121) }
    else if v == 19 { (3, 113, 4, 114) } else if v == 20 { (3, 107, 5, 108) } else if v == 21 { (4, 116, 4, 117) }
    else if v == 22 { (2, 111, 7, 112) } else if v == 23 { (4, 121, 5, 122) } else if v == 24 { (6, 117, 4, 118) }
    else if v == 25 { (8, 106, 4, 107) } else if v == 26 { (10, 114, 2, 115) } else if v == 27 { (8, 122, 4, 123) }
    else if v == 28 { (3, 117, 10, 118) } else if v == 29 { (7, 116, 7, 117) } else if v == 30 { (5, 115, 10, 116) }
    else if v == 31 { (13, 115, 3, 116) } else if v == 32 { (17, 115, 0, 0) } else if v == 33 { (17, 115, 1, 116) }
    else if v == 34 { (13, 115, 6, 116) } else if v == 35 { (12, 121, 7, 122) } else if v == 36 { (6, 121, 14, 122) }
    else if v == 37 { (17, 122, 4, 123) } else if v == 38 { (4, 122, 18, 123) } else if v == 39 { (20, 117, 4, 118) }
    else { (19, 118, 6, 119) }
}

pub fn ec_block_info_l(v: u8) -> (r: (usize, usize, usize, usize, usize))
    requires
        1 <= v <= 40,
    ensures
        r.0 == spec_ec_len_l(v as int),
        (r.1 as int, r.2 as int, r.3 as int, r.4 as int) == spec_blocks_l(v as int),
        7 <= r.0 <= 30,
        1 <= r.1 <= 20,
        19 <= r.2 <= 122,
        r.3 <= 18,
        r.4 <= 123,
        r.3 > 0 ==> r.4 == r.2 + 1,
{
    match v {
        1 => (7, 1, 19, 0, 0), 2 => (10, 1, 34, 0, 0), 3 => (15, 1, 55, 0, 0),
        4 => (20, 1, 80, 0, 0), 5 => (26, 1, 108, 0, 0), 6 => (18, 2, 68, 0, 0),
        7 => (20, 2, 78, 0, 0), 8 => (24, 2, 97, 0, 0), 9 => (30, 2, 116, 0, 0),
        10 => (18, 2, 68, 2, 69), 11 => (20, 4, 81, 0, 0), 12 => (24, 2, 92, 2, 93),
        13 => (26, 4, 107, 0, 0), 14 => (30, 3, 115, 1, 116), 15 => (22, 5, 87, 1, 88),
        16 => (24, 5, 98, 1, 99), 17 => (28, 1, 107, 5, 108), 18 => (30, 5, 120, 1, 121),
        19 => (28, 3, 113, 4, 114), 20 => (28, 3, 107, 5, 108), 21 => (28, 4, 116, 4, 117),
        22 => (28, 2, 111, 7, 112), 23 => (30, 4, 121, 5, 122), 24 => (30, 6, 117, 4, 118),
        25 => (26, 8, 106, 4, 107), 26 => (28, 10, 114, 2, 115), 27 => (30, 8, 122, 4, 123),
        28 => (30, 3, 117, 10, 118), 29 => (30, 7, 116, 7, 117), 30 => (30, 5, 115, 10, 116),
        31 => (30, 13, 115, 3, 116), 32 => (30, 17, 115, 0, 0), 33 => (30, 17, 115, 1, 116),
        34 => (30, 13, 115, 6, 116), 35 => (30, 12, 121, 7, 122), 36 => (30, 6, 121, 14, 122),
        37 => (30, 17, 122, 4, 123), 38 => (30, 4, 122, 18, 123), 39 => (30, 20, 117, 4, 118),
        _ => (30, 19, 118, 6, 119),
    }
}

/// The block layout accounts for every data codeword of the version.
pub proof fn lemma_blocks_cover_data(v: int)
    requires
        1 <= v <= 40,
    ensures
        spec_blocks_l(v).0 * spec_blocks_l(v).1 + spec_blocks_l(v).2 * spec_blocks_l(v).3
            == spec_data_codewords_l(v),
{
}

/// Length in bits of the character-count indicator for a mode at a version.
pub open spec fn spec_cci_bits(m: EncodingMode, v: int) -> int {
    match m {
        EncodingMode::Numeric => if v <= 9 { 10 } else if v <= 26 { 12 } else { 14 },
        EncodingMode::Alphanumeric => if v <= 9 { 9 } else if v <= 26 { 11 } else { 13 },
        EncodingMode::Byte => if v <= 9 { 8 } else { 16 },
    }
}

pub fn cci_bits(m: EncodingMode, v: u8) -> (r: usize)
    requires
        1 <= v <= 40,
    ensures
        r == spec_cci_bits(m, v as int),
        8 <= r <= 16,
{
    match m {
        EncodingMode::Numeric => if v <= 9 { 10 } else if v <= 26 { 12 } else { 14 },
        EncodingMode::Alphanumeric => if v <= 9 { 9 } else if v <= 26 { 11 } else { 13 },
        EncodingMode::Byte => if v <= 9 { 8 } else { 16 },
    }
}

/// The 15 format-information bits (error-correction level L), already
/// combined with the BCH remainder and the fixed XOR mask of the standard,
/// indexed by the data-mask index.
pub open spec fn spec_format_info_l(mask: int) -> u16 {
    if mask == 0 { 0x77c4 } else if mask == 1 { 0x72f3 } else if mask == 2 { 0x7daa }
    else if mask == 3 { 0x789d } else if mask == 4 { 0x662f } else if mask == 5 { 0x6318 }
    else if mask == 6 { 0x6c41 } else { 0x6976 }
}

pub fn format_info_l(mask: u8) -> (r: u16)
    requires
        mask < 8,
    ensures
        r == spec_format_info_l(mask as int),
{
    match mask {
        0 => 0x77c4, 1 => 0x72f3, 2 => 0x7daa, 3 => 0x789d,
        4 => 0x662f, 5 => 0x6318, 6 => 0x6c41, _ => 0x6976,
    }
}

/// Distinct mask indices have distinct format-information words, so a
/// symbol records exactly one of the eight masks.
pub proof fn lemma_format_info_l_injective(m1: int, m2: int)
    requires
        0 <= m1 < 8,
        0 <= m2 < 8,
        m1 != m2,
    ensures
        spec_format_info_l(m1) != spec_format_info_l(m2),
{
}

/// The 18 version-information bits for versions 7 and above: the
/// 6-bit version number with its 12-bit Golay remainder appended.
pub open spec fn spec_version_info(v: int) -> u32 {
    if v == 7 { 0x07c94 } else if v == 8 { 0x085bc } else if v == 9 { 0x09a99 }
    else if v == 10 { 0x0a4d3 } else if v == 11 { 0x0bbf6 } else if v == 12 { 0x0c762 }
    else if v == 13 { 0x0d847 } else if v == 14 { 0x0e60d } else if v == 15 { 0x0f928 }
    else if v == 16 { 0x10b78 } else if v == 17 { 0x1145d } else if v == 18 { 0x12a17 }
    else if v == 19 { 0x13532 } else if v == 20 { 0x149a6 } else if v == 21 { 0x15683 }
    else if v == 22 { 0x168c9 } else if v == 23 { 0x177ec } else if v == 24 { 0x18ec4 }
    else if v == 25 { 0x191e1 } else if v == 26 { 0x1afab } else if v == 27 { 0x1b08e }
    else if v == 28 { 0x1cc1a } else if v == 29 { 0x1d33f } else if v == 30 { 0x1ed75 }
    else if v == 31 { 0x1f250 } else if v == 32 { 0x209d5 } else if v == 33 { 0x216f0 }
    else if v == 34 { 0x228ba } else if v == 35 { 0x2379f } else if v == 36 { 0x24b0b }
    else if v == 37 { 0x2542e } else if v == 38 { 0x26a64 } else if v == 39 { 0x27541 }
    else { 0x28c69 }
}

pub fn version_info(v: u8) -> (r: u32)
    requires
        7 <= v <= 40,
    ensures
        r == spec_version_info(v as int),
{
    match v {
        7 => 0x07c94, 8 => 0x085bc, 9 => 0x09a99, 10 => 0x0a4d3, 11 => 0x0bbf6,
        12 => 0x0c762, 13 => 0x0d847, 14 => 0x0e60d, 15 => 0x0f928, 16 => 0x10b78,
        17 => 0x1145d, 18 => 0x12a17, 19 => 0x13532, 20 => 0x149a6, 21 => 0x15683,
        22 => 0x168c9, 23 => 0x177ec, 24 => 0x18ec4, 25 => 0x191e1, 26 => 0x1afab,
        27 => 0x1b08e, 28 => 0x1cc1a, 29 => 0x1d33f, 30 => 0x1ed75, 31 => 0x1f250,
        32 => 0x209d5, 33 => 0x216f0, 34 => 0x228ba, 35 => 0x2379f, 36 => 0x24b0b,
        37 => 0x2542e, 38 => 0x26a64, 39 => 0x27541, _ => 0x28c69,
    }
}

/// Alignment-pattern centre coordinates for versions 2 and above.
pub open spec fn spec_alignment_positions(v: int) -> Seq<usize> {
    if v == 2 { seq![6usize, 18] } else if v == 3 { seq![6usize, 22] }
    else if v == 4 { seq![6usize, 26] } else if v == 5 { seq![6usize, 30] }
    else if v == 6 { seq![6usize, 34] } else if v == 7 { seq![6usize, 22, 38] }
    else if v == 8 { seq![6usize, 24, 42] } else if v == 9 { seq![6usize, 26, 46] }
    else if v == 10 { seq![6usize, 28, 50] } else if v == 11 { seq![6usize, 30, 54] }
    else if v == 12 { seq![6usize, 32, 58] } else if v == 13 { seq![6usize, 34, 62] }
    else if v == 14 { seq![6usize, 26, 46, 66] } else if v == 15 { seq![6usize, 26, 48, 70] }
    else if v == 16 { seq![6usize, 26, 50, 74] } else if v == 17 { seq![6usize, 30, 54, 78] }
    else if v == 18 { seq![6usize, 30, 56, 82] } else if v == 19 { seq![6usize, 30, 58, 86] }
    else if v == 20 { seq![6usize, 34, 62, 90] } else if v == 21 { seq![6usize, 28, 50, 72, 94] }
    else if v == 22 { seq![6usize, 26, 50, 74, 98] } else if v == 23 { seq![6usize, 30, 54, 78, 102] }
    else if v == 24 { seq![6usize, 28, 54, 80, 106] } else if v == 25 { seq![6usize, 32, 58, 84, 110] }
    else if v == 26 { seq![6usize, 30, 58, 86, 114] } else if v == 27 { seq![6usize, 34, 62, 90, 118] }
    else if v == 28 { seq![6usize, 26, 50, 74, 98, 122] } else if v == 29 { seq![6usize, 30, 54, 78, 102, 126] }
    else if v == 30 { seq![6usize, 26, 52, 78, 104, 130] } else if v == 31 { seq![6usize, 30, 56, 82, 108, 134] }
    else if v == 32 { seq![6usize, 34, 60, 86, 112, 138] } else if v == 33 { seq![6usize, 30, 58, 86, 114, 142] }
    else if v == 34 { seq![6usize, 34, 62, 90, 118, 146] } else if v == 35 { seq![6usize, 30, 54, 78, 102, 126, 150] }
    else if v == 36 { seq![6usize, 24, 50, 76, 102, 128, 154] } else if v == 37 { seq![6usize, 28, 54, 80, 106, 132, 158] }
    else if v == 38 { seq![6usize, 32, 58, 84, 110, 136, 162] } else if v == 39 { seq![6usize, 26, 54, 82, 110, 138, 166] }
    else { seq![6usize, 30, 58, 86, 114, 142, 170] }
}

#[verifier::rlimit(60)]
pub fn alignment_positions(v: u8) -> (r: Vec<usize>)
    requires
        2 <= v <= 40,
    ensures
        r@ == spec_alignment_positions(v as int),
{
    let r: Vec<usize> = match v {
        2 => vec![6, 18], 3 => vec![6, 22], 4 => vec![6, 26], 5 => vec![6, 30], 6 => vec![6, 34],
        7 => vec![6, 22, 38], 8 => vec![6, 24, 42], 9 => vec![6, 26, 46], 10 => vec![6, 28, 50],
        11 => vec![6, 30, 54], 12 => vec![6, 32, 58], 13 => vec![6, 34, 62],
        14 => vec![6, 26, 46, 66], 15 => vec![6, 26, 48, 70], 16 => vec![6, 26, 50, 74],
        17 => vec![6, 30, 54, 78], 18 => vec![6, 30, 56, 82], 19 => vec![6, 30, 58, 86],
        20 => vec![6, 34, 62, 90], 21 => vec![6, 28, 50, 72, 94], 22 => vec![6, 26, 50, 74, 98],
        23 => vec![6, 30, 54, 78, 102], 24 => vec![6, 28, 54, 80, 106], 25 => vec![6, 32, 58, 84, 110],
        26 => vec![6, 30, 58, 86, 114], 27 => vec![6, 34, 62, 90, 118],
        28 => vec![6, 26, 50, 74, 98, 122], 29 => vec![6, 30, 54, 78, 102, 126],
        30 => vec![6, 26, 52, 78, 104, 130], 31 => vec![6, 30, 56, 82, 108, 134],
        32 => vec![6, 34, 60, 86, 112, 138], 33 => vec![6, 30, 58, 86, 114, 142],
        34 => vec![6, 34, 62, 90, 118, 146], 35 => vec![6, 30, 54, 78, 102, 126, 150],
        36 => vec![6, 24, 50, 76, 102, 128, 154], 37 => vec![6, 28, 54, 80, 106, 132, 158],
        38 => vec![6, 32, 58, 84, 110, 136, 162], 39 => vec![6, 26, 54, 82, 110, 138, 166],
        _ => vec![6, 30, 58, 86, 114, 142, 170],
    };
    proof {
        assert(r@ =~= spec_alignment_positions(v as int));
    }
    r
}

} // verus!
