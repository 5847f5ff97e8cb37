use vstd::prelude::*;
use crate::tables::{EncodingMode, spec_cci_bits, cci_bits, spec_data_codewords_l, spec_blocks_l,
    spec_ec_len_l, ec_block_info_l, lemma_blocks_cover_data};
use crate::gf::{generator_poly, rs_remainder};

verus! {

pub open spec fn is_digit(b: u8) -> bool {
    48 <= b <= 57
}

/// Membership in the QR alphanumeric character set: digits, upper-case
/// letters, space, and the punctuation $ % * + - . / :
pub open spec fn is_alnum(b: u8) -> bool {
    is_digit(b) || (65 <= b <= 90) || b == 32 || b == 36 || b == 37 || b == 42 || b == 43
        || b == 45 || b == 46 || b == 47 || b == 58
}

/// Mode chosen for a payload: the densest packing its character set allows.
pub open spec fn spec_mode(s: Seq<u8>) -> EncodingMode {
    if forall|i: int| 0 <= i < s.len() ==> is_digit(s[i]) {
        EncodingMode::Numeric
    } else if forall|i: int| 0 <= i < s.len() ==> is_alnum(s[i]) {
        EncodingMode::Alphanumeric
    } else {
        EncodingMode::Byte
    }
}

pub fn detect_mode(data: &[u8]) -> (m: EncodingMode)
    ensures
        m == spec_mode(data@),
{
    let mut all_digit: bool = true;
    let mut all_alnum: bool = true;
    let mut i: usize = 0;
    while i < data.len()
        invariant
            i <= data@.len(),
            all_digit <==> (forall|j: int| 0 <= j < i ==> is_digit(data@[j])),
            all_alnum <==> (forall|j: int| 0 <= j < i ==> is_alnum(data@[j])),
        decreases data@.len() - i,
    {
        let b: u8 = data[i];
        if !(48 <= b && b <= 57) {
            all_digit = false;
        }
        if !((48 <= b && b <= 57) || (65 <= b && b <= 90) || b == 32 || b == 36 || b == 37
            || b == 42 || b == 43 || b == 45 || b == 46 || b == 47 || b == 58) {
            all_alnum = false;
        }
        i = i + 1;
    }
    if all_digit {
        EncodingMode::Numeric
    } else if all_alnum {
        EncodingMode::Alphanumeric
    } else {
        EncodingMode::Byte
    }
}

/// Number of bits the payload's data segment occupies in the given mode:
/// three digits per 10 bits, two alphanumeric characters per 11 bits, or
/// one byte per 8 bits, with the standard's fractional-group remainders.
pub open spec fn spec_data_bits(m: EncodingMode, n: int) -> int {
    match m {
        EncodingMode::Numeric => 10 * (n / 3) + (if n % 3 == 0 { 0int } else if n % 3 == 1 { 4int } else { 7int }),
        EncodingMode::Alphanumeric => 11 * (n / 2) + 6 * (n % 2),
        EncodingMode::Byte => 8 * n,
    }
}

/// Bits needed to encode the payload at a version: mode indicator,
/// character-count indicator, then the packed data.
pub open spec fn spec_needed_bits(s: Seq<u8>, v: int) -> int {
    4 + spec_cci_bits(spec_mode(s), v) + spec_data_bits(spec_mode(s), s.len() as int)
}

/// Whether the payload fits in a symbol of the given version at level L.
pub open spec fn spec_fits(s: Seq<u8>, v: int) -> bool {
    spec_needed_bits(s, v) <= 8 * spec_data_codewords_l(v)
}

pub fn data_bits(m: EncodingMode, n: usize) -> (r: usize)
    requires
        n <= 7089,
    ensures
        r == spec_data_bits(m, n as int),
        r <= 8 * 7089,
{
    match m {
        EncodingMode::Numeric => {
            10 * (n / 3) + (if n % 3 == 0 { 0 } else if n % 3 == 1 { 4 } else { 7 })
        },
        EncodingMode::Alphanumeric => 11 * (n / 2) + 6 * (n % 2),
        EncodingMode::Byte => 8 * n,
    }
}

/// A payload longer than 7089 bytes overruns even the roomiest packing of
/// the largest symbol.
pub proof fn lemma_too_long_never_fits(s: Seq<u8>, v: int)
    requires
        s.len() > 7089,
        1 <= v <= 40,
    ensures
        !spec_fits(s, v),
{
    let n = s.len() as int;
    assert(n / 3 >= 2363) by (nonlinear_arith)
        requires n >= 7090,
    {
    }
    assert(n / 2 >= 3545) by (nonlinear_arith)
        requires n >= 7090,
    {
    }
}

/// The `n` low bits of a value, most significant first.
pub open spec fn spec_bits_be(value: u32, n: int) -> Seq<bool> {
    Seq::new(n as nat, |j: int| (value >> ((n - 1 - j) as u32)) & 1 == 1)
}

pub fn push_number(bits: &mut Vec<bool>, n: usize, value: u32)
    requires
        n <= 24,
    ensures
        final(bits)@ == old(bits)@ + spec_bits_be(value, n as int),
        final(bits)@.len() == old(bits)@.len() + n,
{
    let mut j: usize = 0;
    while j < n
        invariant
            j <= n,
            n <= 24,
            bits@.len() == old(bits)@.len() + j,
            forall|t: int| old(bits)@.len() <= t < old(bits)@.len() + j
                ==> #[trigger] bits@[t] == ((value >> ((n - 1 - (t - old(bits)@.len())) as u32)) & 1 == 1),
            forall|t: int| 0 <= t < old(bits)@.len() ==> #[trigger] bits@[t] == old(bits)@[t],
        decreases n - j,
    {
        let bit: bool = (value >> ((n - 1 - j) as u32)) & 1 == 1;
        bits.push(bit);
        j = j + 1;
    }
    proof {
        assert(bits@ =~= old(bits)@ + spec_bits_be(value, n as int));
    }
}

/// Index of a character in the 45-symbol alphanumeric alphabet: digits,
/// then upper-case letters, then space $ % * + - . / :
pub open spec fn spec_alnum_value(b: u8) -> u32 {
    if 48 <= b <= 57 { (b - 48) as u32 }
    else if 65 <= b <= 90 { (b - 65 + 10) as u32 }
    else if b == 32 { 36 } else if b == 36 { 37 } else if b == 37 { 38 } else if b == 42 { 39 }
    else if b == 43 { 40 } else if b == 45 { 41 } else if b == 46 { 42 } else if b == 47 { 43 }
    else { 44 }
}

pub fn alnum_value(b: u8) -> (r: u32)
    requires
        is_alnum(b),
    ensures
        r == spec_alnum_value(b),
        r < 45,
{
    if 48 <= b && b <= 57 {
        (b - 48) as u32
    } else if 65 <= b && b <= 90 {
        (b - 65 + 10) as u32
    } else if b == 32 {
        36
    } else if b == 36 {
        37
    } else if b == 37 {
        38
    } else if b == 42 {
        39
    } else if b == 43 {
        40
    } else if b == 45 {
        41
    } else if b == 46 {
        42
    } else if b == 47 {
        43
    } else {
        44
    }
}

/// Numeric value of an ASCII digit.
pub open spec fn spec_digit_val(b: u8) -> u32 {
    (b - 48) as u32
}

/// The 10-bit groups of the first `i` digits, three digits per group.
pub open spec fn spec_numeric_groups(s: Seq<u8>, i: int) -> Seq<bool>
    decreases i,
{
    if i < 3 {
        Seq::empty()
    } else {
        spec_numeric_groups(s, i - 3)
            + spec_bits_be((spec_digit_val(s[i - 3]) * 100 + spec_digit_val(s[i - 2]) * 10
                + spec_digit_val(s[i - 1])) as u32, 10)
    }
}

/// The packed data bits of a numeric payload: 10 bits per full group of
/// three digits, then 4 or 7 bits for one or two left-over digits.
pub open spec fn spec_numeric_bits(s: Seq<u8>) -> Seq<bool> {
    let n = s.len() as int;
    spec_numeric_groups(s, n - n % 3) + (if n % 3 == 1 {
        spec_bits_be(spec_digit_val(s[n - 1]), 4)
    } else if n % 3 == 2 {
        spec_bits_be((spec_digit_val(s[n - 2]) * 10 + spec_digit_val(s[n - 1])) as u32, 7)
    } else {
        Seq::<bool>::empty()
    })
}

/// The 11-bit pairs of the first `i` alphanumeric characters.
pub open spec fn spec_alnum_groups(s: Seq<u8>, i: int) -> Seq<bool>
    decreases i,
{
    if i < 2 {
        Seq::empty()
    } else {
        spec_alnum_groups(s, i - 2)
            + spec_bits_be((spec_alnum_value(s[i - 2]) * 45 + spec_alnum_value(s[i - 1])) as u32, 11)
    }
}

/// The packed data bits of an alphanumeric payload: 11 bits per pair,
/// then 6 bits for a left-over character.
pub open spec fn spec_alnum_bits(s: Seq<u8>) -> Seq<bool> {
    let n = s.len() as int;
    spec_alnum_groups(s, n - n % 2) + (if n % 2 == 1 {
        spec_bits_be(spec_alnum_value(s[n - 1]), 6)
    } else {
        Seq::<bool>::empty()
    })
}

/// The packed data bits of the first `i` bytes, eight bits each.
pub open spec fn spec_byte_bits(s: Seq<u8>, i: int) -> Seq<bool>
    decreases i,
{
    if i <= 0 {
        Seq::empty()
    } else {
        spec_byte_bits(s, i - 1) + spec_bits_be(s[i - 1] as u32, 8)
    }
}

/// The mode indicator of each encoding mode.
pub open spec fn spec_mode_indicator(m: EncodingMode) -> u32 {
    match m {
        EncodingMode::Numeric => 0b0001,
        EncodingMode::Alphanumeric => 0b0010,
        EncodingMode::Byte => 0b0100,
    }
}

/// The complete bit stream of a payload at a version: mode indicator,
/// character count, then the packed data in the payload's mode.
pub open spec fn spec_build_bits(s: Seq<u8>, v: int) -> Seq<bool> {
    spec_bits_be(spec_mode_indicator(spec_mode(s)), 4)
        + spec_bits_be(s.len() as u32, spec_cci_bits(spec_mode(s), v))
        + (match spec_mode(s) {
            EncodingMode::Numeric => spec_numeric_bits(s),
            EncodingMode::Alphanumeric => spec_alnum_bits(s),
            EncodingMode::Byte => spec_byte_bits(s, s.len() as int),
        })
}

/// The header and packed payload bits for the chosen mode and version.
pub fn build_bits(data: &[u8], m: EncodingMode, v: u8) -> (bits: Vec<bool>)
    requires
        1 <= v <= 40,
        m == spec_mode(data@),
        data@.len() <= 7089,
    ensures
        bits@ == spec_build_bits(data@, v as int),
        bits@.len() == spec_needed_bits(data@, v as int),
{
    let mut bits: Vec<bool> = Vec::new();
    match m {
        EncodingMode::Numeric => push_number(&mut bits, 4, 0b0001),
        EncodingMode::Alphanumeric => push_number(&mut bits, 4, 0b0010),
        EncodingMode::Byte => push_number(&mut bits, 4, 0b0100),
    }
    let cci: usize = cci_bits(m, v);
    push_number(&mut bits, cci, data.len() as u32);
    let base: Ghost<int> = Ghost(bits@.len() as int);
    match m {
        EncodingMode::Numeric => {
            let mut i: usize = 0;
            while i + 3 <= data.len()
                invariant
                    i <= data@.len(),
                    i % 3 == 0,
                    data@.len() <= 7089,
                    forall|j: int| 0 <= j < data@.len() ==> is_digit(data@[j]),
                    bits@.len() == base@ + 10 * (i as int / 3),
                    bits@ == spec_bits_be(spec_mode_indicator(m), 4)
                        + spec_bits_be(data@.len() as u32, spec_cci_bits(m, v as int))
                        + spec_numeric_groups(data@, i as int),
                decreases data@.len() - i,
            {
                let d0: u32 = (data[i] - 48) as u32;
                let d1: u32 = (data[i + 1] - 48) as u32;
                let d2: u32 = (data[i + 2] - 48) as u32;
                push_number(&mut bits, 10, d0 * 100 + d1 * 10 + d2);
                i = i + 3;
            }
            if i + 2 == data.len() {
                let d0: u32 = (data[i] - 48) as u32;
                let d1: u32 = (data[i + 1] - 48) as u32;
                push_number(&mut bits, 7, d0 * 10 + d1);
            } else if i + 1 == data.len() {
                let d0: u32 = (data[i] - 48) as u32;
                push_number(&mut bits, 4, d0);
            }
            proof {
                let n = data@.len() as int;
                if i + 2 == n {
                    assert(n % 3 == 2 && n / 3 == i as int / 3);
                } else if i + 1 == n {
                    assert(n % 3 == 1 && n / 3 == i as int / 3);
                } else {
                    assert(i == n && n % 3 == 0);
                }
            }
        },
        EncodingMode::Alphanumeric => {
            let mut i: usize = 0;
            while i + 2 <= data.len()
                invariant
                    i <= data@.len(),
                    i % 2 == 0,
                    data@.len() <= 7089,
                    forall|j: int| 0 <= j < data@.len() ==> is_alnum(data@[j]),
                    bits@.len() == base@ + 11 * (i as int / 2),
                    bits@ == spec_bits_be(spec_mode_indicator(m), 4)
                        + spec_bits_be(data@.len() as u32, spec_cci_bits(m, v as int))
                        + spec_alnum_groups(data@, i as int),
                decreases data@.len() - i,
            {
                let a0: u32 = alnum_value(data[i]);
                let a1: u32 = alnum_value(data[i + 1]);
                push_number(&mut bits, 11, a0 * 45 + a1);
                i = i + 2;
            }
            if i + 1 == data.len() {
                let a0: u32 = alnum_value(data[i]);
                push_number(&mut bits, 6, a0);
            }
            proof {
                let n = data@.len() as int;
                if i + 1 == n {
                    assert(n % 2 == 1 && n / 2 == i as int / 2);
                } else {
                    assert(i == n && n % 2 == 0);
                }
            }
        },
        EncodingMode::Byte => {
            let mut i: usize = 0;
            while i < data.len()
                invariant
                    i <= data@.len(),
                    data@.len() <= 7089,
                    bits@.len() == base@ + 8 * i as int,
                    bits@ == spec_bits_be(spec_mode_indicator(m), 4)
                        + spec_bits_be(data@.len() as u32, spec_cci_bits(m, v as int))
                        + spec_byte_bits(data@, i as int),
                decreases data@.len() - i,
            {
                push_number(&mut bits, 8, data[i] as u32);
                i = i + 1;
            }
        },
    }
    bits
}

/// A run of light padding bits.
pub open spec fn spec_zeros(n: int) -> Seq<bool> {
    Seq::new(n as nat, |j: int| false)
}

/// The bit stream after the terminator (up to four zero bits, fewer at
/// the capacity edge) and zero padding to a byte boundary.
pub open spec fn spec_padded_bits(bits: Seq<bool>, cap: int) -> Seq<bool> {
    let t = if 8 * cap - bits.len() < 4 { 8 * cap - bits.len() } else { 4int };
    let l2 = bits.len() + t;
    bits + spec_zeros(t) + spec_zeros((8 - l2 % 8) % 8)
}

/// The byte read MSB-first from `j` bits at `base`.
pub open spec fn spec_byte_fold(bits: Seq<bool>, base: int, j: int) -> u8
    decreases j,
{
    if j <= 0 {
        0
    } else {
        ((spec_byte_fold(bits, base, j - 1) << 1u8) | (if bits[base + j - 1] { 1u8 } else { 0u8 })) as u8
    }
}

/// The first `i` codewords packed from the bit stream.
pub open spec fn spec_pack_bytes(bits: Seq<bool>, i: int) -> Seq<u8>
    decreases i,
{
    if i <= 0 {
        Seq::empty()
    } else {
        spec_pack_bytes(bits, i - 1) + seq![spec_byte_fold(bits, 8 * (i - 1), 8)]
    }
}

/// The complete data codeword sequence of a version: the packed bit
/// stream extended with the standard's alternating pad codewords up to
/// the capacity.
pub open spec fn spec_finalize_codewords(bits: Seq<bool>, cap: int) -> Seq<u8> {
    let pb = spec_padded_bits(bits, cap);
    let packed = spec_pack_bytes(pb, pb.len() as int / 8);
    packed + Seq::new((cap - packed.len()) as nat, |j: int| if j % 2 == 0 { 0xecu8 } else { 0x11u8 })
}

/// Terminator, bit padding to a byte boundary, and the standard's
/// alternating pad codewords, yielding exactly the version's data capacity.
pub fn finalize_codewords(bits: &mut Vec<bool>, cap: usize) -> (cw: Vec<u8>)
    requires
        old(bits)@.len() <= 8 * cap,
        cap <= 2956,
    ensures
        final(bits)@ == spec_padded_bits(old(bits)@, cap as int),
        cw@ == spec_finalize_codewords(old(bits)@, cap as int),
        cw@.len() == cap,
{
    let target: usize = 8 * cap;
    let remaining: usize = target - bits.len();
    let t: usize = if remaining < 4 { remaining } else { 4 };
    let mut k: usize = 0;
    while k < t
        invariant
            k <= t,
            bits@.len() == old(bits)@.len() + k,
            forall|x: int| 0 <= x < old(bits)@.len() ==> #[trigger] bits@[x] == old(bits)@[x],
            forall|x: int| old(bits)@.len() <= x < bits@.len() ==> #[trigger] bits@[x] == false,
        decreases t - k,
    {
        bits.push(false);
        k = k + 1;
    }
    let rem: usize = bits.len() % 8;
    let pad: usize = if rem == 0 { 0 } else { 8 - rem };
    let ghost l2: int = bits@.len() as int;
    let mut k2: usize = 0;
    while k2 < pad
        invariant
            k2 <= pad,
            bits@.len() == l2 + k2,
            forall|x: int| 0 <= x < old(bits)@.len() ==> #[trigger] bits@[x] == old(bits)@[x],
            forall|x: int| old(bits)@.len() <= x < bits@.len() ==> #[trigger] bits@[x] == false,
        decreases pad - k2,
    {
        bits.push(false);
        k2 = k2 + 1;
    }
    proof {
        assert(bits@ =~= spec_padded_bits(old(bits)@, cap as int));
        assert(bits@.len() % 8 == 0);
        assert(8 * (bits@.len() as int / 8) == bits@.len() as int) by (nonlinear_arith)
            requires bits@.len() % 8 == 0,
        {
        }
    }
    let mut cw: Vec<u8> = Vec::new();
    let full: usize = bits.len() / 8;
    let mut i: usize = 0;
    while i < full
        invariant
            i <= full,
            full == bits@.len() / 8,
            8 * full == bits@.len(),
            bits@.len() <= 8 * 2956 + 8,
            cw@ == spec_pack_bytes(bits@, i as int),
            cw@.len() == i,
        decreases full - i,
    {
        let mut byte: u8 = 0;
        let mut j: usize = 0;
        while j < 8
            invariant
                j <= 8,
                i < full,
                8 * full == bits@.len(),
                byte == spec_byte_fold(bits@, 8 * i as int, j as int),
            decreases 8 - j,
        {
            byte = (byte << 1) | (if bits[8 * i + j] { 1 } else { 0 });
            j = j + 1;
        }
        cw.push(byte);
        proof {
            assert(cw@ =~= spec_pack_bytes(bits@, i + 1));
        }
        i = i + 1;
    }
    let ghost packed: Seq<u8> = cw@;
    let mut alt: bool = true;
    while cw.len() < cap
        invariant
            cw@.len() <= cap,
            packed.len() <= cw@.len(),
            forall|x: int| 0 <= x < packed.len() ==> #[trigger] cw@[x] == packed[x],
            forall|x: int| packed.len() <= x < cw@.len()
                ==> #[trigger] cw@[x] == (if (x - packed.len()) % 2 == 0 { 0xecu8 } else { 0x11u8 }),
            alt == ((cw@.len() - packed.len()) % 2 == 0),
        decreases cap - cw@.len(),
    {
        cw.push(if alt { 0xec } else { 0x11 });
        alt = !alt;
    }
    proof {
        assert(cw@ =~= spec_finalize_codewords(old(bits)@, cap as int));
    }
    cw
}

/// The data codewords split into the version's blocks: group one holds
/// `c1` blocks of `s1` codewords, group two `c2` blocks of `s2`.
pub open spec fn spec_split_blocks(cw: Seq<u8>, c1: int, s1: int, c2: int, s2: int) -> Seq<Seq<u8>> {
    Seq::new((c1 + c2) as nat, |b: int|
        if b < c1 { cw.subrange(b * s1, (b + 1) * s1) }
        else { cw.subrange(c1 * s1 + (b - c1) * s2, c1 * s1 + (b - c1) * s2 + s2) })
}

/// One column of the interleaving: the `i`-th codeword of each of the
/// first `bb` blocks that has one.
pub open spec fn spec_interleave_col(blocks: Seq<Seq<u8>>, i: int, bb: int) -> Seq<u8>
    decreases bb,
{
    if bb <= 0 {
        Seq::empty()
    } else {
        spec_interleave_col(blocks, i, bb - 1)
            + (if i < blocks[bb - 1].len() { seq![blocks[bb - 1][i]] } else { Seq::<u8>::empty() })
    }
}

/// The blocks interleaved column by column over the first `i` columns.
pub open spec fn spec_interleave(blocks: Seq<Seq<u8>>, i: int) -> Seq<u8>
    decreases i,
{
    if i <= 0 {
        Seq::empty()
    } else {
        spec_interleave(blocks, i - 1) + spec_interleave_col(blocks, i - 1, blocks.len() as int)
    }
}

/// The error-correction block of each data block.
pub open spec fn spec_ec_blocks(blocks: Seq<Seq<u8>>, ec: int) -> Seq<Seq<u8>> {
    blocks.map_values(|b: Seq<u8>| crate::gf::spec_rs_remainder(b, crate::gf::spec_generator_poly(ec)))
}

/// The final codeword sequence of a version: the data blocks interleaved,
/// then the error-correction blocks interleaved.
pub open spec fn spec_interleaved_codewords(cw: Seq<u8>, v: int) -> Seq<u8> {
    let c1 = spec_blocks_l(v).0;
    let s1 = spec_blocks_l(v).1;
    let c2 = spec_blocks_l(v).2;
    let s2 = spec_blocks_l(v).3;
    let ec = spec_ec_len_l(v);
    let blocks = spec_split_blocks(cw, c1, s1, c2, s2);
    spec_interleave(blocks, if c2 > 0 { s2 } else { s1 })
        + spec_interleave(spec_ec_blocks(blocks, ec), ec)
}

/// Splits the data codewords into the version's blocks, appends each
/// block's Reed-Solomon codewords, and interleaves both sequences in the
/// standard's column order; the result holds exactly the version's full
/// codeword budget, data plus error correction.
#[verifier::rlimit(100)]
pub fn interleave_blocks(cw: &Vec<u8>, v: u8) -> (r: Vec<u8>)
    requires
        1 <= v <= 40,
        cw@.len() == spec_data_codewords_l(v as int),
    ensures
        r@ == spec_interleaved_codewords(cw@, v as int),
        r@.len() == spec_data_codewords_l(v as int)
            + (spec_blocks_l(v as int).0 + spec_blocks_l(v as int).2) * spec_ec_len_l(v as int),
{
    let (ec_len, c1, s1, c2, s2) = ec_block_info_l(v);
    proof {
        lemma_blocks_cover_data(v as int);
        assert(c1 as int * s1 as int + c2 as int * s2 as int == spec_data_codewords_l(v as int));
    }
    let mut blocks: Vec<Vec<u8>> = Vec::new();
    let mut pos: usize = 0;
    let mut k: usize = 0;
    while k < c1
        invariant
            k <= c1,
            blocks@.len() == k,
            pos as int == k as int * s1 as int,
            c1 as int * s1 as int + c2 as int * s2 as int == cw@.len(),
            forall|b: int| 0 <= b < blocks@.len() ==> blocks@[b]@.len() == s1 as int,
            forall|b: int| 0 <= b < blocks@.len()
                ==> #[trigger] blocks@[b]@ == cw@.subrange(b * s1 as int, (b + 1) * s1 as int),
        decreases c1 - k,
    {
        proof {
            assert(k as int * s1 as int + s1 as int == (k as int + 1) * s1 as int) by (nonlinear_arith);
            assert((k as int + 1) * s1 as int <= c1 as int * s1 as int) by (nonlinear_arith)
                requires k as int + 1 <= c1 as int, s1 as int >= 0,
            {
            }
            assert(c1 as int * s1 as int <= cw@.len()) by (nonlinear_arith)
                requires c1 as int * s1 as int + c2 as int * s2 as int == cw@.len() as int,
                    c2 as int >= 0, s2 as int >= 0,
            {
            }
        }
        let mut blk: Vec<u8> = Vec::new();
        let mut j: usize = 0;
        while j < s1
            invariant
                j <= s1,
                blk@.len() == j,
                pos + s1 <= cw@.len(),
                forall|t: int| 0 <= t < j ==> #[trigger] blk@[t] == cw@[pos + t],
            decreases s1 - j,
        {
            blk.push(cw[pos + j]);
            j = j + 1;
        }
        proof {
            assert(blk@ =~= cw@.subrange(pos as int, pos + s1));
        }
        blocks.push(blk);
        pos = pos + s1;
        k = k + 1;
    }
    let mut k2: usize = 0;
    while k2 < c2
        invariant
            k2 <= c2,
            blocks@.len() == c1 as int + k2 as int,
            pos as int == c1 as int * s1 as int + k2 as int * s2 as int,
            c1 as int * s1 as int + c2 as int * s2 as int == cw@.len(),
            forall|b: int| 0 <= b < blocks@.len()
                ==> blocks@[b]@.len() == (if b < c1 as int { s1 as int } else { s2 as int }),
            forall|b: int| 0 <= b < c1 as int && b < blocks@.len()
                ==> #[trigger] blocks@[b]@ == cw@.subrange(b * s1 as int, (b + 1) * s1 as int),
            forall|b: int| c1 as int <= b < blocks@.len()
                ==> #[trigger] blocks@[b]@ == cw@.subrange(c1 as int * s1 as int + (b - c1 as int) * s2 as int,
                    c1 as int * s1 as int + (b - c1 as int) * s2 as int + s2 as int),
        decreases c2 - k2,
    {
        proof {
            assert(k2 as int * s2 as int + s2 as int == (k2 as int + 1) * s2 as int) by (nonlinear_arith);
            assert((k2 as int + 1) * s2 as int <= c2 as int * s2 as int) by (nonlinear_arith)
                requires k2 as int + 1 <= c2 as int, s2 as int >= 0,
            {
            }
        }
        let mut blk: Vec<u8> = Vec::new();
        let mut j: usize = 0;
        while j < s2
            invariant
                j <= s2,
                blk@.len() == j,
                pos + s2 <= cw@.len(),
                forall|t: int| 0 <= t < j ==> #[trigger] blk@[t] == cw@[pos + t],
            decreases s2 - j,
        {
            blk.push(cw[pos + j]);
            j = j + 1;
        }
        proof {
            assert(blk@ =~= cw@.subrange(pos as int, pos + s2));
        }
        blocks.push(blk);
        pos = pos + s2;
        k2 = k2 + 1;
    }
    let ghost bv: Seq<Seq<u8>> = blocks@.map_values(|bk: Vec<u8>| bk@);
    proof {
        assert(bv =~= spec_split_blocks(cw@, c1 as int, s1 as int, c2 as int, s2 as int));
    }
    let gen: Vec<u8> = generator_poly(ec_len);
    let mut ec_blocks: Vec<Vec<u8>> = Vec::new();
    let mut b: usize = 0;
    while b < blocks.len()
        invariant
            b <= blocks@.len(),
            ec_blocks@.len() == b,
            gen@.len() == ec_len + 1,
            ec_len >= 1,
            forall|x: int| 0 <= x < ec_blocks@.len() ==> ec_blocks@[x]@.len() == ec_len as int,
            forall|x: int| 0 <= x < ec_blocks@.len()
                ==> #[trigger] ec_blocks@[x]@ == crate::gf::spec_rs_remainder(bv[x], gen@),
        decreases blocks@.len() - b,
    {
        ec_blocks.push(rs_remainder(&blocks[b], &gen));
        b = b + 1;
    }
    let ghost ebv: Seq<Seq<u8>> = ec_blocks@.map_values(|bk: Vec<u8>| bk@);
    proof {
        assert(ebv =~= spec_ec_blocks(bv, ec_len as int));
    }
    let max_data: usize = if c2 > 0 { s2 } else { s1 };
    let mut out: Vec<u8> = Vec::new();
    let mut i: usize = 0;
    while i < max_data
        invariant
            i <= max_data,
            out@.len() == (if i <= s1 { i as int * (c1 + c2) as int } else {
                s1 as int * (c1 + c2) as int + (i - s1) as int * c2 as int
            }),
            out@ == spec_interleave(bv, i as int),
        decreases max_data - i,
    {
        let ghost row_start: int = out@.len() as int;
        let mut bb: usize = 0;
        while bb < blocks.len()
            invariant
                bb <= blocks@.len(),
                i < max_data,
                out@.len() == row_start + (if i < s1 { bb as int } else {
                    if bb <= c1 { 0int } else { (bb - c1) as int }
                }),
                out@ == spec_interleave(bv, i as int) + spec_interleave_col(bv, i as int, bb as int),
            decreases blocks@.len() - bb,
        {
            if i < blocks[bb].len() {
                let x: u8 = blocks[bb][i];
                out.push(x);
            }
            bb = bb + 1;
        }
        proof {
            assert((i + 1) as int * (c1 + c2) as int == i as int * (c1 + c2) as int + (c1 + c2) as int)
                by (nonlinear_arith);
            if i >= s1 {
                assert((i + 1 - s1) as int * c2 as int == (i - s1) as int * c2 as int + c2 as int)
                    by (nonlinear_arith);
            }
        }
        i = i + 1;
    }
    proof {
        if c2 == 0 {
            assert(out@.len() == s1 as int * c1 as int) by (nonlinear_arith)
                requires out@.len() == s1 as int * (c1 + c2) as int, c2 == 0,
            {
            }
        } else {
            assert(s1 as int * (c1 + c2) as int + (s2 - s1) as int * c2 as int
                == c1 as int * s1 as int + c2 as int * s2 as int) by (nonlinear_arith);
        }
    }
    let data_len: usize = out.len();
    let ghost data_part: Seq<u8> = out@;
    let mut e: usize = 0;
    while e < ec_len
        invariant
            e <= ec_len,
            out@.len() == data_len as int + e as int * (c1 + c2) as int,
            out@ == data_part + spec_interleave(ebv, e as int),
        decreases ec_len - e,
    {
        let mut bb: usize = 0;
        while bb < ec_blocks.len()
            invariant
                bb <= ec_blocks@.len(),
                e < ec_len,
                out@.len() == data_len as int + e as int * (c1 + c2) as int + bb as int,
                out@ == data_part + spec_interleave(ebv, e as int)
                    + spec_interleave_col(ebv, e as int, bb as int),
            decreases ec_blocks@.len() - bb,
        {
            if e < ec_blocks[bb].len() {
                let x: u8 = ec_blocks[bb][e];
                out.push(x);
            }
            bb = bb + 1;
        }
        proof {
            assert((e + 1) as int * (c1 + c2) as int == e as int * (c1 + c2) as int + (c1 + c2) as int)
                by (nonlinear_arith);
        }
        e = e + 1;
    }
    proof {
        assert(ec_len as int * (c1 + c2) as int == (c1 + c2) as int * ec_len as int) by (nonlinear_arith);
        assert(out@ =~= spec_interleaved_codewords(cw@, v as int));
    }
    out
}

/// A payload that fits at any version also fits at version 40: the larger
/// symbol loses at most eight bits to a longer character-count indicator
/// and gains far more data codewords.
pub proof fn lemma_fits_monotone_at_40(s: Seq<u8>, v: int)
    requires
        1 <= v <= 40,
        spec_fits(s, v),
    ensures
        spec_fits(s, 40),
{
    if v < 40 {
        assert(spec_cci_bits(spec_mode(s), 40) <= spec_cci_bits(spec_mode(s), v) + 8);
        assert(spec_data_codewords_l(v) + 1 <= spec_data_codewords_l(40));
    }
}

/// In byte mode the version-40 capacity at level L is exactly 2953
/// payload bytes.
pub proof fn lemma_byte_capacity(s: Seq<u8>)
    requires
        spec_mode(s) == EncodingMode::Byte,
    ensures
        spec_fits(s, 40) <==> s.len() <= 2953,
{
}

/// The first `i` codewords expanded to bits, most significant first.
pub open spec fn spec_bytes_to_bits(bytes: Seq<u8>, i: int) -> Seq<bool>
    decreases i,
{
    if i <= 0 {
        Seq::empty()
    } else {
        spec_bytes_to_bits(bytes, i - 1) + spec_bits_be(bytes[i - 1] as u32, 8)
    }
}

/// The complete bit stream a payload places into a symbol of a version:
/// packed data bits, terminator and padding, Reed-Solomon codewords, all
/// interleaved and expanded to bits.
pub open spec fn spec_codeword_bits(s: Seq<u8>, v: int) -> Seq<bool> {
    let cw = spec_interleaved_codewords(
        spec_finalize_codewords(spec_build_bits(s, v), spec_data_codewords_l(v)), v);
    spec_bytes_to_bits(cw, cw.len() as int)
}

} // verus!
