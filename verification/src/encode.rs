use vstd::prelude::*;
use crate::tables::{spec_side, spec_data_codewords_l, data_codewords_l, cci_bits, spec_format_info_l,
    lemma_format_info_l_injective};
use crate::codewords::{spec_mode, spec_fits, spec_codeword_bits, spec_bytes_to_bits, detect_mode, data_bits, build_bits,
    finalize_codewords, interleave_blocks, push_number, lemma_too_long_never_fits,
    lemma_fits_monotone_at_40};
use crate::matrix::{Grid, base_matrix, place_data, spec_place_data, spec_base, spec_funcs, spec_idx, spec_fmt_row_a, spec_fmt_col_a, spec_fmt_row_b, spec_fmt_col_b,
    spec_fmt_bit, spec_finder_blocks, spec_finder_dark, spec_is_fmt_pos, lemma_corners_not_fmt_pos,
    lemma_side_sq, lemma_idx_bound};
use crate::mask::{select_mask, spec_mask_bit, spec_candidate, spec_penalty};

verus! {

/// The only expected encoder failure: the payload overruns the capacity
/// of the largest symbol at the lowest error-correction level.
#[derive(Clone, Copy, PartialEq, Eq, Structural, Debug)]
pub enum EncodeError {
    PayloadTooLarge,
}

/// A finished QR symbol: the module matrix together with the version and
/// the data-mask index its format information records.
pub struct QrMatrix {
    pub version: u8,
    pub side: usize,
    pub mask: u8,
    pub modules: Vec<bool>,
    pub placed: Ghost<Seq<bool>>,
    pub funcs: Ghost<Seq<bool>>,
    pub base: Ghost<Seq<bool>>,
}

impl QrMatrix {
    /// Well-formedness of a finished symbol: the side length follows the
    /// version, exactly one mask index below eight is recorded in the
    /// format information, and the data region is the placed codeword
    /// pattern with exactly that mask XORed in (`placed` and `funcs` keep
    /// the pre-mask pattern and the function-module map).
    pub open spec fn wf(self) -> bool {
        &&& 1 <= self.version <= 40
        &&& self.side == spec_side(self.version as int)
        &&& self.modules@.len() == self.side * self.side
        &&& self.mask < 8
        &&& self.funcs@.len() == self.side * self.side
        &&& self.placed@.len() == self.side * self.side
        &&& forall|i: int| 0 <= i < self.side * self.side && self.funcs@[i]
            ==> self.modules@[i] == self.placed@[i]
        &&& forall|i: int| 0 <= i < self.side * self.side && !self.funcs@[i]
            ==> self.modules@[i] == (self.placed@[i]
                != spec_mask_bit(self.mask as int, i / self.side as int, i % self.side as int))
        &&& forall|j: int| 0 <= j < 15
            ==> self.modules@[#[trigger] spec_idx(self.side as int, spec_fmt_row_a(j), spec_fmt_col_a(j))]
                == spec_fmt_bit(spec_format_info_l(self.mask as int), j)
        &&& forall|j: int| 0 <= j < 15
            ==> self.modules@[#[trigger] spec_idx(self.side as int, spec_fmt_row_b(self.side as int, j), spec_fmt_col_b(self.side as int, j))]
                == spec_fmt_bit(spec_format_info_l(self.mask as int), j)
        &&& spec_finder_blocks(self.side as int, self.modules@)
        &&& self.base@.len() == self.side * self.side
        &&& forall|i: int| 0 <= i < self.side * self.side && !self.funcs@[i] ==> !self.base@[i]
        &&& self.funcs@ == spec_funcs(self.version as int)
        &&& self.base@ == spec_base(self.version as int)
    }

    pub fn is_dark(&self, r: usize, c: usize) -> (b: bool)
        requires
            self.wf(),
            r < self.side,
            c < self.side,
        ensures
            b == self.modules@[spec_idx(self.side as int, r as int, c as int)],
    {
        proof {
            lemma_side_sq(self.side as int);
            lemma_idx_bound(self.side as int, r as int, c as int);
        }
        self.modules[r * self.side + c]
    }
}

/// Encodes a payload as a QR symbol at the smallest version that fits it
/// at error-correction level L; rejects payloads beyond the version-40
/// capacity.
pub fn encode(data: &[u8]) -> (res: Result<QrMatrix, EncodeError>)
    ensures
        res is Ok <==> spec_fits(data@, 40),
        match res {
            Ok(m) => m.wf() && spec_fits(data@, m.version as int)
                && (forall|v2: int| 1 <= v2 < m.version as int ==> !spec_fits(data@, v2))
                && (forall|i: int| 0 <= i < m.side * m.side && !m.funcs@[i]
                    ==> m.placed@[i] == spec_place_data(m.base@, m.funcs@, m.side as int,
                        spec_codeword_bits(data@, m.version as int))[i])
                && m.modules@ == spec_candidate(
                    spec_place_data(m.base@, m.funcs@, m.side as int,
                        spec_codeword_bits(data@, m.version as int)),
                    m.funcs@, m.side as int, m.mask as int)
                && (forall|k2: int| 0 <= k2 < 8 ==> spec_penalty(m.side as int,
                    #[trigger] spec_candidate(
                        spec_place_data(m.base@, m.funcs@, m.side as int,
                            spec_codeword_bits(data@, m.version as int)),
                        m.funcs@, m.side as int, k2))
                    >= spec_penalty(m.side as int, m.modules@))
                && (forall|k2: int| 0 <= k2 < m.mask as int ==> spec_penalty(m.side as int,
                    #[trigger] spec_candidate(
                        spec_place_data(m.base@, m.funcs@, m.side as int,
                            spec_codeword_bits(data@, m.version as int)),
                        m.funcs@, m.side as int, k2))
                    > spec_penalty(m.side as int, m.modules@)),
            Err(e) => e == EncodeError::PayloadTooLarge,
        },
{
    let n: usize = data.len();
    if n > 7089 {
        proof {
            lemma_too_long_never_fits(data@, 40);
        }
        return Err(EncodeError::PayloadTooLarge);
    }
    let m = detect_mode(data);
    let db: usize = data_bits(m, n);
    let mut v: u8 = 1;
    let mut cap: usize = data_codewords_l(1);
    let mut found: bool = false;
    while v <= 40 && !found
        invariant
            1 <= v <= 41,
            m == spec_mode(data@),
            db == crate::codewords::spec_data_bits(m, n as int),
            n == data@.len(),
            forall|v2: int| 1 <= v2 < v ==> !spec_fits(data@, v2),
            found ==> v <= 40 && spec_fits(data@, v as int) && cap == spec_data_codewords_l(v as int),
        decreases 41 - v, (if found { 0int } else { 1int }),
    {
        cap = data_codewords_l(v);
        let needed: usize = 4 + cci_bits(m, v) + db;
        if needed <= 8 * cap {
            found = true;
        } else {
            v = v + 1;
        }
    }
    if !found {
        assert(!spec_fits(data@, 40));
        return Err(EncodeError::PayloadTooLarge);
    }
    proof {
        lemma_fits_monotone_at_40(data@, v as int);
    }
    let bits = build_bits(data, m, v);
    let mut bitsv = bits;
    let cw = finalize_codewords(&mut bitsv, cap);
    let full = interleave_blocks(&cw, v);
    let mut all_bits: Vec<bool> = Vec::new();
    let mut bi: usize = 0;
    while bi < full.len()
        invariant
            bi <= full@.len(),
            all_bits@ == spec_bytes_to_bits(full@, bi as int),
        decreases full@.len() - bi,
    {
        push_number(&mut all_bits, 8, full[bi] as u32);
        bi = bi + 1;
    }
    proof {
        assert(all_bits@ == spec_codeword_bits(data@, v as int));
    }
    let mut g: Grid = base_matrix(v);
    let side: usize = g.side;
    let ghost base_dark: Seq<bool> = g.dark@;
    place_data(&mut g, &all_bits);
    let (best, bk) = select_mask(&g);
    proof {
        lemma_side_sq(side as int);
    }
    let ghost funcs: Seq<bool> = g.func@;
    let ghost placed: Seq<bool> = Seq::new((side * side) as nat,
        |i: int| if funcs[i] { best.dark@[i] } else { g.dark@[i] });
    let res = QrMatrix {
        version: v,
        side,
        mask: bk,
        modules: best.dark,
        placed: Ghost(placed),
        funcs: Ghost(funcs),
        base: Ghost(base_dark),
    };
    proof {
        assert(res.funcs@ == spec_funcs(v as int));
        assert(res.base@ == spec_base(v as int));
        assert forall|pr: int, pc: int| 0 <= pr < 8 && 0 <= pc < 8 implies
            res.modules@[#[trigger] spec_idx(side as int, pr, pc)] == spec_finder_dark(pr, pc) by {
            lemma_idx_bound(side as int, pr, pc);
            lemma_corners_not_fmt_pos(side as int, pr, pc);
        }
        assert forall|pr: int, pc: int| 0 <= pr < 8 && 0 <= pc < 8 implies
            res.modules@[#[trigger] spec_idx(side as int, pr, side - 8 + pc)]
                == spec_finder_dark(pr, if pc == 0 { 7int } else { pc - 1 }) by {
            lemma_idx_bound(side as int, pr, pc);
            lemma_idx_bound(side as int, pr, side as int - 8 + pc);
            lemma_corners_not_fmt_pos(side as int, pr, pc);
        }
        assert forall|pr: int, pc: int| 0 <= pr < 8 && 0 <= pc < 8 implies
            res.modules@[#[trigger] spec_idx(side as int, side - 8 + pr, pc)]
                == spec_finder_dark(if pr == 0 { 7int } else { pr - 1 }, pc) by {
            lemma_idx_bound(side as int, pr, pc);
            lemma_idx_bound(side as int, side as int - 8 + pr, pc);
            lemma_corners_not_fmt_pos(side as int, pr, pc);
        }
        assert(spec_finder_blocks(side as int, res.modules@));
        assert forall|i: int| 0 <= i < side * side && res.funcs@[i]
            implies res.modules@[i] == res.placed@[i] by {
        }
        assert forall|i: int| 0 <= i < side * side && !res.funcs@[i]
            implies res.modules@[i] == (res.placed@[i]
                != spec_mask_bit(res.mask as int, i / side as int, i % side as int)) by {
        }
        assert(res.wf());
    }
    Ok(res)
}

/// Exactly one of the eight mask indices is recorded in the
/// format-information bits of a well-formed symbol: well-formedness
/// makes the symbol's own mask index match them, and any index whose
/// format word matches them is that same index. By well-formedness that
/// index is also the mask XORed into the data region over the placed
/// codeword pattern.
pub proof fn lemma_recorded_mask_unique(m: QrMatrix, k: int)
    requires
        m.wf(),
        0 <= k < 8,
        forall|j: int| 0 <= j < 15
            ==> m.modules@[#[trigger] spec_idx(m.side as int, spec_fmt_row_a(j), spec_fmt_col_a(j))]
                == spec_fmt_bit(spec_format_info_l(k), j),
    ensures
        k == m.mask as int,
{
    if k != m.mask as int {
        lemma_format_info_l_injective(k, m.mask as int);
        let v1 = spec_format_info_l(k);
        let v2 = spec_format_info_l(m.mask as int);
        assert forall|j: int| 0 <= j < 15 implies spec_fmt_bit(v1, j) == spec_fmt_bit(v2, j) by {
            assert(m.modules@[spec_idx(m.side as int, spec_fmt_row_a(j), spec_fmt_col_a(j))]
                == spec_fmt_bit(v1, j));
        }
        assert(spec_fmt_bit(v1, 0) == spec_fmt_bit(v2, 0));
        assert(spec_fmt_bit(v1, 1) == spec_fmt_bit(v2, 1));
        assert(spec_fmt_bit(v1, 2) == spec_fmt_bit(v2, 2));
        assert(spec_fmt_bit(v1, 3) == spec_fmt_bit(v2, 3));
        assert(spec_fmt_bit(v1, 4) == spec_fmt_bit(v2, 4));
        assert(spec_fmt_bit(v1, 5) == spec_fmt_bit(v2, 5));
        assert(spec_fmt_bit(v1, 6) == spec_fmt_bit(v2, 6));
        assert(spec_fmt_bit(v1, 7) == spec_fmt_bit(v2, 7));
        assert(spec_fmt_bit(v1, 8) == spec_fmt_bit(v2, 8));
        assert(spec_fmt_bit(v1, 9) == spec_fmt_bit(v2, 9));
        assert(spec_fmt_bit(v1, 10) == spec_fmt_bit(v2, 10));
        assert(spec_fmt_bit(v1, 11) == spec_fmt_bit(v2, 11));
        assert(spec_fmt_bit(v1, 12) == spec_fmt_bit(v2, 12));
        assert(spec_fmt_bit(v1, 13) == spec_fmt_bit(v2, 13));
        assert(spec_fmt_bit(v1, 14) == spec_fmt_bit(v2, 14));
        assert(v1 < 0x8000 && v2 < 0x8000);
        assert(v1 == v2) by (bit_vector)
            requires
                v1 < 0x8000,
                v2 < 0x8000,
                ((v1 >> 14u16) & 1 == 1) == ((v2 >> 14u16) & 1 == 1),
                ((v1 >> 13u16) & 1 == 1) == ((v2 >> 13u16) & 1 == 1),
                ((v1 >> 12u16) & 1 == 1) == ((v2 >> 12u16) & 1 == 1),
                ((v1 >> 11u16) & 1 == 1) == ((v2 >> 11u16) & 1 == 1),
                ((v1 >> 10u16) & 1 == 1) == ((v2 >> 10u16) & 1 == 1),
                ((v1 >> 9u16) & 1 == 1) == ((v2 >> 9u16) & 1 == 1),
                ((v1 >> 8u16) & 1 == 1) == ((v2 >> 8u16) & 1 == 1),
                ((v1 >> 7u16) & 1 == 1) == ((v2 >> 7u16) & 1 == 1),
                ((v1 >> 6u16) & 1 == 1) == ((v2 >> 6u16) & 1 == 1),
                ((v1 >> 5u16) & 1 == 1) == ((v2 >> 5u16) & 1 == 1),
                ((v1 >> 4u16) & 1 == 1) == ((v2 >> 4u16) & 1 == 1),
                ((v1 >> 3u16) & 1 == 1) == ((v2 >> 3u16) & 1 == 1),
                ((v1 >> 2u16) & 1 == 1) == ((v2 >> 2u16) & 1 == 1),
                ((v1 >> 1u16) & 1 == 1) == ((v2 >> 1u16) & 1 == 1),
                ((v1 >> 0u16) & 1 == 1) == ((v2 >> 0u16) & 1 == 1),
        ;
    }
}

} // verus!
