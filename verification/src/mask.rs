use vstd::prelude::*;
use crate::matrix::{Grid, grid_wf, spec_idx, spec_is_fmt_pos, lemma_idx_inj, lemma_side_sq,
    spec_fmt_bit, spec_fmt_row_a, spec_fmt_col_a, spec_fmt_row_b, spec_fmt_col_b,
    fmt_coord_a, fmt_coord_b, fmt_positions_in_bounds};
use crate::tables::{format_info_l, spec_format_info_l};

verus! {

/// The eight data-mask predicates of the standard, by row and column.
pub open spec fn spec_mask_bit(k: int, r: int, c: int) -> bool {
    if k == 0 { (r + c) % 2 == 0 }
    else if k == 1 { r % 2 == 0 }
    else if k == 2 { c % 3 == 0 }
    else if k == 3 { (r + c) % 3 == 0 }
    else if k == 4 { (r / 2 + c / 3) % 2 == 0 }
    else if k == 5 { (r * c) % 2 + (r * c) % 3 == 0 }
    else if k == 6 { ((r * c) % 2 + (r * c) % 3) % 2 == 0 }
    else { ((r + c) % 2 + (r * c) % 3) % 2 == 0 }
}

pub fn mask_bit_at(k: u8, r: usize, c: usize) -> (b: bool)
    requires
        k < 8,
        r < 177,
        c < 177,
    ensures
        b == spec_mask_bit(k as int, r as int, c as int),
{
    proof {
        assert(r as int * c as int <= 30976) by (nonlinear_arith)
            requires r < 177, c < 177,
        {
        }
    }
    match k {
        0 => (r + c) % 2 == 0,
        1 => r % 2 == 0,
        2 => c % 3 == 0,
        3 => (r + c) % 3 == 0,
        4 => (r / 2 + c / 3) % 2 == 0,
        5 => (r * c) % 2 + (r * c) % 3 == 0,
        6 => ((r * c) % 2 + (r * c) % 3) % 2 == 0,
        _ => ((r + c) % 2 + (r * c) % 3) % 2 == 0,
    }
}

/// The module pattern with the mask XORed into the data region.
pub open spec fn spec_apply_mask(dark: Seq<bool>, func: Seq<bool>, side: int, k: int) -> Seq<bool> {
    Seq::new(dark.len(), |i: int|
        if func[i] { dark[i] } else { dark[i] != spec_mask_bit(k, i / side, i % side) })
}

/// Inverts every data module selected by the mask predicate; reserved
/// modules are untouched.
pub fn apply_mask(g: &mut Grid, k: u8)
    requires
        grid_wf(*old(g)),
        k < 8,
    ensures
        grid_wf(*final(g)),
        final(g).side == old(g).side,
        final(g).func@ == old(g).func@,
        final(g).dark@.len() == old(g).dark@.len(),
        final(g).dark@ == spec_apply_mask(old(g).dark@, old(g).func@, old(g).side as int, k as int),
        forall|i: int| 0 <= i < old(g).dark@.len() && old(g).func@[i]
            ==> final(g).dark@[i] == old(g).dark@[i],
        forall|i: int| 0 <= i < old(g).dark@.len() && !old(g).func@[i]
            ==> final(g).dark@[i] == (old(g).dark@[i]
                != spec_mask_bit(k as int, i / old(g).side as int, i % old(g).side as int)),
{
    let side: usize = g.side;
    proof {
        lemma_side_sq(side as int);
    }
    let n: usize = side * side;
    let ghost snap: Seq<bool> = g.dark@;
    let mut i: usize = 0;
    while i < n
        invariant
            grid_wf(*g),
            g.side == side,
            g.func@ == old(g).func@,
            g.dark@.len() == snap.len(),
            n == side * side,
            i <= n,
            forall|t: int| i <= t < snap.len() ==> g.dark@[t] == snap[t],
            forall|t: int| 0 <= t < i && g.func@[t] ==> g.dark@[t] == snap[t],
            forall|t: int| 0 <= t < i && !g.func@[t]
                ==> g.dark@[t] == (snap[t] != spec_mask_bit(k as int, t / side as int, t % side as int)),
        decreases n - i,
    {
        let r: usize = i / side;
        let c: usize = i % side;
        proof {
            assert((i as int) / (side as int) < side as int && (i as int) % (side as int) < side as int)
                by (nonlinear_arith)
                requires 0 < side, i < side * side,
            {
            }
        }
        let fu: bool = g.func[i];
        if !fu {
            if mask_bit_at(k, r, c) {
                let cur: bool = g.dark[i];
                g.dark.set(i, !cur);
            }
        }
        i = i + 1;
    }
    proof {
        assert(g.dark@ =~= spec_apply_mask(snap, g.func@, side as int, k as int));
    }
}

/// Distinct positions of the first format-information copy have distinct
/// grid indices.
pub proof fn lemma_fmt_a_distinct(side: int, t1: int, t2: int)
    requires
        21 <= side,
        0 <= t1 < 15,
        0 <= t2 < 15,
        t1 != t2,
    ensures
        spec_idx(side, spec_fmt_row_a(t1), spec_fmt_col_a(t1))
            != spec_idx(side, spec_fmt_row_a(t2), spec_fmt_col_a(t2)),
{
    if spec_idx(side, spec_fmt_row_a(t1), spec_fmt_col_a(t1))
        == spec_idx(side, spec_fmt_row_a(t2), spec_fmt_col_a(t2)) {
        lemma_idx_inj(side, spec_fmt_row_a(t1), spec_fmt_col_a(t1),
            spec_fmt_row_a(t2), spec_fmt_col_a(t2));
    }
}

/// Distinct positions of the second format-information copy have
/// distinct grid indices.
pub proof fn lemma_fmt_b_distinct(side: int, t1: int, t2: int)
    requires
        21 <= side,
        0 <= t1 < 15,
        0 <= t2 < 15,
        t1 != t2,
    ensures
        spec_idx(side, spec_fmt_row_b(side, t1), spec_fmt_col_b(side, t1))
            != spec_idx(side, spec_fmt_row_b(side, t2), spec_fmt_col_b(side, t2)),
{
    if spec_idx(side, spec_fmt_row_b(side, t1), spec_fmt_col_b(side, t1))
        == spec_idx(side, spec_fmt_row_b(side, t2), spec_fmt_col_b(side, t2)) {
        lemma_idx_inj(side, spec_fmt_row_b(side, t1), spec_fmt_col_b(side, t1),
            spec_fmt_row_b(side, t2), spec_fmt_col_b(side, t2));
    }
}

/// The first format-information copy never overlaps the second: its
/// modules sit beside the top-left finder pattern, the second copy's
/// beside the other two.
pub proof fn lemma_fmt_ab_distinct(side: int, t1: int, t2: int)
    requires
        21 <= side,
        0 <= t1 < 15,
        0 <= t2 < 15,
    ensures
        spec_idx(side, spec_fmt_row_a(t1), spec_fmt_col_a(t1))
            != spec_idx(side, spec_fmt_row_b(side, t2), spec_fmt_col_b(side, t2)),
{
    if spec_idx(side, spec_fmt_row_a(t1), spec_fmt_col_a(t1))
        == spec_idx(side, spec_fmt_row_b(side, t2), spec_fmt_col_b(side, t2)) {
        lemma_idx_inj(side, spec_fmt_row_a(t1), spec_fmt_col_a(t1),
            spec_fmt_row_b(side, t2), spec_fmt_col_b(side, t2));
    }
}

/// The module pattern after the first `j` format-information bits are
/// written into both copies, the second copy first.
pub open spec fn spec_write_format_steps(dark: Seq<bool>, side: int, k: int, j: int) -> Seq<bool>
    decreases j,
{
    if j <= 0 {
        dark
    } else {
        let prev = spec_write_format_steps(dark, side, k, j - 1);
        let bit = spec_fmt_bit(spec_format_info_l(k), j - 1);
        prev.update(spec_idx(side, spec_fmt_row_b(side, j - 1), spec_fmt_col_b(side, j - 1)), bit)
            .update(spec_idx(side, spec_fmt_row_a(j - 1), spec_fmt_col_a(j - 1)), bit)
    }
}

/// The module pattern with the mask's format-information word written.
pub open spec fn spec_write_format(dark: Seq<bool>, side: int, k: int) -> Seq<bool> {
    spec_write_format_steps(dark, side, k, 15)
}

/// Writes both copies of the format-information word for level L and the
/// given mask into the reserved modules.
pub fn write_format(g: &mut Grid, k: u8)
    requires
        grid_wf(*old(g)),
        k < 8,
        forall|j: int| 0 <= j < 15 ==> old(g).func@[#[trigger] spec_idx(old(g).side as int, spec_fmt_row_a(j), spec_fmt_col_a(j))],
        forall|j: int| 0 <= j < 15 ==> old(g).func@[#[trigger] spec_idx(old(g).side as int, spec_fmt_row_b(old(g).side as int, j), spec_fmt_col_b(old(g).side as int, j))],
    ensures
        grid_wf(*final(g)),
        final(g).side == old(g).side,
        final(g).func@ == old(g).func@,
        final(g).dark@.len() == old(g).dark@.len(),
        final(g).dark@ == spec_write_format(old(g).dark@, old(g).side as int, k as int),
        forall|i: int| 0 <= i < old(g).dark@.len() && !old(g).func@[i]
            ==> final(g).dark@[i] == old(g).dark@[i],
        forall|i: int| 0 <= i < old(g).dark@.len() && !spec_is_fmt_pos(old(g).side as int, i)
            ==> final(g).dark@[i] == old(g).dark@[i],
        forall|j: int| 0 <= j < 15 ==> final(g).dark@[#[trigger] spec_idx(final(g).side as int, spec_fmt_row_a(j), spec_fmt_col_a(j))]
            == spec_fmt_bit(spec_format_info_l(k as int), j),
        forall|j: int| 0 <= j < 15 ==> final(g).dark@[#[trigger] spec_idx(final(g).side as int, spec_fmt_row_b(final(g).side as int, j), spec_fmt_col_b(final(g).side as int, j))]
            == spec_fmt_bit(spec_format_info_l(k as int), j),
{
    let side: usize = g.side;
    let value: u16 = format_info_l(k);
    proof {
        fmt_positions_in_bounds(side as int);
    }
    let mut j: usize = 0;
    while j < 15
        invariant
            grid_wf(*g),
            g.side == side,
            g.func@ == old(g).func@,
            g.dark@.len() == old(g).dark@.len(),
            j <= 15,
            forall|i: int| 0 <= i < old(g).dark@.len() && !old(g).func@[i]
                ==> g.dark@[i] == old(g).dark@[i],
            forall|i: int| 0 <= i < old(g).dark@.len() && !spec_is_fmt_pos(side as int, i)
                ==> g.dark@[i] == old(g).dark@[i],
            forall|t: int| 0 <= t < j ==> g.dark@[#[trigger] spec_idx(side as int, spec_fmt_row_a(t), spec_fmt_col_a(t))]
                == spec_fmt_bit(value, t),
            forall|t: int| 0 <= t < j ==> g.dark@[#[trigger] spec_idx(side as int, spec_fmt_row_b(side as int, t), spec_fmt_col_b(side as int, t))]
                == spec_fmt_bit(value, t),
            g.dark@ == spec_write_format_steps(old(g).dark@, side as int, k as int, j as int),
        decreases 15 - j,
    {
        let bit: bool = (value >> ((14 - j) as u16)) & 1 == 1;
        let (rb, cb) = fmt_coord_b(j, side);
        let (ra, ca) = fmt_coord_a(j);
        proof {
            assert forall|t: int| 0 <= t < 15 implies
                spec_idx(side as int, spec_fmt_row_a(t), spec_fmt_col_a(t))
                    != spec_idx(side as int, rb as int, cb as int) by {
                lemma_fmt_ab_distinct(side as int, t, j as int);
            }
            assert forall|t: int| 0 <= t < j implies
                spec_idx(side as int, spec_fmt_row_a(t), spec_fmt_col_a(t))
                    != spec_idx(side as int, ra as int, ca as int) by {
                lemma_fmt_a_distinct(side as int, t, j as int);
            }
            assert forall|t: int| 0 <= t < j implies
                spec_idx(side as int, spec_fmt_row_b(side as int, t), spec_fmt_col_b(side as int, t))
                    != spec_idx(side as int, rb as int, cb as int)
                && spec_idx(side as int, spec_fmt_row_b(side as int, t), spec_fmt_col_b(side as int, t))
                    != spec_idx(side as int, ra as int, ca as int) by {
                lemma_fmt_b_distinct(side as int, t, j as int);
                lemma_fmt_ab_distinct(side as int, j as int, t);
            }
        }
        proof {
            assert(spec_is_fmt_pos(side as int, spec_idx(side as int, ra as int, ca as int)));
            assert(spec_is_fmt_pos(side as int, spec_idx(side as int, rb as int, cb as int)));
        }
        g.put_any(rb, cb, bit);
        g.put_any(ra, ca, bit);
        j = j + 1;
    }
}

/// Module colour along a row (`horizontal`) or column, at spec level.
pub open spec fn spec_line_cell(side: int, cells: Seq<bool>, horizontal: bool, line: int, pos: int) -> bool {
    if horizontal { cells[spec_idx(side, line, pos)] } else { cells[spec_idx(side, pos, line)] }
}

/// Run-tracking state after reading the first `j` modules of a line:
/// the colour and length of the open run, and the score of closed runs
/// (a run of length n at least five scores n - 2).
pub open spec fn spec_adj_state(side: int, cells: Seq<bool>, h: bool, line: int, j: int) -> (bool, int, int)
    decreases j,
{
    if j <= 1 {
        (spec_line_cell(side, cells, h, line, 0), 1, 0)
    } else {
        let prev = spec_adj_state(side, cells, h, line, j - 1);
        let cur = spec_line_cell(side, cells, h, line, j - 1);
        if cur == prev.0 {
            (prev.0, prev.1 + 1, prev.2)
        } else {
            (cur, 1, prev.2 + if prev.1 >= 5 { prev.1 - 2 } else { 0 })
        }
    }
}

/// Adjacent-run score of one full line, the final open run included.
pub open spec fn spec_adj_line(side: int, cells: Seq<bool>, h: bool, line: int) -> int {
    let end = spec_adj_state(side, cells, h, line, side);
    end.2 + if end.1 >= 5 { end.1 - 2 } else { 0 }
}

/// Adjacent-run score of the first `i` lines of one orientation.
pub open spec fn spec_adj_total(side: int, cells: Seq<bool>, h: bool, i: int) -> int
    decreases i,
{
    if i <= 0 { 0 } else { spec_adj_total(side, cells, h, i - 1) + spec_adj_line(side, cells, h, i - 1) }
}

/// Whether the 2x2 block at a cell is one colour.
pub open spec fn spec_block_hit(side: int, cells: Seq<bool>, r: int, c: int) -> bool {
    cells[spec_idx(side, r, c)] == cells[spec_idx(side, r, c + 1)]
        && cells[spec_idx(side, r, c + 1)] == cells[spec_idx(side, r + 1, c)]
        && cells[spec_idx(side, r + 1, c)] == cells[spec_idx(side, r + 1, c + 1)]
}

/// Block score of the first `c` cells of one row: three points per
/// one-colour 2x2 block, overlaps counted.
pub open spec fn spec_block_row(side: int, cells: Seq<bool>, r: int, c: int) -> int
    decreases c,
{
    if c <= 0 { 0 }
    else { spec_block_row(side, cells, r, c - 1) + if spec_block_hit(side, cells, r, c - 1) { 3int } else { 0int } }
}

pub open spec fn spec_block_total(side: int, cells: Seq<bool>, r: int) -> int
    decreases r,
{
    if r <= 0 { 0 } else { spec_block_total(side, cells, r - 1) + spec_block_row(side, cells, r - 1, side - 1) }
}

/// Whether a finder-look-alike run starts at a position: the seven-module
/// dark-light-dark-dark-dark-light-dark pattern with four light modules
/// or the symbol edge on at least one side.
pub open spec fn spec_finder_hit(side: int, cells: Seq<bool>, h: bool, i: int, j: int) -> bool {
    spec_line_cell(side, cells, h, i, j) && !spec_line_cell(side, cells, h, i, j + 1)
        && spec_line_cell(side, cells, h, i, j + 2) && spec_line_cell(side, cells, h, i, j + 3)
        && spec_line_cell(side, cells, h, i, j + 4) && !spec_line_cell(side, cells, h, i, j + 5)
        && spec_line_cell(side, cells, h, i, j + 6)
        && (!((j >= 1 && spec_line_cell(side, cells, h, i, j - 1))
                || (j >= 2 && spec_line_cell(side, cells, h, i, j - 2))
                || (j >= 3 && spec_line_cell(side, cells, h, i, j - 3))
                || (j >= 4 && spec_line_cell(side, cells, h, i, j - 4)))
            || !((j + 7 < side && spec_line_cell(side, cells, h, i, j + 7))
                || (j + 8 < side && spec_line_cell(side, cells, h, i, j + 8))
                || (j + 9 < side && spec_line_cell(side, cells, h, i, j + 9))
                || (j + 10 < side && spec_line_cell(side, cells, h, i, j + 10))))
}

/// Finder-look-alike score over the first `j` start positions of a line,
/// forty points each.
pub open spec fn spec_finder_row(side: int, cells: Seq<bool>, h: bool, i: int, j: int) -> int
    decreases j,
{
    if j <= 0 { 0 }
    else { spec_finder_row(side, cells, h, i, j - 1) + if spec_finder_hit(side, cells, h, i, j - 1) { 40int } else { 0int } }
}

pub open spec fn spec_finder_total(side: int, cells: Seq<bool>, h: bool, i: int) -> int
    decreases i,
{
    if i <= 0 { 0 } else { spec_finder_total(side, cells, h, i - 1) + spec_finder_row(side, cells, h, i - 1, side - 6) }
}

/// Number of dark modules among the first `i`.
pub open spec fn spec_dark_count(cells: Seq<bool>, i: int) -> int
    decreases i,
{
    if i <= 0 { 0 } else { spec_dark_count(cells, i - 1) + if cells[i - 1] { 1int } else { 0int } }
}

/// Balance score: the deviation of the dark share from one half, in
/// steps of half a percent.
pub open spec fn spec_balance(side: int, cells: Seq<bool>) -> int {
    let ratio = spec_dark_count(cells, cells.len() as int) * 200 / (cells.len() as int);
    if ratio >= 100 { ratio - 100 } else { 100 - ratio }
}

/// The full mask-selection penalty: adjacent runs in both orientations,
/// one-colour blocks, finder-look-alikes in both orientations, and the
/// dark-ratio balance.
pub open spec fn spec_penalty(side: int, cells: Seq<bool>) -> int {
    spec_adj_total(side, cells, true, side) + spec_adj_total(side, cells, false, side)
        + spec_block_total(side, cells, side - 1) + spec_finder_total(side, cells, true, side)
        + spec_finder_total(side, cells, false, side) + spec_balance(side, cells)
}

/// Module colour along a row (`horizontal`) or column of the grid.
fn line_cell(g: &Grid, horizontal: bool, line: usize, pos: usize) -> (b: bool)
    requires
        grid_wf(*g),
        line < g.side,
        pos < g.side,
    ensures
        b == spec_line_cell(g.side as int, g.dark@, horizontal, line as int, pos as int),
{
    if horizontal {
        g.get(line, pos)
    } else {
        g.get(pos, line)
    }
}

/// Penalty for runs of five or more equal modules in a row or column:
/// a run of length n scores n - 2.
fn penalty_adjacent(g: &Grid, horizontal: bool) -> (score: u64)
    requires
        grid_wf(*g),
    ensures
        score <= 7000000,
        score as int == spec_adj_total(g.side as int, g.dark@, horizontal, g.side as int),
{
    let side: usize = g.side;
    let mut score: u64 = 0;
    let mut i: usize = 0;
    while i < side
        invariant
            i <= side,
            score <= 36000 * i as u64,
            score as int == spec_adj_total(side as int, g.dark@, horizontal, i as int),
        decreases side - i,
    {
        let ghost s0: int = score as int;
        let mut last: bool = line_cell(g, horizontal, i, 0);
        let mut run_len: u64 = 1;
        let mut j: usize = 1;
        while j < side
            invariant
                1 <= j <= side,
                1 <= run_len <= j as u64,
                score <= 36000 * i as u64 + 200 * j as u64,
                s0 <= score as int,
                last == spec_adj_state(side as int, g.dark@, horizontal, i as int, j as int).0,
                run_len as int == spec_adj_state(side as int, g.dark@, horizontal, i as int, j as int).1,
                score as int - s0 == spec_adj_state(side as int, g.dark@, horizontal, i as int, j as int).2,
            decreases side - j,
        {
            let cur: bool = line_cell(g, horizontal, i, j);
            if cur == last {
                run_len = run_len + 1;
            } else {
                if run_len >= 5 {
                    score = score + (run_len - 2);
                }
                last = cur;
                run_len = 1;
            }
            j = j + 1;
        }
        if run_len >= 5 {
            score = score + (run_len - 2);
        }
        i = i + 1;
    }
    score
}

/// Penalty for 2x2 blocks of one colour: 3 points each, overlaps counted.
fn penalty_blocks(g: &Grid) -> (score: u64)
    requires
        grid_wf(*g),
    ensures
        score <= 7000000,
        score as int == spec_block_total(g.side as int, g.dark@, g.side as int - 1),
{
    let side: usize = g.side;
    let mut score: u64 = 0;
    let mut r: usize = 0;
    while r + 1 < side
        invariant
            r <= side - 1,
            score <= 600 * r as u64,
            score as int == spec_block_total(side as int, g.dark@, r as int),
        decreases side - r,
    {
        let mut c: usize = 0;
        while c + 1 < side
            invariant
                c <= side - 1,
                r + 1 < side,
                score <= 600 * r as u64 + 3 * c as u64,
                score as int == spec_block_total(side as int, g.dark@, r as int)
                    + spec_block_row(side as int, g.dark@, r as int, c as int),
            decreases side - c,
        {
            let a: bool = g.get(r, c);
            if a == g.get(r, c + 1) && a == g.get(r + 1, c) && a == g.get(r + 1, c + 1) {
                score = score + 3;
            }
            c = c + 1;
        }
        r = r + 1;
    }
    score
}

/// Penalty for finder-look-alike runs (dark-light-dark-dark-dark-light-dark
/// flanked by four light modules or the symbol edge): 40 points each.
fn penalty_finder(g: &Grid, horizontal: bool) -> (score: u64)
    requires
        grid_wf(*g),
    ensures
        score <= 7000000,
        score as int == spec_finder_total(g.side as int, g.dark@, horizontal, g.side as int),
{
    let side: usize = g.side;
    let mut score: u64 = 0;
    let mut i: usize = 0;
    while i < side
        invariant
            i <= side,
            score <= 7200 * i as u64,
            score as int == spec_finder_total(side as int, g.dark@, horizontal, i as int),
        decreases side - i,
    {
        let mut j: usize = 0;
        while j + 6 < side
            invariant
                j <= side - 6,
                i < side,
                score <= 7200 * i as u64 + 40 * j as u64,
                score as int == spec_finder_total(side as int, g.dark@, horizontal, i as int)
                    + spec_finder_row(side as int, g.dark@, horizontal, i as int, j as int),
            decreases side - j,
        {
            let m0: bool = line_cell(g, horizontal, i, j);
            let m1: bool = line_cell(g, horizontal, i, j + 1);
            let m2: bool = line_cell(g, horizontal, i, j + 2);
            let m3: bool = line_cell(g, horizontal, i, j + 3);
            let m4: bool = line_cell(g, horizontal, i, j + 4);
            let m5: bool = line_cell(g, horizontal, i, j + 5);
            let m6: bool = line_cell(g, horizontal, i, j + 6);
            if m0 && !m1 && m2 && m3 && m4 && !m5 && m6 {
                let left_dark: bool = (j >= 1 && line_cell(g, horizontal, i, j - 1))
                    || (j >= 2 && line_cell(g, horizontal, i, j - 2))
                    || (j >= 3 && line_cell(g, horizontal, i, j - 3))
                    || (j >= 4 && line_cell(g, horizontal, i, j - 4));
                let right_dark: bool = (j + 7 < side && line_cell(g, horizontal, i, j + 7))
                    || (j + 8 < side && line_cell(g, horizontal, i, j + 8))
                    || (j + 9 < side && line_cell(g, horizontal, i, j + 9))
                    || (j + 10 < side && line_cell(g, horizontal, i, j + 10));
                if !left_dark || !right_dark {
                    score = score + 40;
                }
            }
            j = j + 1;
        }
        i = i + 1;
    }
    score
}

/// Penalty for an unbalanced dark module ratio: the deviation of the dark
/// share from one half, in steps of half a percent.
fn penalty_balance(g: &Grid) -> (score: u64)
    requires
        grid_wf(*g),
    ensures
        score <= 7000000,
        score as int == spec_balance(g.side as int, g.dark@),
{
    let n: usize = g.dark.len();
    let mut cnt: u64 = 0;
    let mut i: usize = 0;
    while i < n
        invariant
            i <= n,
            cnt <= i as u64,
            n == g.dark@.len(),
            cnt as int == spec_dark_count(g.dark@, i as int),
        decreases n - i,
    {
        if g.dark[i] {
            cnt = cnt + 1;
        }
        i = i + 1;
    }
    proof {
        lemma_side_sq(g.side as int);
        assert(g.side as int * g.side as int >= 441) by (nonlinear_arith)
            requires g.side >= 21,
        {
        }
        assert(cnt as int * 200 / (n as int) <= 200) by (nonlinear_arith)
            requires 0 < n, cnt as int <= n as int,
        {
        }
    }
    let total: u64 = n as u64;
    let ratio: u64 = cnt * 200 / total;
    if ratio >= 100 {
        ratio - 100
    } else {
        100 - ratio
    }
}

/// Total penalty of a masked grid: the four scores of the standard's
/// mask-selection heuristic combined.
pub fn penalty(g: &Grid) -> (score: u64)
    requires
        grid_wf(*g),
    ensures
        score as int == spec_penalty(g.side as int, g.dark@),
{
    penalty_adjacent(g, true) + penalty_adjacent(g, false) + penalty_blocks(g)
        + penalty_finder(g, true) + penalty_finder(g, false) + penalty_balance(g)
}

fn copy_grid(g: &Grid) -> (r: Grid)
    requires
        grid_wf(*g),
    ensures
        grid_wf(r),
        r.side == g.side,
        r.dark@ == g.dark@,
        r.func@ == g.func@,
{
    let n: usize = g.dark.len();
    let mut dark: Vec<bool> = Vec::new();
    let mut func: Vec<bool> = Vec::new();
    let mut i: usize = 0;
    while i < n
        invariant
            i <= n,
            n == g.dark@.len(),
            n == g.func@.len(),
            dark@.len() == i,
            func@.len() == i,
            forall|j: int| 0 <= j < i ==> dark@[j] == g.dark@[j] && func@[j] == g.func@[j],
        decreases n - i,
    {
        dark.push(g.dark[i]);
        func.push(g.func[i]);
        i = i + 1;
    }
    proof {
        assert(dark@ =~= g.dark@);
        assert(func@ =~= g.func@);
    }
    Grid { side: g.side, dark, func }
}

/// The complete candidate symbol pattern for one mask: the mask XORed
/// into the data region, then its format-information word written.
pub open spec fn spec_candidate(dark: Seq<bool>, func: Seq<bool>, side: int, k: int) -> Seq<bool> {
    spec_write_format(spec_apply_mask(dark, func, side, k), side, k)
}

/// One fully masked candidate: the mask XORed into the data region and
/// the matching format information written.
fn masked_candidate(base: &Grid, k: u8) -> (c: Grid)
    requires
        grid_wf(*base),
        k < 8,
        forall|j: int| 0 <= j < 15 ==> base.func@[#[trigger] spec_idx(base.side as int, spec_fmt_row_a(j), spec_fmt_col_a(j))],
        forall|j: int| 0 <= j < 15 ==> base.func@[#[trigger] spec_idx(base.side as int, spec_fmt_row_b(base.side as int, j), spec_fmt_col_b(base.side as int, j))],
    ensures
        grid_wf(c),
        c.side == base.side,
        c.func@ == base.func@,
        c.dark@.len() == base.dark@.len(),
        forall|i: int| 0 <= i < base.dark@.len() && !base.func@[i]
            ==> c.dark@[i] == (base.dark@[i]
                != spec_mask_bit(k as int, i / base.side as int, i % base.side as int)),
        forall|j: int| 0 <= j < 15 ==> c.dark@[#[trigger] spec_idx(base.side as int, spec_fmt_row_a(j), spec_fmt_col_a(j))]
            == spec_fmt_bit(spec_format_info_l(k as int), j),
        forall|j: int| 0 <= j < 15 ==> c.dark@[#[trigger] spec_idx(base.side as int, spec_fmt_row_b(base.side as int, j), spec_fmt_col_b(base.side as int, j))]
            == spec_fmt_bit(spec_format_info_l(k as int), j),
        forall|i: int| 0 <= i < base.dark@.len() && base.func@[i] && !spec_is_fmt_pos(base.side as int, i)
            ==> c.dark@[i] == base.dark@[i],
        c.dark@ == spec_candidate(base.dark@, base.func@, base.side as int, k as int),
{
    let mut c: Grid = copy_grid(base);
    apply_mask(&mut c, k);
    write_format(&mut c, k);
    c
}

/// Tries all eight masks on the placed matrix and keeps the one with the
/// lowest penalty score, the lowest index winning ties: no candidate
/// mask scores strictly lower than the one applied.
pub fn select_mask(base: &Grid) -> (r: (Grid, u8))
    requires
        grid_wf(*base),
        forall|j: int| 0 <= j < 15 ==> base.func@[#[trigger] spec_idx(base.side as int, spec_fmt_row_a(j), spec_fmt_col_a(j))],
        forall|j: int| 0 <= j < 15 ==> base.func@[#[trigger] spec_idx(base.side as int, spec_fmt_row_b(base.side as int, j), spec_fmt_col_b(base.side as int, j))],
    ensures
        grid_wf(r.0),
        r.0.side == base.side,
        r.1 < 8,
        r.0.func@ == base.func@,
        r.0.dark@.len() == base.dark@.len(),
        forall|i: int| 0 <= i < base.dark@.len() && !base.func@[i]
            ==> r.0.dark@[i] == (base.dark@[i]
                != spec_mask_bit(r.1 as int, i / base.side as int, i % base.side as int)),
        forall|j: int| 0 <= j < 15 ==> r.0.dark@[#[trigger] spec_idx(base.side as int, spec_fmt_row_a(j), spec_fmt_col_a(j))]
            == spec_fmt_bit(spec_format_info_l(r.1 as int), j),
        forall|j: int| 0 <= j < 15 ==> r.0.dark@[#[trigger] spec_idx(base.side as int, spec_fmt_row_b(base.side as int, j), spec_fmt_col_b(base.side as int, j))]
            == spec_fmt_bit(spec_format_info_l(r.1 as int), j),
        forall|i: int| 0 <= i < base.dark@.len() && base.func@[i] && !spec_is_fmt_pos(base.side as int, i)
            ==> r.0.dark@[i] == base.dark@[i],
        r.0.dark@ == spec_candidate(base.dark@, base.func@, base.side as int, r.1 as int),
        forall|k2: int| 0 <= k2 < 8 ==> spec_penalty(base.side as int,
            #[trigger] spec_candidate(base.dark@, base.func@, base.side as int, k2))
            >= spec_penalty(base.side as int, r.0.dark@),
        forall|k2: int| 0 <= k2 < r.1 as int ==> spec_penalty(base.side as int,
            #[trigger] spec_candidate(base.dark@, base.func@, base.side as int, k2))
            > spec_penalty(base.side as int, r.0.dark@),
{
    let mut best: Grid = masked_candidate(base, 0);
    let mut best_k: u8 = 0;
    let mut best_s: u64 = penalty(&best);
    let mut k: u8 = 1;
    while k < 8
        invariant
            1 <= k <= 8,
            best_k < 8,
            grid_wf(best),
            best.side == base.side,
            best.func@ == base.func@,
            best.dark@.len() == base.dark@.len(),
            forall|i: int| 0 <= i < base.dark@.len() && !base.func@[i]
                ==> best.dark@[i] == (base.dark@[i]
                    != spec_mask_bit(best_k as int, i / base.side as int, i % base.side as int)),
            forall|j: int| 0 <= j < 15 ==> best.dark@[#[trigger] spec_idx(base.side as int, spec_fmt_row_a(j), spec_fmt_col_a(j))]
                == spec_fmt_bit(spec_format_info_l(best_k as int), j),
            forall|j: int| 0 <= j < 15 ==> best.dark@[#[trigger] spec_idx(base.side as int, spec_fmt_row_b(base.side as int, j), spec_fmt_col_b(base.side as int, j))]
                == spec_fmt_bit(spec_format_info_l(best_k as int), j),
            forall|i: int| 0 <= i < base.dark@.len() && base.func@[i] && !spec_is_fmt_pos(base.side as int, i)
                ==> best.dark@[i] == base.dark@[i],
            best.dark@ == spec_candidate(base.dark@, base.func@, base.side as int, best_k as int),
            best_s as int == spec_penalty(base.side as int, best.dark@),
            forall|k2: int| 0 <= k2 < k ==> spec_penalty(base.side as int,
                #[trigger] spec_candidate(base.dark@, base.func@, base.side as int, k2))
                >= best_s as int,
            forall|k2: int| 0 <= k2 < best_k as int ==> spec_penalty(base.side as int,
                #[trigger] spec_candidate(base.dark@, base.func@, base.side as int, k2))
                > best_s as int,
        decreases 8 - k,
    {
        let cand: Grid = masked_candidate(base, k);
        let s: u64 = penalty(&cand);
        if s < best_s {
            best = cand;
            best_k = k;
            best_s = s;
        }
        k = k + 1;
    }
    (best, best_k)
}

} // verus!
