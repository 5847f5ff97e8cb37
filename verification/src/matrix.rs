use vstd::prelude::*;
use crate::tables::{side_of, spec_side, version_info, alignment_positions};

verus! {

/// A square module grid under construction: `dark` holds the colour of
/// every module, `func` marks the function-pattern and reserved modules
/// that data placement and masking must skip.
pub struct Grid {
    pub side: usize,
    pub dark: Vec<bool>,
    pub func: Vec<bool>,
}

pub open spec fn grid_wf(g: Grid) -> bool {
    &&& 21 <= g.side <= 177
    &&& g.dark@.len() == g.side * g.side
    &&& g.func@.len() == g.side * g.side
}

/// Row-major index of a module.
pub open spec fn spec_idx(side: int, r: int, c: int) -> int {
    r * side + c
}

pub proof fn lemma_side_sq(side: int)
    requires
        0 <= side <= 177,
    ensures
        side * side <= 31329,
{
    assert(side * side <= 31329) by (nonlinear_arith)
        requires 0 <= side <= 177,
    {
    }
}

pub proof fn lemma_idx_bound(side: int, r: int, c: int)
    requires
        0 <= r < side,
        0 <= c < side,
    ensures
        0 <= spec_idx(side, r, c) < side * side,
    {
    assert(r * side + c < side * side) by (nonlinear_arith)
        requires 0 <= r < side, 0 <= c < side,
    {
    }
}

pub proof fn lemma_idx_inj(side: int, r1: int, c1: int, r2: int, c2: int)
    requires
        0 <= r1 < side,
        0 <= c1 < side,
        0 <= r2 < side,
        0 <= c2 < side,
        spec_idx(side, r1, c1) == spec_idx(side, r2, c2),
    ensures
        r1 == r2 && c1 == c2,
{
    assert(r1 == r2 && c1 == c2) by (nonlinear_arith)
        requires 0 <= r1 < side, 0 <= c1 < side, 0 <= r2 < side, 0 <= c2 < side,
            r1 * side + c1 == r2 * side + c2,
    {
    }
}

impl Grid {
    /// Fresh all-light grid with no function modules.
    pub fn new(side: usize) -> (g: Grid)
        requires
            21 <= side <= 177,
        ensures
            grid_wf(g),
            g.side == side,
            forall|i: int| 0 <= i < side * side ==> !g.dark@[i] && !g.func@[i],
    {
        proof {
            lemma_side_sq(side as int);
        }
        let n: usize = side * side;
        let mut dark: Vec<bool> = Vec::new();
        let mut func: Vec<bool> = Vec::new();
        let mut i: usize = 0;
        while i < n
            invariant
                dark@.len() == i,
                func@.len() == i,
                i <= n,
                forall|j: int| 0 <= j < i ==> !dark@[j] && !func@[j],
            decreases n - i,
        {
            dark.push(false);
            func.push(false);
            i = i + 1;
        }
        Grid { side, dark, func }
    }

    /// Writes a function-pattern module: colour set, module reserved.
    pub fn mark(&mut self, r: usize, c: usize, d: bool)
        requires
            grid_wf(*old(self)),
            r < old(self).side,
            c < old(self).side,
        ensures
            grid_wf(*final(self)),
            final(self).side == old(self).side,
            0 <= spec_idx(old(self).side as int, r as int, c as int) < old(self).dark@.len(),
            final(self).dark@ == old(self).dark@.update(spec_idx(old(self).side as int, r as int, c as int), d),
            final(self).func@ == old(self).func@.update(spec_idx(old(self).side as int, r as int, c as int), true),
    {
        proof {
            lemma_side_sq(self.side as int);
            lemma_idx_bound(self.side as int, r as int, c as int);
        }
        let i: usize = r * self.side + c;
        self.dark.set(i, d);
        self.func.set(i, true);
    }

    pub fn is_func(&self, r: usize, c: usize) -> (b: bool)
        requires
            grid_wf(*self),
            r < self.side,
            c < self.side,
        ensures
            b == self.func@[spec_idx(self.side as int, r as int, c as int)],
    {
        proof {
            lemma_side_sq(self.side as int);
            lemma_idx_bound(self.side as int, r as int, c as int);
        }
        self.func[r * self.side + c]
    }

    pub fn get(&self, r: usize, c: usize) -> (b: bool)
        requires
            grid_wf(*self),
            r < self.side,
            c < self.side,
        ensures
            b == self.dark@[spec_idx(self.side as int, r as int, c as int)],
    {
        proof {
            lemma_side_sq(self.side as int);
            lemma_idx_bound(self.side as int, r as int, c as int);
        }
        self.dark[r * self.side + c]
    }
}

/// Colour of a cell of the 7x7 finder pattern; offsets outside the box
/// (the separator ring) are light.
pub open spec fn spec_finder_dark(dr: int, dc: int) -> bool {
    0 <= dr < 7 && 0 <= dc < 7
        && (dr == 0 || dr == 6 || dc == 0 || dc == 6 || (2 <= dr <= 4 && 2 <= dc <= 4))
}

pub fn finder_dark(dr: usize, dc: usize) -> (b: bool)
    requires
        dr < 8,
        dc < 8,
    ensures
        b == spec_finder_dark(dr as int, dc as int),
{
    dr < 7 && dc < 7 && (dr == 0 || dr == 6 || dc == 0 || dc == 6 || (2 <= dr && dr <= 4 && 2 <= dc && dc <= 4))
}

pub proof fn lemma_idx_ne(side: int, r1: int, c1: int, r2: int, c2: int)
    requires
        0 <= r1 < side,
        0 <= c1 < side,
        0 <= r2 < side,
        0 <= c2 < side,
        r1 != r2 || c1 != c2,
    ensures
        spec_idx(side, r1, c1) != spec_idx(side, r2, c2),
{
    if spec_idx(side, r1, c1) == spec_idx(side, r2, c2) {
        lemma_idx_inj(side, r1, c1, r2, c2);
    }
}

/// Bit `14 - j` of a format-information word: the bit written at the
/// `j`-th position of either format-information copy.
pub open spec fn spec_fmt_bit(v: u16, j: int) -> bool {
    v >> ((14 - j) as u16) & 1 == 1
}

/// Coordinates of the `j`-th module of the format-information copy beside
/// the top-left finder pattern.
pub open spec fn spec_fmt_row_a(j: int) -> int {
    if j <= 7 { 8 } else if j == 8 { 7 } else { 14 - j }
}

pub open spec fn spec_fmt_col_a(j: int) -> int {
    if j <= 5 { j } else if j == 6 { 7 } else if j == 7 { 8 } else { 8 }
}

pub fn fmt_coord_a(j: usize) -> (rc: (usize, usize))
    requires
        j < 15,
    ensures
        rc.0 == spec_fmt_row_a(j as int),
        rc.1 == spec_fmt_col_a(j as int),
        rc.0 <= 8,
        rc.1 <= 8,
{
    if j <= 5 {
        (8, j)
    } else if j == 6 {
        (8, 7)
    } else if j == 7 {
        (8, 8)
    } else if j == 8 {
        (7, 8)
    } else {
        (14 - j, 8)
    }
}

pub open spec fn spec_fmt_row_b(side: int, j: int) -> int {
    if j <= 6 { side - 1 - j } else { 8 }
}

pub open spec fn spec_fmt_col_b(side: int, j: int) -> int {
    if j <= 6 { 8 } else { side - 8 + (j - 7) }
}

/// Coordinates of the `j`-th module of the second format-information
/// copy, split beside the top-right and bottom-left finder patterns.
pub fn fmt_coord_b(j: usize, side: usize) -> (rc: (usize, usize))
    requires
        j < 15,
        21 <= side,
    ensures
        rc.0 == spec_fmt_row_b(side as int, j as int),
        rc.1 == spec_fmt_col_b(side as int, j as int),
        rc.0 < side,
        rc.1 < side,
        rc.0 >= side - 7 || rc.1 >= side - 8,
{
    if j <= 6 {
        (side - 1 - j, 8)
    } else {
        (8, side - 8 + (j - 7))
    }
}


/// The set of module indices that hold the two format-information copies.
pub open spec fn spec_is_fmt_pos(side: int, i: int) -> bool {
    exists|j: int|
        #![trigger spec_idx(side, spec_fmt_row_a(j), spec_fmt_col_a(j))]
        #![trigger spec_idx(side, spec_fmt_row_b(side, j), spec_fmt_col_b(side, j))]
        0 <= j < 15 && (i == spec_idx(side, spec_fmt_row_a(j), spec_fmt_col_a(j))
            || i == spec_idx(side, spec_fmt_row_b(side, j), spec_fmt_col_b(side, j)))
}

/// The three finder patterns with their separator rings, as the colours
/// of the three 8x8 corner blocks of a cell sequence.
pub open spec fn spec_finder_blocks(side: int, dark: Seq<bool>) -> bool {
    &&& forall|pr: int, pc: int| 0 <= pr < 8 && 0 <= pc < 8
        ==> dark[#[trigger] spec_idx(side, pr, pc)] == spec_finder_dark(pr, pc)
    &&& forall|pr: int, pc: int| 0 <= pr < 8 && 0 <= pc < 8
        ==> dark[#[trigger] spec_idx(side, pr, side - 8 + pc)]
            == spec_finder_dark(pr, if pc == 0 { 7int } else { pc - 1 })
    &&& forall|pr: int, pc: int| 0 <= pr < 8 && 0 <= pc < 8
        ==> dark[#[trigger] spec_idx(side, side - 8 + pr, pc)]
            == spec_finder_dark(if pr == 0 { 7int } else { pr - 1 }, pc)
}


/// One function-pattern write at spec level: colour set, module reserved.
/// The state pairs the colour map with the function-module map.
pub open spec fn spec_mark(st: (Seq<bool>, Seq<bool>), side: int, r: int, c: int, d: bool) -> (Seq<bool>, Seq<bool>) {
    (st.0.update(spec_idx(side, r, c), d), st.1.update(spec_idx(side, r, c), true))
}

/// The first `c` cells of row `r` of the three finder corners painted.
pub open spec fn spec_finder_cols(st: (Seq<bool>, Seq<bool>), side: int, r: int, c: int) -> (Seq<bool>, Seq<bool>)
    decreases c,
{
    if c <= 0 {
        st
    } else {
        let p = spec_finder_cols(st, side, r, c - 1);
        let p1 = spec_mark(p, side, r, c - 1, spec_finder_dark(r, c - 1));
        let p2 = spec_mark(p1, side, r, side - 8 + (c - 1),
            spec_finder_dark(r, if c - 1 == 0 { 7int } else { c - 2 }));
        spec_mark(p2, side, side - 8 + r, c - 1,
            spec_finder_dark(if r == 0 { 7int } else { r - 1 }, c - 1))
    }
}

/// The first `r` rows of the three finder corners painted.
pub open spec fn spec_finder_rows(st: (Seq<bool>, Seq<bool>), side: int, r: int) -> (Seq<bool>, Seq<bool>)
    decreases r,
{
    if r <= 0 { st } else { spec_finder_cols(spec_finder_rows(st, side, r - 1), side, r - 1, 8) }
}

/// The first `dc` cells of row `dr` of one alignment pattern painted.
pub open spec fn spec_align_dcs(st: (Seq<bool>, Seq<bool>), side: int, pr: int, pc: int, dr: int, dc: int) -> (Seq<bool>, Seq<bool>)
    decreases dc,
{
    if dc <= 0 {
        st
    } else {
        let p = spec_align_dcs(st, side, pr, pc, dr, dc - 1);
        spec_mark(p, side, pr - 2 + dr, pc - 2 + (dc - 1),
            dr == 0 || dr == 4 || dc - 1 == 0 || dc - 1 == 4 || (dr == 2 && dc - 1 == 2))
    }
}

/// The first `dr` rows of one alignment pattern painted.
pub open spec fn spec_align_drs(st: (Seq<bool>, Seq<bool>), side: int, pr: int, pc: int, dr: int) -> (Seq<bool>, Seq<bool>)
    decreases dr,
{
    if dr <= 0 { st } else { spec_align_dcs(spec_align_drs(st, side, pr, pc, dr - 1), side, pr, pc, dr - 1, 5) }
}

/// One candidate alignment pattern: painted only when its centre lies in
/// range and on a module that no earlier pattern reserved.
pub open spec fn spec_align_pattern(st: (Seq<bool>, Seq<bool>), side: int, pr: int, pc: int) -> (Seq<bool>, Seq<bool>) {
    if 2 <= pr && pr < side - 2 && 2 <= pc && pc < side - 2 && !st.1[spec_idx(side, pr, pc)] {
        spec_align_drs(st, side, pr, pc, 5)
    } else {
        st
    }
}

/// The alignment patterns of centre row `pos[a]` over the first `b`
/// centre columns.
pub open spec fn spec_align_bs(st: (Seq<bool>, Seq<bool>), side: int, pos: Seq<usize>, a: int, b: int) -> (Seq<bool>, Seq<bool>)
    decreases b,
{
    if b <= 0 {
        st
    } else {
        spec_align_pattern(spec_align_bs(st, side, pos, a, b - 1), side, pos[a] as int, pos[b - 1] as int)
    }
}

/// The alignment patterns of the first `a` centre rows.
pub open spec fn spec_align_as(st: (Seq<bool>, Seq<bool>), side: int, pos: Seq<usize>, a: int) -> (Seq<bool>, Seq<bool>)
    decreases a,
{
    if a <= 0 {
        st
    } else {
        spec_align_bs(spec_align_as(st, side, pos, a - 1), side, pos, a - 1, pos.len() as int)
    }
}

/// The first `i` columns of both timing patterns painted.
pub open spec fn spec_timing(st: (Seq<bool>, Seq<bool>), side: int, i: int) -> (Seq<bool>, Seq<bool>)
    decreases i,
{
    if i <= 0 {
        st
    } else {
        let p = spec_timing(st, side, i - 1);
        let c = 8 + (i - 1);
        spec_mark(spec_mark(p, side, 6, c, c % 2 == 0), side, c, 6, c % 2 == 0)
    }
}

/// The first `k` version-information bits written into both blocks.
pub open spec fn spec_version_marks(st: (Seq<bool>, Seq<bool>), side: int, v: int, k: int) -> (Seq<bool>, Seq<bool>)
    decreases k,
{
    if k <= 0 {
        st
    } else {
        let p = spec_version_marks(st, side, v, k - 1);
        let bit = (crate::tables::spec_version_info(v) >> ((17 - (k - 1)) as u32)) & 1 == 1;
        let rr = side - 9 - ((k - 1) % 3);
        let cc = 5 - (k - 1) / 3;
        spec_mark(spec_mark(p, side, rr, cc, bit), side, cc, rr, bit)
    }
}

/// The first `j` format-information positions reserved light, the second
/// copy's module before the first copy's.
pub open spec fn spec_reserve(st: (Seq<bool>, Seq<bool>), side: int, j: int) -> (Seq<bool>, Seq<bool>)
    decreases j,
{
    if j <= 0 {
        st
    } else {
        let p = spec_reserve(st, side, j - 1);
        spec_mark(spec_mark(p, side, spec_fmt_row_b(side, j - 1), spec_fmt_col_b(side, j - 1), false),
            side, spec_fmt_row_a(j - 1), spec_fmt_col_a(j - 1), false)
    }
}

/// The complete function-pattern layer of a version: finder patterns and
/// separators, alignment patterns, timing patterns, version information,
/// the dark module, the finder repaint, and the reserved format area,
/// exactly as the builder lays them down over an all-light grid.
pub open spec fn spec_base_grid(v: int) -> (Seq<bool>, Seq<bool>) {
    let side = spec_side(v);
    let n = side * side;
    let st0 = (Seq::new(n as nat, |i: int| false), Seq::new(n as nat, |i: int| false));
    let st1 = spec_finder_rows(st0, side, 8);
    let st2 = if v >= 2 {
        spec_align_as(st1, side, crate::tables::spec_alignment_positions(v),
            crate::tables::spec_alignment_positions(v).len() as int)
    } else {
        st1
    };
    let st3 = spec_timing(st2, side, side - 16);
    let st4 = if v >= 7 { spec_version_marks(st3, side, v, 18) } else { st3 };
    let st5 = spec_mark(st4, side, side - 8, 8, true);
    let st6 = spec_finder_rows(st5, side, 8);
    spec_reserve(st6, side, 15)
}

/// The colour map of the version's function-pattern layer.
pub open spec fn spec_base(v: int) -> Seq<bool> {
    spec_base_grid(v).0
}

/// The function-module map of the version: exactly the reserved cells.
pub open spec fn spec_funcs(v: int) -> Seq<bool> {
    spec_base_grid(v).1
}

/// No cell of the three corner blocks holds format information.
#[verifier::rlimit(60)]
pub proof fn lemma_corners_not_fmt_pos(side: int, pr: int, pc: int)
    requires
        21 <= side,
        0 <= pr < 8,
        0 <= pc < 8,
    ensures
        !spec_is_fmt_pos(side, spec_idx(side, pr, pc)),
        !spec_is_fmt_pos(side, spec_idx(side, pr, side - 8 + pc)),
        !spec_is_fmt_pos(side, spec_idx(side, side - 8 + pr, pc)),
{
    if spec_is_fmt_pos(side, spec_idx(side, pr, pc)) {
        let j = choose|j: int|
            #![trigger spec_idx(side, spec_fmt_row_a(j), spec_fmt_col_a(j))]
            #![trigger spec_idx(side, spec_fmt_row_b(side, j), spec_fmt_col_b(side, j))]
            0 <= j < 15 && (spec_idx(side, pr, pc) == spec_idx(side, spec_fmt_row_a(j), spec_fmt_col_a(j))
                || spec_idx(side, pr, pc) == spec_idx(side, spec_fmt_row_b(side, j), spec_fmt_col_b(side, j)));
        assert(spec_fmt_row_a(j) == 8 || spec_fmt_col_a(j) == 8);
        assert(spec_fmt_row_b(side, j) == 8 || spec_fmt_col_b(side, j) == 8);
        lemma_idx_ne(side, pr, pc, spec_fmt_row_a(j), spec_fmt_col_a(j));
        lemma_idx_ne(side, pr, pc, spec_fmt_row_b(side, j), spec_fmt_col_b(side, j));
    }
    if spec_is_fmt_pos(side, spec_idx(side, pr, side - 8 + pc)) {
        let j = choose|j: int|
            #![trigger spec_idx(side, spec_fmt_row_a(j), spec_fmt_col_a(j))]
            #![trigger spec_idx(side, spec_fmt_row_b(side, j), spec_fmt_col_b(side, j))]
            0 <= j < 15 && (spec_idx(side, pr, side - 8 + pc) == spec_idx(side, spec_fmt_row_a(j), spec_fmt_col_a(j))
                || spec_idx(side, pr, side - 8 + pc) == spec_idx(side, spec_fmt_row_b(side, j), spec_fmt_col_b(side, j)));
        assert(spec_fmt_row_a(j) == 8 || spec_fmt_col_a(j) == 8);
        assert(spec_fmt_row_b(side, j) == 8 || spec_fmt_col_b(side, j) == 8);
        lemma_idx_ne(side, pr, side - 8 + pc, spec_fmt_row_a(j), spec_fmt_col_a(j));
        lemma_idx_ne(side, pr, side - 8 + pc, spec_fmt_row_b(side, j), spec_fmt_col_b(side, j));
    }
    if spec_is_fmt_pos(side, spec_idx(side, side - 8 + pr, pc)) {
        let j = choose|j: int|
            #![trigger spec_idx(side, spec_fmt_row_a(j), spec_fmt_col_a(j))]
            #![trigger spec_idx(side, spec_fmt_row_b(side, j), spec_fmt_col_b(side, j))]
            0 <= j < 15 && (spec_idx(side, side - 8 + pr, pc) == spec_idx(side, spec_fmt_row_a(j), spec_fmt_col_a(j))
                || spec_idx(side, side - 8 + pr, pc) == spec_idx(side, spec_fmt_row_b(side, j), spec_fmt_col_b(side, j)));
        assert(spec_fmt_row_a(j) == 8 || spec_fmt_col_a(j) == 8);
        assert(spec_fmt_row_b(side, j) == 8 || spec_fmt_col_b(side, j) == 8);
        lemma_idx_ne(side, side - 8 + pr, pc, spec_fmt_row_a(j), spec_fmt_col_a(j));
        lemma_idx_ne(side, side - 8 + pr, pc, spec_fmt_row_b(side, j), spec_fmt_col_b(side, j));
    }
}

/// Paints the three finder patterns with their separator rings. The
/// other function patterns never overlap the corner blocks, so painting
/// them last pins the corner colours down.
#[verifier::rlimit(100)]
fn repaint_finders(g: &mut Grid)
    requires
        grid_wf(*old(g)),
        forall|i: int| 0 <= i < old(g).dark@.len() && !old(g).func@[i] ==> !old(g).dark@[i],
    ensures
        grid_wf(*final(g)),
        final(g).side == old(g).side,
        spec_finder_blocks(final(g).side as int, final(g).dark@),
        forall|pr: int, pc: int| 0 <= pr < 8 && 0 <= pc < 8
            ==> final(g).func@[#[trigger] spec_idx(final(g).side as int, pr, pc)]
                && final(g).func@[spec_idx(final(g).side as int, pr, final(g).side - 8 + pc)]
                && final(g).func@[spec_idx(final(g).side as int, final(g).side - 8 + pr, pc)],
        forall|i: int| 0 <= i < final(g).dark@.len() && !final(g).func@[i] ==> !final(g).dark@[i],
        (final(g).dark@, final(g).func@) == spec_finder_rows((old(g).dark@, old(g).func@), old(g).side as int, 8),
{
    let side: usize = g.side;
    let ghost rst: (Seq<bool>, Seq<bool>) = (g.dark@, g.func@);
    // repaint the finder patterns and separators: later patterns never
    // touch the corner blocks, and the repaint pins their colours down
    let mut r2: usize = 0;
    while r2 < 8
        invariant
            forall|li: int| 0 <= li < g.dark@.len() && !g.func@[li] ==> !(#[trigger] g.dark@[li]),
            grid_wf(*g),
            g.side == side,
            r2 <= 8,
            (g.dark@, g.func@) == spec_finder_rows(rst, side as int, r2 as int),
            forall|pr: int, pc: int| 0 <= pr < r2 && 0 <= pc < 8
                ==> (g.dark@[#[trigger] spec_idx(side as int, pr, pc)] == spec_finder_dark(pr, pc)
                    && g.func@[spec_idx(side as int, pr, pc)]),
            forall|pr: int, pc: int| 0 <= pr < r2 && 0 <= pc < 8
                ==> (g.dark@[#[trigger] spec_idx(side as int, pr, side - 8 + pc)]
                        == spec_finder_dark(pr, if pc == 0 { 7int } else { pc - 1 })
                    && g.func@[spec_idx(side as int, pr, side - 8 + pc)]),
            forall|pr: int, pc: int| 0 <= pr < r2 && 0 <= pc < 8
                ==> (g.dark@[#[trigger] spec_idx(side as int, side - 8 + pr, pc)]
                        == spec_finder_dark(if pr == 0 { 7int } else { pr - 1 }, pc)
                    && g.func@[spec_idx(side as int, side - 8 + pr, pc)]),
        decreases 8 - r2,
    {
        let mut c2: usize = 0;
        while c2 < 8
            invariant
                forall|li: int| 0 <= li < g.dark@.len() && !g.func@[li] ==> !(#[trigger] g.dark@[li]),
                grid_wf(*g),
                g.side == side,
                r2 < 8,
                c2 <= 8,
                (g.dark@, g.func@) == spec_finder_cols(spec_finder_rows(rst, side as int, r2 as int),
                    side as int, r2 as int, c2 as int),
                forall|pr: int, pc: int| 0 <= pc < 8 && (0 <= pr < r2 || (pr == r2 as int && pc < c2))
                    ==> (g.dark@[#[trigger] spec_idx(side as int, pr, pc)] == spec_finder_dark(pr, pc)
                        && g.func@[spec_idx(side as int, pr, pc)]),
                forall|pr: int, pc: int| 0 <= pc < 8 && (0 <= pr < r2 || (pr == r2 as int && pc < c2))
                    ==> (g.dark@[#[trigger] spec_idx(side as int, pr, side - 8 + pc)]
                            == spec_finder_dark(pr, if pc == 0 { 7int } else { pc - 1 })
                        && g.func@[spec_idx(side as int, pr, side - 8 + pc)]),
                forall|pr: int, pc: int| 0 <= pc < 8 && (0 <= pr < r2 || (pr == r2 as int && pc < c2))
                    ==> (g.dark@[#[trigger] spec_idx(side as int, side - 8 + pr, pc)]
                            == spec_finder_dark(if pr == 0 { 7int } else { pr - 1 }, pc)
                        && g.func@[spec_idx(side as int, side - 8 + pr, pc)]),
            decreases 8 - c2,
        {
            g.mark(r2, c2, finder_dark(r2, c2));
            g.mark(r2, side - 8 + c2, finder_dark(r2, if c2 == 0 { 7 } else { c2 - 1 }));
            g.mark(side - 8 + r2, c2, finder_dark(if r2 == 0 { 7 } else { r2 - 1 }, c2));
            proof {
                assert forall|pr: int, pc: int| 0 <= pc < 8 && (0 <= pr < r2 || (pr == r2 as int && pc < c2 + 1)) implies
                    (g.dark@[#[trigger] spec_idx(side as int, pr, pc)] == spec_finder_dark(pr, pc)
                        && g.func@[spec_idx(side as int, pr, pc)]) by {
                    lemma_idx_bound(side as int, pr, pc);
                    lemma_idx_bound(side as int, r2 as int, c2 as int);
                    if pr != r2 as int || pc != c2 as int {
                        lemma_idx_ne(side as int, pr, pc, r2 as int, c2 as int);
                    }
                    lemma_idx_ne(side as int, pr, pc, r2 as int, side as int - 8 + c2 as int);
                    lemma_idx_ne(side as int, pr, pc, side as int - 8 + r2 as int, c2 as int);
                }
                assert forall|pr: int, pc: int| 0 <= pc < 8 && (0 <= pr < r2 || (pr == r2 as int && pc < c2 + 1)) implies
                    (g.dark@[#[trigger] spec_idx(side as int, pr, side - 8 + pc)]
                        == spec_finder_dark(pr, if pc == 0 { 7int } else { pc - 1 })
                        && g.func@[spec_idx(side as int, pr, side - 8 + pc)]) by {
                    lemma_idx_bound(side as int, pr, side as int - 8 + pc);
                    lemma_idx_bound(side as int, r2 as int, side as int - 8 + c2 as int);
                    if pr != r2 as int || pc != c2 as int {
                        lemma_idx_ne(side as int, pr, side as int - 8 + pc, r2 as int, side as int - 8 + c2 as int);
                    }
                    lemma_idx_ne(side as int, pr, side as int - 8 + pc, r2 as int, c2 as int);
                    lemma_idx_ne(side as int, pr, side as int - 8 + pc, side as int - 8 + r2 as int, c2 as int);
                }
                assert forall|pr: int, pc: int| 0 <= pc < 8 && (0 <= pr < r2 || (pr == r2 as int && pc < c2 + 1)) implies
                    (g.dark@[#[trigger] spec_idx(side as int, side - 8 + pr, pc)]
                        == spec_finder_dark(if pr == 0 { 7int } else { pr - 1 }, pc)
                        && g.func@[spec_idx(side as int, side - 8 + pr, pc)]) by {
                    lemma_idx_bound(side as int, side as int - 8 + pr, pc);
                    lemma_idx_bound(side as int, side as int - 8 + r2 as int, c2 as int);
                    if pr != r2 as int || pc != c2 as int {
                        lemma_idx_ne(side as int, side as int - 8 + pr, pc, side as int - 8 + r2 as int, c2 as int);
                    }
                    lemma_idx_ne(side as int, side as int - 8 + pr, pc, r2 as int, c2 as int);
                    lemma_idx_ne(side as int, side as int - 8 + pr, pc, r2 as int, side as int - 8 + c2 as int);
                }
            }
            c2 = c2 + 1;
        }
        r2 = r2 + 1;
    }
    proof {
        assert(spec_finder_blocks(side as int, g.dark@));
    }
}

/// The base matrix of a version: all function patterns drawn, the
/// format-information area reserved, data modules still light.
#[verifier::rlimit(100)]
pub fn base_matrix(v: u8) -> (g: Grid)
    requires
        1 <= v <= 40,
    ensures
        grid_wf(g),
        g.side == spec_side(v as int),
        forall|j: int| 0 <= j < 15 ==> g.func@[#[trigger] spec_idx(g.side as int, spec_fmt_row_a(j), spec_fmt_col_a(j))],
        forall|j: int| 0 <= j < 15 ==> g.func@[#[trigger] spec_idx(g.side as int, spec_fmt_row_b(g.side as int, j), spec_fmt_col_b(g.side as int, j))],
        spec_finder_blocks(g.side as int, g.dark@),
        forall|pr: int, pc: int| 0 <= pr < 8 && 0 <= pc < 8
            ==> g.func@[#[trigger] spec_idx(g.side as int, pr, pc)]
                && g.func@[spec_idx(g.side as int, pr, g.side - 8 + pc)]
                && g.func@[spec_idx(g.side as int, g.side - 8 + pr, pc)],
        forall|i: int| 0 <= i < g.dark@.len() && !g.func@[i] ==> !g.dark@[i],
        g.dark@ == spec_base(v as int),
        g.func@ == spec_funcs(v as int),
{
    let side: usize = side_of(v);
    let mut g: Grid = Grid::new(side);
    proof {
        lemma_side_sq(side as int);
        assert(g.dark@ =~= Seq::new((side * side) as nat, |i: int| false));
        assert(g.func@ =~= Seq::new((side * side) as nat, |i: int| false));
    }
    let ghost st0: (Seq<bool>, Seq<bool>) = (g.dark@, g.func@);
    // finder patterns and separators at the three corners
    let mut r: usize = 0;
    while r < 8
        invariant
            forall|li: int| 0 <= li < g.dark@.len() && !g.func@[li] ==> !(#[trigger] g.dark@[li]),
            grid_wf(g),
            g.side == side,
            r <= 8,
            (g.dark@, g.func@) == spec_finder_rows(st0, side as int, r as int),
        decreases 8 - r,
    {
        let mut c: usize = 0;
        while c < 8
            invariant
                forall|li: int| 0 <= li < g.dark@.len() && !g.func@[li] ==> !(#[trigger] g.dark@[li]),
                grid_wf(g),
                g.side == side,
                r < 8,
                c <= 8,
                (g.dark@, g.func@) == spec_finder_cols(spec_finder_rows(st0, side as int, r as int),
                    side as int, r as int, c as int),
            decreases 8 - c,
        {
            g.mark(r, c, finder_dark(r, c));
            g.mark(r, side - 8 + c, finder_dark(r, if c == 0 { 7 } else { c - 1 }));
            g.mark(side - 8 + r, c, finder_dark(if r == 0 { 7 } else { r - 1 }, c));
            c = c + 1;
        }
        r = r + 1;
    }
    let ghost st1: (Seq<bool>, Seq<bool>) = (g.dark@, g.func@);
    // alignment patterns, skipping any whose centre is already reserved
    if v >= 2 {
        let pos: Vec<usize> = alignment_positions(v);
        let mut a: usize = 0;
        while a < pos.len()
            invariant
                forall|li: int| 0 <= li < g.dark@.len() && !g.func@[li] ==> !(#[trigger] g.dark@[li]),
                grid_wf(g),
                g.side == side,
                a <= pos@.len(),
                pos@ == crate::tables::spec_alignment_positions(v as int),
                (g.dark@, g.func@) == spec_align_as(st1, side as int, pos@, a as int),
            decreases pos@.len() - a,
        {
            let ghost sta: (Seq<bool>, Seq<bool>) = (g.dark@, g.func@);
            let mut b: usize = 0;
            while b < pos.len()
                invariant
                    forall|li: int| 0 <= li < g.dark@.len() && !g.func@[li] ==> !(#[trigger] g.dark@[li]),
                    grid_wf(g),
                    g.side == side,
                    a < pos@.len(),
                    b <= pos@.len(),
                    pos@ == crate::tables::spec_alignment_positions(v as int),
                    (g.dark@, g.func@) == spec_align_bs(sta, side as int, pos@, a as int, b as int),
                decreases pos@.len() - b,
            {
                let ghost stb: (Seq<bool>, Seq<bool>) = (g.dark@, g.func@);
                let pr: usize = pos[a];
                let pc: usize = pos[b];
                if 2 <= pr && pr < side - 2 && 2 <= pc && pc < side - 2 {
                    if !g.is_func(pr, pc) {
                        let mut dr: usize = 0;
                        while dr < 5
                            invariant
                                forall|li: int| 0 <= li < g.dark@.len() && !g.func@[li] ==> !(#[trigger] g.dark@[li]),
                                grid_wf(g),
                                g.side == side,
                                2 <= pr && pr < side - 2,
                                2 <= pc && pc < side - 2,
                                dr <= 5,
                                (g.dark@, g.func@) == spec_align_drs(stb, side as int, pr as int, pc as int, dr as int),
                            decreases 5 - dr,
                        {
                            let mut dc: usize = 0;
                            while dc < 5
                                invariant
                                    forall|li: int| 0 <= li < g.dark@.len() && !g.func@[li] ==> !(#[trigger] g.dark@[li]),
                                    grid_wf(g),
                                    g.side == side,
                                    dr < 5,
                                    dc <= 5,
                                    2 <= pr && pr < side - 2,
                                    2 <= pc && pc < side - 2,
                                    (g.dark@, g.func@) == spec_align_dcs(
                                        spec_align_drs(stb, side as int, pr as int, pc as int, dr as int),
                                        side as int, pr as int, pc as int, dr as int, dc as int),
                                decreases 5 - dc,
                            {
                                let d: bool = dr == 0 || dr == 4 || dc == 0 || dc == 4 || (dr == 2 && dc == 2);
                                g.mark(pr - 2 + dr, pc - 2 + dc, d);
                                dc = dc + 1;
                            }
                            dr = dr + 1;
                        }
                    }
                }
                proof {
                    assert((g.dark@, g.func@) == spec_align_pattern(stb, side as int, pr as int, pc as int));
                }
                b = b + 1;
            }
            a = a + 1;
        }
    }
    let ghost st2: (Seq<bool>, Seq<bool>) = (g.dark@, g.func@);
    proof {
        assert(st2 == (if v >= 2 {
            spec_align_as(st1, side as int, crate::tables::spec_alignment_positions(v as int),
                crate::tables::spec_alignment_positions(v as int).len() as int)
        } else {
            st1
        }));
    }
    // timing patterns
    let mut c: usize = 8;
    while c < side - 8
        invariant
            forall|li: int| 0 <= li < g.dark@.len() && !g.func@[li] ==> !(#[trigger] g.dark@[li]),
            grid_wf(g),
            g.side == side,
            8 <= c <= side - 8,
            (g.dark@, g.func@) == spec_timing(st2, side as int, c as int - 8),
        decreases side - 8 - c,
    {
        g.mark(6, c, c % 2 == 0);
        g.mark(c, 6, c % 2 == 0);
        c = c + 1;
    }
    let ghost st3: (Seq<bool>, Seq<bool>) = (g.dark@, g.func@);
    proof {
        assert(st3 == spec_timing(st2, side as int, side as int - 16));
    }
    // version information blocks for versions 7 and above
    if v >= 7 {
        let vi: u32 = version_info(v);
        let mut k: usize = 0;
        while k < 18
            invariant
                forall|li: int| 0 <= li < g.dark@.len() && !g.func@[li] ==> !(#[trigger] g.dark@[li]),
                grid_wf(g),
                g.side == side,
                k <= 18,
                vi == crate::tables::spec_version_info(v as int),
                (g.dark@, g.func@) == spec_version_marks(st3, side as int, v as int, k as int),
            decreases 18 - k,
        {
            let bit: bool = (vi >> ((17 - k) as u32)) & 1 == 1;
            let rr: usize = side - 9 - (k % 3);
            let cc: usize = 5 - k / 3;
            g.mark(rr, cc, bit);
            g.mark(cc, rr, bit);
            k = k + 1;
        }
    }
    let ghost st4: (Seq<bool>, Seq<bool>) = (g.dark@, g.func@);
    proof {
        assert(st4 == (if v >= 7 { spec_version_marks(st3, side as int, v as int, 18) } else { st3 }));
    }
    // the fixed dark module
    g.mark(side - 8, 8, true);
    let ghost st5: (Seq<bool>, Seq<bool>) = (g.dark@, g.func@);
    proof {
        assert(st5 == spec_mark(st4, side as int, side as int - 8, 8, true));
    }
    repaint_finders(&mut g);
    let ghost st6: (Seq<bool>, Seq<bool>) = (g.dark@, g.func@);
    proof {
        assert(st6 == spec_finder_rows(st5, side as int, 8));
        assert forall|pr: int, pc: int| 0 <= pr < 8 && 0 <= pc < 8 implies
            g.func@[#[trigger] spec_idx(side as int, pr, pc)]
                && g.func@[spec_idx(side as int, pr, side - 8 + pc)]
                && g.func@[spec_idx(side as int, side - 8 + pr, pc)] by {
            lemma_idx_bound(side as int, pr, pc);
            lemma_idx_bound(side as int, pr, side as int - 8 + pc);
            lemma_idx_bound(side as int, side as int - 8 + pr, pc);
        }
    }
    // reserve the format-information modules last; they sit outside the
    // corner blocks
    let mut j: usize = 0;
    while j < 15
        invariant
            forall|li: int| 0 <= li < g.dark@.len() && !g.func@[li] ==> !(#[trigger] g.dark@[li]),
            grid_wf(g),
            g.side == side,
            j <= 15,
            (g.dark@, g.func@) == spec_reserve(st6, side as int, j as int),
            forall|t: int| 0 <= t < j ==> g.func@[#[trigger] spec_idx(side as int, spec_fmt_row_a(t), spec_fmt_col_a(t))],
            forall|t: int| 0 <= t < j ==> g.func@[#[trigger] spec_idx(side as int, spec_fmt_row_b(side as int, t), spec_fmt_col_b(side as int, t))],
            spec_finder_blocks(side as int, g.dark@),
            forall|pr: int, pc: int| 0 <= pr < 8 && 0 <= pc < 8
                ==> g.func@[#[trigger] spec_idx(side as int, pr, pc)]
                    && g.func@[spec_idx(side as int, pr, side - 8 + pc)]
                    && g.func@[spec_idx(side as int, side - 8 + pr, pc)],
        decreases 15 - j,
    {
        let (ra, ca) = fmt_coord_a(j);
        let (rb, cb) = fmt_coord_b(j, side);
        g.mark(rb, cb, false);
        g.mark(ra, ca, false);
        proof {
            fmt_positions_in_bounds(side as int);
            assert forall|pr: int, pc: int| 0 <= pr < 8 && 0 <= pc < 8 implies
                g.dark@[#[trigger] spec_idx(side as int, pr, pc)] == spec_finder_dark(pr, pc) by {
                lemma_idx_bound(side as int, pr, pc);
                assert(spec_fmt_row_a(j as int) == 8 || spec_fmt_col_a(j as int) == 8);
                assert(spec_fmt_row_b(side as int, j as int) == 8 || spec_fmt_col_b(side as int, j as int) == 8);
                lemma_idx_ne(side as int, pr, pc, ra as int, ca as int);
                lemma_idx_ne(side as int, pr, pc, rb as int, cb as int);
            }
            assert forall|pr: int, pc: int| 0 <= pr < 8 && 0 <= pc < 8 implies
                g.dark@[#[trigger] spec_idx(side as int, pr, side - 8 + pc)]
                    == spec_finder_dark(pr, if pc == 0 { 7int } else { pc - 1 }) by {
                lemma_idx_bound(side as int, pr, side as int - 8 + pc);
                assert(spec_fmt_row_a(j as int) == 8 || spec_fmt_col_a(j as int) == 8);
                assert(spec_fmt_row_b(side as int, j as int) == 8 || spec_fmt_col_b(side as int, j as int) == 8);
                lemma_idx_ne(side as int, pr, side as int - 8 + pc, ra as int, ca as int);
                lemma_idx_ne(side as int, pr, side as int - 8 + pc, rb as int, cb as int);
            }
            assert forall|pr: int, pc: int| 0 <= pr < 8 && 0 <= pc < 8 implies
                g.dark@[#[trigger] spec_idx(side as int, side - 8 + pr, pc)]
                    == spec_finder_dark(if pr == 0 { 7int } else { pr - 1 }, pc) by {
                lemma_idx_bound(side as int, side as int - 8 + pr, pc);
                assert(spec_fmt_row_a(j as int) == 8 || spec_fmt_col_a(j as int) == 8);
                assert(spec_fmt_row_b(side as int, j as int) == 8 || spec_fmt_col_b(side as int, j as int) == 8);
                lemma_idx_ne(side as int, side as int - 8 + pr, pc, ra as int, ca as int);
                lemma_idx_ne(side as int, side as int - 8 + pr, pc, rb as int, cb as int);
            }
            assert(spec_finder_blocks(side as int, g.dark@));
            assert forall|pr: int, pc: int| 0 <= pr < 8 && 0 <= pc < 8 implies
                g.func@[#[trigger] spec_idx(side as int, pr, pc)]
                    && g.func@[spec_idx(side as int, pr, side - 8 + pc)]
                    && g.func@[spec_idx(side as int, side - 8 + pr, pc)] by {
                lemma_idx_bound(side as int, pr, pc);
                lemma_idx_bound(side as int, pr, side as int - 8 + pc);
                lemma_idx_bound(side as int, side as int - 8 + pr, pc);
            }
        }
        j = j + 1;
    }
    proof {
        assert(side as int == spec_side(v as int));
        assert(st0 == (Seq::new((side * side) as nat, |i: int| false),
            Seq::new((side * side) as nat, |i: int| false)));
        assert(st1 == spec_finder_rows(st0, side as int, 8));
        assert((g.dark@, g.func@) == spec_reserve(st6, side as int, 15));
        assert(spec_base_grid(v as int) == spec_reserve(st6, side as int, 15));
    }
    g
}

impl Grid {
    /// Writes a data module; the cell must not be reserved.
    pub fn put_data(&mut self, r: usize, c: usize, d: bool)
        requires
            grid_wf(*old(self)),
            r < old(self).side,
            c < old(self).side,
            !old(self).func@[spec_idx(old(self).side as int, r as int, c as int)],
        ensures
            grid_wf(*final(self)),
            final(self).side == old(self).side,
            final(self).func@ == old(self).func@,
            0 <= spec_idx(old(self).side as int, r as int, c as int) < old(self).dark@.len(),
            final(self).dark@ == old(self).dark@.update(spec_idx(old(self).side as int, r as int, c as int), d),
    {
        proof {
            lemma_side_sq(self.side as int);
            lemma_idx_bound(self.side as int, r as int, c as int);
        }
        let i: usize = r * self.side + c;
        self.dark.set(i, d);
    }
}

impl Grid {
    /// Overwrites the colour of any module, reserved or not.
    pub fn put_any(&mut self, r: usize, c: usize, d: bool)
        requires
            grid_wf(*old(self)),
            r < old(self).side,
            c < old(self).side,
        ensures
            grid_wf(*final(self)),
            final(self).side == old(self).side,
            final(self).func@ == old(self).func@,
            0 <= spec_idx(old(self).side as int, r as int, c as int) < old(self).dark@.len(),
            final(self).dark@ == old(self).dark@.update(spec_idx(old(self).side as int, r as int, c as int), d),
    {
        proof {
            lemma_side_sq(self.side as int);
            lemma_idx_bound(self.side as int, r as int, c as int);
        }
        let i: usize = r * self.side + c;
        self.dark.set(i, d);
    }
}

/// One placement step: if the cell is free, it takes the next codeword
/// bit; reserved cells and cells beyond the bit supply are untouched.
pub open spec fn spec_place_cell(dark: Seq<bool>, func: Seq<bool>, side: int, bits: Seq<bool>,
    bi: int, r: int, c: int) -> (Seq<bool>, int) {
    if !func[spec_idx(side, r, c)] && bi < bits.len() {
        (dark.update(spec_idx(side, r, c), bits[bi]), bi + 1)
    } else {
        (dark, bi)
    }
}

/// The first `i` rows of one column pair, walked upward or downward,
/// right column before left.
pub open spec fn spec_place_rows(dark: Seq<bool>, func: Seq<bool>, side: int, bits: Seq<bool>,
    bi: int, col: int, upward: bool, i: int) -> (Seq<bool>, int)
    decreases i,
{
    if i <= 0 {
        (dark, bi)
    } else {
        let prev = spec_place_rows(dark, func, side, bits, bi, col, upward, i - 1);
        let row = if upward { side - i } else { i - 1 };
        let one = spec_place_cell(prev.0, func, side, bits, prev.1, row, col);
        spec_place_cell(one.0, func, side, bits, one.1, row, col - 1)
    }
}

/// The whole zig-zag traversal from a column pair leftwards: column pairs
/// from the right edge, alternating direction, skipping the vertical
/// timing column.
pub open spec fn spec_place_cols(dark: Seq<bool>, func: Seq<bool>, side: int, bits: Seq<bool>,
    bi: int, col: int, upward: bool) -> (Seq<bool>, int)
    decreases col,
{
    if col < 1 {
        (dark, bi)
    } else {
        let done = spec_place_rows(dark, func, side, bits, bi, col, upward, side);
        if col < 3 {
            done
        } else {
            spec_place_cols(done.0, func, side, bits, done.1,
                if col - 2 == 6 { 5int } else { col - 2 }, !upward)
        }
    }
}

/// The module pattern after the codeword bits are laid into the free
/// cells in the standard zig-zag column order.
pub open spec fn spec_place_data(dark: Seq<bool>, func: Seq<bool>, side: int, bits: Seq<bool>) -> Seq<bool> {
    spec_place_cols(dark, func, side, bits, 0, side - 1, true).0
}

/// Places the interleaved codeword bits in the standard zig-zag column
/// traversal, skipping reserved modules; reserved modules keep their
/// colour, and left-over data modules stay light.
pub fn place_data(g: &mut Grid, bits: &Vec<bool>)
    requires
        grid_wf(*old(g)),
    ensures
        grid_wf(*final(g)),
        final(g).side == old(g).side,
        final(g).func@ == old(g).func@,
        final(g).dark@.len() == old(g).dark@.len(),
        final(g).dark@ == spec_place_data(old(g).dark@, old(g).func@, old(g).side as int, bits@),
        forall|i: int| 0 <= i < old(g).dark@.len() && old(g).func@[i]
            ==> final(g).dark@[i] == old(g).dark@[i],
{
    let side: usize = g.side;
    let ghost snap: Seq<bool> = g.dark@;
    let ghost fsnap: Seq<bool> = g.func@;
    let ghost goal: (Seq<bool>, int) = spec_place_cols(snap, fsnap, side as int, bits@, 0, side as int - 1, true);
    let mut col: usize = side - 1;
    let mut upward: bool = true;
    let mut bi: usize = 0;
    while col >= 1
        invariant
            grid_wf(*g),
            g.side == side,
            g.func@ == fsnap,
            fsnap == old(g).func@,
            g.dark@.len() == snap.len(),
            1 <= col < side,
            bi <= bits@.len(),
            goal == spec_place_cols(snap, fsnap, side as int, bits@, 0, side as int - 1, true),
            goal == spec_place_cols(g.dark@, fsnap, side as int, bits@, bi as int, col as int, upward),
            forall|i: int| 0 <= i < snap.len() && fsnap[i] ==> g.dark@[i] == snap[i],
        decreases col,
    {
        let ghost d0: Seq<bool> = g.dark@;
        let ghost b0: int = bi as int;
        let mut i: usize = 0;
        while i < side
            invariant
                grid_wf(*g),
                g.side == side,
                g.func@ == fsnap,
                g.dark@.len() == snap.len(),
                1 <= col < side,
                i <= side,
                bi <= bits@.len(),
                (g.dark@, bi as int) == spec_place_rows(d0, fsnap, side as int, bits@, b0, col as int, upward, i as int),
                forall|t: int| 0 <= t < snap.len() && fsnap[t] ==> g.dark@[t] == snap[t],
            decreases side - i,
        {
            let row: usize = if upward { side - 1 - i } else { i };
            if !g.is_func(row, col) {
                if bi < bits.len() {
                    g.put_data(row, col, bits[bi]);
                    bi = bi + 1;
                }
            }
            if !g.is_func(row, col - 1) {
                if bi < bits.len() {
                    g.put_data(row, col - 1, bits[bi]);
                    bi = bi + 1;
                }
            }
            i = i + 1;
        }
        upward = !upward;
        if col < 3 {
            break;
        }
        col = col - 2;
        if col == 6 {
            col = 5;
        }
    }
}

/// All format-information positions index into a grid of this side.
pub proof fn fmt_positions_in_bounds(side: int)
    requires
        21 <= side,
    ensures
        forall|t: int| 0 <= t < 15 ==>
            0 <= #[trigger] spec_idx(side, spec_fmt_row_a(t), spec_fmt_col_a(t)) < side * side,
        forall|t: int| 0 <= t < 15 ==>
            0 <= #[trigger] spec_idx(side, spec_fmt_row_b(side, t), spec_fmt_col_b(side, t)) < side * side,
{
    assert forall|t: int| 0 <= t < 15 implies
        0 <= #[trigger] spec_idx(side, spec_fmt_row_a(t), spec_fmt_col_a(t)) < side * side by {
        lemma_idx_bound(side, spec_fmt_row_a(t), spec_fmt_col_a(t));
    }
    assert forall|t: int| 0 <= t < 15 implies
        0 <= #[trigger] spec_idx(side, spec_fmt_row_b(side, t), spec_fmt_col_b(side, t)) < side * side by {
        lemma_idx_bound(side, spec_fmt_row_b(side, t), spec_fmt_col_b(side, t));
    }
}

} // verus!
