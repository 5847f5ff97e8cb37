use vstd::prelude::*;

verus! {

/// One shift-and-reduce round of the GF(256) product: add `aa` into the
/// accumulator when the low bit of `bb` is set, double `aa` modulo the
/// reduction polynomial x^8 + x^4 + x^3 + x^2 + 1, and halve `bb`;
/// after `i` rounds the accumulator is the product.
pub open spec fn spec_gf_step(acc: u32, aa: u32, bb: u32, i: int) -> u32
    decreases i,
{
    if i <= 0 {
        acc
    } else {
        spec_gf_step(
            if bb & 1 == 1 { acc ^ aa } else { acc },
            if (aa << 1u32) & 0x100 != 0 { (aa << 1u32) ^ 0x11d } else { aa << 1u32 },
            bb >> 1u32,
            i - 1,
        )
    }
}

/// The product of two field elements in GF(256) under the reduction
/// polynomial x^8 + x^4 + x^3 + x^2 + 1 of the symbol's Reed-Solomon code.
pub open spec fn spec_gf_mul(a: u8, b: u8) -> u8 {
    (spec_gf_step(0, a as u32, b as u32, 8) & 0xff) as u8
}

pub fn gf_mul(a: u8, b: u8) -> (r: u8)
    ensures
        r == spec_gf_mul(a, b),
{
    let mut acc: u32 = 0;
    let mut aa: u32 = a as u32;
    let mut bb: u32 = b as u32;
    let mut i: usize = 0;
    while i < 8
        invariant
            i <= 8,
            acc < 256,
            aa < 256,
            spec_gf_step(acc, aa, bb, 8 - i) == spec_gf_step(0, a as u32, b as u32, 8),
        decreases 8 - i,
    {
        if bb & 1 == 1 {
            proof {
                assert(acc < 256 && aa < 256 ==> (acc ^ aa) < 256) by (bit_vector);
            }
            acc = acc ^ aa;
        }
        bb = bb >> 1u32;
        let a2: u32 = aa << 1u32;
        proof {
            assert(aa < 256 ==> (aa << 1u32) < 512) by (bit_vector);
        }
        if a2 & 0x100 != 0 {
            proof {
                assert((aa << 1u32) < 512 && ((aa << 1u32) & 0x100) != 0
                    ==> ((aa << 1u32) ^ 0x11d) < 256) by (bit_vector);
            }
            aa = a2 ^ 0x11d;
        } else {
            proof {
                assert((aa << 1u32) < 512 && ((aa << 1u32) & 0x100) == 0
                    ==> (aa << 1u32) < 256) by (bit_vector);
            }
            aa = a2;
        }
        i = i + 1;
    }
    proof {
        assert(acc < 256 ==> acc & 0xff == acc) by (bit_vector);
    }
    acc as u8
}

/// The i-th power of the field generator 2.
pub open spec fn spec_alpha_pow(i: int) -> u8
    decreases i,
{
    if i <= 0 { 1 } else { spec_gf_mul(spec_alpha_pow(i - 1), 2) }
}

/// Multiplication of a polynomial, highest degree first, by (x + al).
pub open spec fn spec_poly_mul_step(g: Seq<u8>, al: u8) -> Seq<u8> {
    Seq::new(g.len() + 1, |j: int|
        if j == 0 { g[0] }
        else if j < g.len() { g[j] ^ spec_gf_mul(g[j - 1], al) }
        else { spec_gf_mul(g[g.len() - 1], al) })
}

/// Coefficients of the Reed-Solomon generator polynomial
/// (x - a^0)(x - a^1)...(x - a^(ec-1)), highest degree first.
pub open spec fn spec_generator_poly(ec: int) -> Seq<u8>
    decreases ec,
{
    if ec <= 0 { seq![1u8] } else { spec_poly_mul_step(spec_generator_poly(ec - 1), spec_alpha_pow(ec - 1)) }
}

pub fn generator_poly(ec: usize) -> (r: Vec<u8>)
    requires
        1 <= ec <= 30,
    ensures
        r@ == spec_generator_poly(ec as int),
        r@.len() == ec + 1,
{
    let mut g: Vec<u8> = Vec::new();
    g.push(1);
    proof {
        assert(g@ =~= spec_generator_poly(0));
    }
    let mut alpha: u8 = 1;
    let mut i: usize = 0;
    while i < ec
        invariant
            g@.len() == i + 1,
            i <= ec,
            g@ == spec_generator_poly(i as int),
            alpha == spec_alpha_pow(i as int),
        decreases ec - i,
    {
        let mut next: Vec<u8> = Vec::new();
        next.push(g[0]);
        let mut j: usize = 1;
        while j < g.len()
            invariant
                1 <= j <= g@.len(),
                next@.len() == j,
                g@.len() == i + 1,
                forall|t: int| 0 <= t < j ==> #[trigger] next@[t] == spec_poly_mul_step(g@, alpha)[t],
            decreases g@.len() - j,
        {
            next.push(g[j] ^ gf_mul(g[j - 1], alpha));
            j = j + 1;
        }
        next.push(gf_mul(g[g.len() - 1], alpha));
        proof {
            assert(next@ =~= spec_poly_mul_step(g@, alpha));
        }
        g = next;
        alpha = gf_mul(alpha, 2);
        i = i + 1;
    }
    g
}

/// One elimination round of the polynomial division: cancels the leading
/// term at `pos` by adding that multiple of the monic divisor.
pub open spec fn spec_rs_elim(work: Seq<u8>, gen: Seq<u8>, pos: int) -> Seq<u8> {
    if work[pos] == 0 {
        work
    } else {
        Seq::new(work.len(), |t: int|
            if pos < t < pos + gen.len() { work[t] ^ spec_gf_mul(gen[t - pos], work[pos]) }
            else { work[t] })
    }
}

/// The working polynomial after the first `pos` leading terms are
/// eliminated.
pub open spec fn spec_rs_divided(work: Seq<u8>, gen: Seq<u8>, pos: int) -> Seq<u8>
    decreases pos,
{
    if pos <= 0 { work } else { spec_rs_elim(spec_rs_divided(work, gen, pos - 1), gen, pos - 1) }
}

/// Remainder of the data polynomial times x^ec modulo the monic divisor:
/// the error-correction codewords of one block.
pub open spec fn spec_rs_remainder(data: Seq<u8>, gen: Seq<u8>) -> Seq<u8> {
    spec_rs_divided(data + Seq::new((gen.len() - 1) as nat, |t: int| 0u8), gen, data.len() as int)
        .subrange(data.len() as int, data.len() + gen.len() - 1)
}

pub fn rs_remainder(data: &Vec<u8>, gen: &Vec<u8>) -> (r: Vec<u8>)
    requires
        2 <= gen@.len() <= 31,
        data@.len() <= 200,
    ensures
        r@ == spec_rs_remainder(data@, gen@),
        r@.len() == gen@.len() - 1,
{
    let ec: usize = gen.len() - 1;
    let mut work: Vec<u8> = Vec::new();
    let mut i: usize = 0;
    while i < data.len()
        invariant
            work@.len() == i,
            i <= data@.len(),
            forall|t: int| 0 <= t < i ==> #[trigger] work@[t] == data@[t],
        decreases data@.len() - i,
    {
        work.push(data[i]);
        i = i + 1;
    }
    let ghost init: Seq<u8> = data@ + Seq::new(ec as nat, |t: int| 0u8);
    let mut k: usize = 0;
    while k < ec
        invariant
            work@.len() == data@.len() + k,
            k <= ec,
            forall|t: int| 0 <= t < work@.len() ==> #[trigger] work@[t] == init[t],
        decreases ec - k,
    {
        work.push(0);
        k = k + 1;
    }
    proof {
        assert(work@ =~= init);
    }
    let mut pos: usize = 0;
    while pos < data.len()
        invariant
            work@.len() == data@.len() + ec,
            pos <= data@.len(),
            ec == gen@.len() - 1,
            data@.len() <= 200,
            gen@.len() <= 31,
            work@ == spec_rs_divided(init, gen@, pos as int),
        decreases data@.len() - pos,
    {
        let ghost w0: Seq<u8> = work@;
        let lead: u8 = work[pos];
        if lead != 0 {
            let mut j: usize = 1;
            while j < gen.len()
                invariant
                    1 <= j <= gen@.len(),
                    work@.len() == data@.len() + ec,
                    ec == gen@.len() - 1,
                    pos < data@.len(),
                    data@.len() <= 200,
                    gen@.len() <= 31,
                    lead == w0[pos as int],
                    lead != 0,
                    forall|t: int| 0 <= t < work@.len() ==> #[trigger] work@[t]
                        == (if pos < t < pos + j { w0[t] ^ spec_gf_mul(gen@[t - pos], lead) } else { w0[t] }),
                decreases gen@.len() - j,
            {
                let t: u8 = work[pos + j] ^ gf_mul(gen[j], lead);
                work.set(pos + j, t);
                j = j + 1;
            }
            proof {
                assert(work@ =~= spec_rs_elim(w0, gen@, pos as int));
            }
        } else {
            proof {
                assert(work@ =~= spec_rs_elim(w0, gen@, pos as int));
            }
        }
        pos = pos + 1;
    }
    let mut r: Vec<u8> = Vec::new();
    let mut t: usize = 0;
    while t < ec
        invariant
            r@.len() == t,
            t <= ec,
            work@.len() == data@.len() + ec,
            data@.len() <= 200,
            ec <= 30,
            forall|x: int| 0 <= x < t ==> #[trigger] r@[x] == work@[data@.len() + x],
        decreases ec - t,
    {
        r.push(work[data.len() + t]);
        t = t + 1;
    }
    proof {
        assert(r@ =~= spec_rs_remainder(data@, gen@));
    }
    r
}

} // verus!
