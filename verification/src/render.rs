use vstd::prelude::*;
use vstd::string::StringExecFns;
use vstd::string::StrSliceExecFns;
use crate::encode::QrMatrix;
use crate::matrix::{spec_idx, lemma_side_sq, lemma_idx_bound};
use crate::{OutputFormat, spec_content_type};

verus! {

/// Decimal digits of a number up to three places.
pub open spec fn spec_dec(n: int) -> Seq<char> {
    if n < 10 {
        spec_digit(n)
    } else if n < 100 {
        spec_digit(n / 10) + spec_digit(n % 10)
    } else {
        spec_digit(n / 100) + spec_digit((n / 10) % 10) + spec_digit(n % 10)
    }
}

pub open spec fn spec_digit(d: int) -> Seq<char> {
    if d == 0 { "0"@ } else if d == 1 { "1"@ } else if d == 2 { "2"@ } else if d == 3 { "3"@ }
    else if d == 4 { "4"@ } else if d == 5 { "5"@ } else if d == 6 { "6"@ } else if d == 7 { "7"@ }
    else if d == 8 { "8"@ } else { "9"@ }
}

fn append_digit(out: &mut String, d: usize)
    requires
        d <= 9,
    ensures
        final(out)@ == old(out)@ + spec_digit(d as int),
{
    match d {
        0 => out.append("0"),
        1 => out.append("1"),
        2 => out.append("2"),
        3 => out.append("3"),
        4 => out.append("4"),
        5 => out.append("5"),
        6 => out.append("6"),
        7 => out.append("7"),
        8 => out.append("8"),
        _ => out.append("9"),
    }
}

fn append_dec(out: &mut String, n: usize)
    requires
        n <= 999,
    ensures
        final(out)@ == old(out)@ + spec_dec(n as int),
{
    if n < 10 {
        append_digit(out, n);
    } else if n < 100 {
        append_digit(out, n / 10);
        append_digit(out, n % 10);
    } else {
        append_digit(out, n / 100);
        append_digit(out, (n / 10) % 10);
        append_digit(out, n % 10);
    }
}

/// One unit rectangle for each dark module, in row-major order, over the
/// modules before index `i`.
pub open spec fn spec_svg_rects(side: int, cells: Seq<bool>, i: int) -> Seq<char>
    decreases i,
{
    if i <= 0 {
        Seq::empty()
    } else {
        spec_svg_rects(side, cells, i - 1) + (if cells[i - 1] {
            "<rect x=\""@ + spec_dec((i - 1) % side) + "\" y=\""@ + spec_dec((i - 1) / side)
                + "\" width=\"1\" height=\"1\" fill=\"#000000\"/>\n"@
        } else {
            Seq::<char>::empty()
        })
    }
}

/// The SVG document for a matrix: a light background sized to the side
/// length and one unit rectangle per dark module at grid coordinates.
pub open spec fn spec_svg(side: int, cells: Seq<bool>) -> Seq<char> {
    "<?xml version=\"1.0\" encoding=\"UTF-8\"?>\n<svg xmlns=\"http://www.w3.org/2000/svg\" width=\""@
        + spec_dec(side) + "\" height=\""@ + spec_dec(side) + "\" viewBox=\"0 0 "@ + spec_dec(side)
        + " "@ + spec_dec(side) + "\">\n<rect width=\""@ + spec_dec(side) + "\" height=\""@
        + spec_dec(side) + "\" fill=\"#ffffff\"/>\n"@ + spec_svg_rects(side, cells, side * side)
        + "</svg>\n"@
}

/// Renders the matrix as an SVG document.
#[verifier::rlimit(60)]
pub fn render_svg(m: &QrMatrix) -> (r: String)
    requires
        m.wf(),
    ensures
        r@ == spec_svg(m.side as int, m.modules@),
{
    let side: usize = m.side;
    proof {
        lemma_side_sq(side as int);
    }
    let n: usize = side * side;
    let mut out: String = String::new();
    out.append("<?xml version=\"1.0\" encoding=\"UTF-8\"?>\n<svg xmlns=\"http://www.w3.org/2000/svg\" width=\"");
    append_dec(&mut out, side);
    out.append("\" height=\"");
    append_dec(&mut out, side);
    out.append("\" viewBox=\"0 0 ");
    append_dec(&mut out, side);
    out.append(" ");
    append_dec(&mut out, side);
    out.append("\">\n<rect width=\"");
    append_dec(&mut out, side);
    out.append("\" height=\"");
    append_dec(&mut out, side);
    out.append("\" fill=\"#ffffff\"/>\n");
    let ghost header: Seq<char> = out@;
    let mut i: usize = 0;
    while i < n
        invariant
            i <= n,
            n == side * side,
            side == m.side,
            m.wf(),
            out@ == header + spec_svg_rects(side as int, m.modules@, i as int),
        decreases n - i,
    {
        let r: usize = i / side;
        let c: usize = i % side;
        proof {
            assert((i as int) / (side as int) < side as int && (i as int) % (side as int) < side as int
                && (i as int) % (side as int) <= 999 && (i as int) / (side as int) <= 999)
                by (nonlinear_arith)
                requires 0 < side <= 177, i < side * side,
            {
            }
            lemma_idx_bound(side as int, r as int, c as int);
            assert(spec_idx(side as int, r as int, c as int) == i) by (nonlinear_arith)
                requires r == i as int / side as int, c == i as int % side as int, 0 < side,
            {
            }
        }
        if m.is_dark(r, c) {
            out.append("<rect x=\"");
            append_dec(&mut out, c);
            out.append("\" y=\"");
            append_dec(&mut out, r);
            out.append("\" width=\"1\" height=\"1\" fill=\"#000000\"/>\n");
        }
        i = i + 1;
    }
    out.append("</svg>\n");
    out
}

/// Glyph for a vertical pair of half-block pixels.
pub open spec fn spec_glyph(t: bool, b: bool) -> Seq<char> {
    if t && b { "\u{2588}"@ } else if t { "\u{2580}"@ } else if b { "\u{2584}"@ } else { " "@ }
}

/// Whether the half-block pixel at a row and column is on: `block` gives
/// the module colour drawn as a filled glyph; rows beyond the matrix are
/// off.
pub open spec fn spec_uni_on(side: int, cells: Seq<bool>, block: bool, r: int, c: int) -> bool {
    r < side && cells[spec_idx(side, r, c)] == block
}

pub open spec fn spec_uni_row(side: int, cells: Seq<bool>, block: bool, tr: int, c: int) -> Seq<char>
    decreases c,
{
    if c <= 0 {
        Seq::empty()
    } else {
        spec_uni_row(side, cells, block, tr, c - 1)
            + spec_glyph(spec_uni_on(side, cells, block, 2 * tr, c - 1),
                spec_uni_on(side, cells, block, 2 * tr + 1, c - 1))
    }
}

pub open spec fn spec_uni_rows(side: int, cells: Seq<bool>, block: bool, tr: int) -> Seq<char>
    decreases tr,
{
    if tr <= 0 {
        Seq::empty()
    } else {
        spec_uni_rows(side, cells, block, tr - 1) + spec_uni_row(side, cells, block, tr - 1, side)
            + "\n"@
    }
}

/// The text rendering of a matrix: two module rows per output line packed
/// into half-block glyphs, each line ending in a newline. `block` selects
/// which module colour is drawn filled.
pub open spec fn spec_unicode(side: int, cells: Seq<bool>, block: bool) -> Seq<char> {
    spec_uni_rows(side, cells, block, (side + 1) / 2)
}

/// Renders the matrix as a half-block glyph grid.
pub fn render_unicode(m: &QrMatrix, block: bool) -> (r: String)
    requires
        m.wf(),
    ensures
        r@ == spec_unicode(m.side as int, m.modules@, block),
{
    let side: usize = m.side;
    let rows: usize = (side + 1) / 2;
    let mut out: String = String::new();
    let mut tr: usize = 0;
    while tr < rows
        invariant
            tr <= rows,
            rows == (side + 1) / 2,
            side == m.side,
            m.wf(),
            out@ == spec_uni_rows(side as int, m.modules@, block, tr as int),
        decreases rows - tr,
    {
        let mut c: usize = 0;
        while c < side
            invariant
                c <= side,
                tr < rows,
                rows == (side + 1) / 2,
                side == m.side,
                m.wf(),
                out@ == spec_uni_rows(side as int, m.modules@, block, tr as int)
                    + spec_uni_row(side as int, m.modules@, block, tr as int, c as int),
            decreases side - c,
        {
            let top_r: usize = 2 * tr;
            proof {
                assert(2 * (tr as int) < side as int) by (nonlinear_arith)
                    requires tr < (side + 1) / 2, side >= 1,
                {
                }
            }
            let t: bool = m.is_dark(top_r, c) == block;
            let b: bool = if top_r + 1 < side {
                m.is_dark(top_r + 1, c) == block
            } else {
                false
            };
            proof {
                lemma_idx_bound(side as int, top_r as int, c as int);
                if top_r + 1 < side {
                    lemma_idx_bound(side as int, top_r as int + 1, c as int);
                }
            }
            if t && b {
                out.append("\u{2588}");
            } else if t {
                out.append("\u{2580}");
            } else if b {
                out.append("\u{2584}");
            } else {
                out.append(" ");
            }
            c = c + 1;
        }
        out.append("\n");
        tr = tr + 1;
    }
    out
}

/// Grayscale pixels of the matrix, one byte per module: dark is black,
/// light is white.
pub open spec fn spec_pixels(cells: Seq<bool>) -> Seq<u8> {
    Seq::new(cells.len(), |i: int| if cells[i] { 0u8 } else { 255u8 })
}

pub fn pixels_of(m: &QrMatrix) -> (p: Vec<u8>)
    requires
        m.wf(),
    ensures
        p@ == spec_pixels(m.modules@),
{
    let mut p: Vec<u8> = Vec::new();
    let mut i: usize = 0;
    let n: usize = m.modules.len();
    while i < n
        invariant
            i <= n,
            n == m.modules@.len(),
            p@.len() == i,
            forall|j: int| 0 <= j < i ==> p@[j] == (if m.modules@[j] { 0u8 } else { 255u8 }),
        decreases n - i,
    {
        p.push(if m.modules[i] { 0 } else { 255 });
        i = i + 1;
    }
    proof {
        assert(p@ =~= spec_pixels(m.modules@));
    }
    p
}

/// The PNG stream that the image library produces for a square grayscale
/// pixel buffer; a pure function of the pixels and the side length.
pub uninterp spec fn png_of(pixels: Seq<u8>, side: int) -> Seq<u8>;

/// Relies on image's PNG encoder: `ImageBuffer::from_raw` accepts a
/// buffer whose length matches the dimensions, and `write_to` into an
/// in-memory cursor encodes the eight-bit grayscale pixels as a PNG
/// stream, a deterministic function of pixels and dimensions alone.
#[verifier::external_body]
fn png_encode(pixels: &Vec<u8>, side: usize) -> (r: Vec<u8>)
    requires
        1 <= side <= 177,
        pixels@.len() == side * side,
    ensures
        r@ == png_of(pixels@, side as int),
{
    let img: image::ImageBuffer<image::Luma<u8>, Vec<u8>> =
        image::ImageBuffer::from_raw(side as u32, side as u32, pixels.clone()).unwrap();
    let mut buf: Vec<u8> = Vec::new();
    let mut cur = std::io::Cursor::new(&mut buf);
    img.write_to(&mut cur, image::ImageFormat::Png).unwrap();
    buf
}

/// The rendered bytes of a matrix in each output format.
pub open spec fn spec_render_bytes(side: int, cells: Seq<bool>, f: OutputFormat) -> Seq<u8> {
    match f {
        OutputFormat::Png => png_of(spec_pixels(cells), side),
        OutputFormat::Svg => vstd::utf8::encode_utf8(spec_svg(side, cells)),
        OutputFormat::Unicode => vstd::utf8::encode_utf8(spec_unicode(side, cells, false)),
        OutputFormat::UnicodeInverted => vstd::utf8::encode_utf8(spec_unicode(side, cells, true)),
    }
}

/// Serializes a finished symbol in the requested format, returning the
/// body bytes and their content type. Pure: the bytes are a function of
/// the matrix and format alone.
pub fn render(m: &QrMatrix, f: OutputFormat) -> (r: (Vec<u8>, &'static str))
    requires
        m.wf(),
    ensures
        r.0@ == spec_render_bytes(m.side as int, m.modules@, f),
        r.1@ == spec_content_type(f),
{
    match f {
        OutputFormat::Png => {
            let p = pixels_of(m);
            proof {
                lemma_side_sq(m.side as int);
            }
            (png_encode(&p, m.side), "image/png")
        },
        OutputFormat::Svg => {
            let s = render_svg(m);
            (s.as_str().as_bytes_vec(), "image/svg+xml")
        },
        OutputFormat::Unicode => {
            let s = render_unicode(m, false);
            (s.as_str().as_bytes_vec(), "text/plain; charset=UTF-8")
        },
        OutputFormat::UnicodeInverted => {
            let s = render_unicode(m, true);
            (s.as_str().as_bytes_vec(), "text/plain; charset=UTF-8")
        },
    }
}

/// Rendering is deterministic: one matrix and format determine exactly
/// one rendered byte sequence, so two calls yield byte-identical output.
pub proof fn lemma_render_deterministic(side: int, cells: Seq<bool>, f: OutputFormat, b1: Seq<u8>, b2: Seq<u8>)
    requires
        b1 == spec_render_bytes(side, cells, f),
        b2 == spec_render_bytes(side, cells, f),
    ensures
        b1 == b2,
{
}

} // verus!
