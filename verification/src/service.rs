use vstd::prelude::*;
use crate::{OutputFormat, spec_content_type};
use crate::codewords::{spec_fits, spec_codeword_bits};
use crate::matrix::spec_place_data;
use crate::encode::{encode, EncodeError, QrMatrix};
use crate::render::{render, spec_render_bytes};
use crate::mask::{spec_candidate, spec_penalty};

verus! {

/// The client-visible failures of the service, all answered with a 400
/// status and a one-line body.
#[derive(Clone, Copy, PartialEq, Eq, Structural, Debug)]
pub enum ServiceError {
    MissingField,
    MalformedRequestBody,
    UnsupportedFormat,
    PayloadTooLarge,
}

pub open spec fn spec_error_message(e: ServiceError) -> Seq<char> {
    match e {
        ServiceError::MissingField => "Missing `data` parameter"@,
        ServiceError::MalformedRequestBody => "Invalid JSON body"@,
        ServiceError::UnsupportedFormat => "Unsupported format"@,
        ServiceError::PayloadTooLarge => "Payload too large"@,
    }
}

impl ServiceError {
    /// Every failure is a property of the request, answered as a client
    /// error.
    pub fn status(self) -> (s: u16)
        ensures
            s == 400,
    {
        400
    }

    pub fn message(self) -> (m: &'static str)
        ensures
            m@ == spec_error_message(self),
    {
        match self {
            ServiceError::MissingField => "Missing `data` parameter",
            ServiceError::MalformedRequestBody => "Invalid JSON body",
            ServiceError::UnsupportedFormat => "Unsupported format",
            ServiceError::PayloadTooLarge => "Payload too large",
        }
    }
}

/// The request string that names each output format.
pub open spec fn spec_format_name(f: OutputFormat) -> Seq<u8> {
    match f {
        OutputFormat::Png => seq![112u8, 110u8, 103u8],
        OutputFormat::Svg => seq![115u8, 118u8, 103u8],
        OutputFormat::Unicode => seq![117u8, 110u8, 105u8, 99u8, 111u8, 100u8, 101u8],
        OutputFormat::UnicodeInverted => seq![117u8, 110u8, 105u8, 99u8, 111u8, 100u8, 101u8,
            95u8, 105u8, 110u8, 118u8, 101u8, 114u8, 116u8, 101u8, 100u8],
    }
}

/// Parse-or-reject for the format parameter: exactly the four names
/// `png`, `svg`, `unicode` and `unicode_inverted` are recognized.
pub open spec fn spec_parse_format(b: Seq<u8>) -> Option<OutputFormat> {
    if b == spec_format_name(OutputFormat::Png) {
        Some(OutputFormat::Png)
    } else if b == spec_format_name(OutputFormat::Svg) {
        Some(OutputFormat::Svg)
    } else if b == spec_format_name(OutputFormat::Unicode) {
        Some(OutputFormat::Unicode)
    } else if b == spec_format_name(OutputFormat::UnicodeInverted) {
        Some(OutputFormat::UnicodeInverted)
    } else {
        None
    }
}

pub fn parse_format(s: &[u8]) -> (r: Option<OutputFormat>)
    ensures
        r == spec_parse_format(s@),
{
    if s.len() == 3 && s[0] == 112 && s[1] == 110 && s[2] == 103 {
        proof {
            assert(s@ =~= spec_format_name(OutputFormat::Png));
        }
        Some(OutputFormat::Png)
    } else if s.len() == 3 && s[0] == 115 && s[1] == 118 && s[2] == 103 {
        proof {
            assert(s@ =~= spec_format_name(OutputFormat::Svg));
        }
        Some(OutputFormat::Svg)
    } else if s.len() == 7 && s[0] == 117 && s[1] == 110 && s[2] == 105 && s[3] == 99
        && s[4] == 111 && s[5] == 100 && s[6] == 101 {
        proof {
            assert(s@ =~= spec_format_name(OutputFormat::Unicode));
        }
        Some(OutputFormat::Unicode)
    } else if s.len() == 16 && s[0] == 117 && s[1] == 110 && s[2] == 105 && s[3] == 99
        && s[4] == 111 && s[5] == 100 && s[6] == 101 && s[7] == 95 && s[8] == 105 && s[9] == 110
        && s[10] == 118 && s[11] == 101 && s[12] == 114 && s[13] == 116 && s[14] == 101
        && s[15] == 100 {
        proof {
            assert(s@ =~= spec_format_name(OutputFormat::UnicodeInverted));
        }
        Some(OutputFormat::UnicodeInverted)
    } else {
        proof {
            assert(s@ != spec_format_name(OutputFormat::Png));
            assert(s@ != spec_format_name(OutputFormat::Svg));
            assert(s@ != spec_format_name(OutputFormat::Unicode));
            assert(s@ != spec_format_name(OutputFormat::UnicodeInverted));
        }
        None
    }
}

/// The format a route uses: the parsed request value if one was sent,
/// else the route's default.
pub open spec fn spec_route_format(f: Option<Seq<u8>>, dflt: OutputFormat) -> Option<OutputFormat> {
    match f {
        None => Some(dflt),
        Some(b) => spec_parse_format(b),
    }
}

pub open spec fn view_opt(o: Option<Vec<u8>>) -> Option<Seq<u8>> {
    match o {
        None => None,
        Some(v) => Some(v@),
    }
}

/// The two routes resolve an explicitly named format identically: the
/// per-route defaults (PNG for query requests, text for JSON requests)
/// act only when the request names none.
pub proof fn lemma_route_format_agree(fs: Seq<u8>, d1: OutputFormat, d2: OutputFormat)
    ensures
        spec_route_format(Some(fs), d1) == spec_route_format(Some(fs), d2),
{
}

/// Requesting the same payload and a named format through either route
/// yields the same reply: equal status, equal content type, and
/// byte-identical bodies.
pub proof fn lemma_routes_agree_on_named_format(data: Seq<u8>, fs: Seq<u8>, rg: HttpReply, rp: HttpReply)
    requires
        spec_handled(data, Some(fs), OutputFormat::Png, rg),
        spec_handled(data, Some(fs), OutputFormat::Unicode, rp),
    ensures
        rg.status == rp.status,
        rg.content_type is Some <==> rp.content_type is Some,
        rg.content_type matches Some(a) ==> (rp.content_type matches Some(b) && a@ == b@),
        rg.body@ == rp.body@,
{
    lemma_route_format_agree(fs, OutputFormat::Png, OutputFormat::Unicode);
    match spec_route_format(Some(fs), OutputFormat::Png) {
        Some(f) => {
            if spec_fits(data, 40) {
                lemma_renders_deterministic(data, f, rg.body@, rp.body@);
            }
        },
        None => {
        },
    }
}

/// The symbol witnessing a rendered body: well-formed (which fixes the
/// version's true function-pattern layer), at the payload's smallest
/// fitting version, its modules the payload's codeword bits placed in
/// zig-zag order and masked by the penalty-minimal mask with the lowest
/// index winning ties, and the body its serialization in the format.
pub open spec fn spec_renders_with(data: Seq<u8>, f: OutputFormat, body: Seq<u8>, m: QrMatrix) -> bool {
    &&& m.wf()
    &&& spec_fits(data, m.version as int)
    &&& forall|v2: int| 1 <= v2 < m.version as int ==> !spec_fits(data, v2)
    &&& forall|i: int| 0 <= i < m.side * m.side && !m.funcs@[i]
        ==> m.placed@[i] == spec_place_data(m.base@, m.funcs@, m.side as int,
            spec_codeword_bits(data, m.version as int))[i]
    &&& m.modules@ == spec_candidate(
        spec_place_data(m.base@, m.funcs@, m.side as int, spec_codeword_bits(data, m.version as int)),
        m.funcs@, m.side as int, m.mask as int)
    &&& forall|k2: int| 0 <= k2 < 8 ==> spec_penalty(m.side as int,
        #[trigger] spec_candidate(
            spec_place_data(m.base@, m.funcs@, m.side as int, spec_codeword_bits(data, m.version as int)),
            m.funcs@, m.side as int, k2)) >= spec_penalty(m.side as int, m.modules@)
    &&& forall|k2: int| 0 <= k2 < m.mask as int ==> spec_penalty(m.side as int,
        #[trigger] spec_candidate(
            spec_place_data(m.base@, m.funcs@, m.side as int, spec_codeword_bits(data, m.version as int)),
            m.funcs@, m.side as int, k2)) > spec_penalty(m.side as int, m.modules@)
    &&& body == spec_render_bytes(m.side as int, m.modules@, f)
}

/// A body is the rendering of the payload: the unique symbol of
/// `spec_renders_with` serialized in the format.
pub open spec fn spec_renders(data: Seq<u8>, f: OutputFormat, body: Seq<u8>) -> bool {
    exists|m: QrMatrix| #[trigger] spec_renders_with(data, f, body, m)
}

/// Any two renderings of one payload come from the same symbol: the
/// witnesses agree — same minimal version, hence the same
/// function-pattern layer, the same placed codeword bits, and the same
/// penalty-minimal mask under the lowest-index tie-break. In particular
/// the plain and inverted text bodies depict one module grid with the
/// glyph mapping swapped.
pub proof fn lemma_renderings_share_symbol(data: Seq<u8>, f1: OutputFormat, f2: OutputFormat, b1: Seq<u8>, b2: Seq<u8>)
    requires
        spec_renders(data, f1, b1),
        spec_renders(data, f2, b2),
    ensures
        exists|m: QrMatrix| #[trigger] m.wf()
            && b1 == spec_render_bytes(m.side as int, m.modules@, f1)
            && b2 == spec_render_bytes(m.side as int, m.modules@, f2),
{
    let m1 = choose|m: QrMatrix| #[trigger] spec_renders_with(data, f1, b1, m);
    let m2 = choose|m: QrMatrix| #[trigger] spec_renders_with(data, f2, b2, m);
    if m1.version < m2.version {
        assert(!spec_fits(data, m1.version as int));
    }
    if m2.version < m1.version {
        assert(!spec_fits(data, m2.version as int));
    }
    assert(m1.version == m2.version);
    assert(m1.funcs@ == m2.funcs@ && m1.base@ == m2.base@ && m1.side == m2.side);
    let placed = spec_place_data(m1.base@, m1.funcs@, m1.side as int,
        spec_codeword_bits(data, m1.version as int));
    if m1.mask < m2.mask {
        assert(spec_penalty(m1.side as int, spec_candidate(placed, m1.funcs@, m1.side as int, m1.mask as int))
            > spec_penalty(m2.side as int, m2.modules@));
        assert(spec_penalty(m1.side as int, spec_candidate(placed, m1.funcs@, m1.side as int, m2.mask as int))
            >= spec_penalty(m1.side as int, m1.modules@));
    }
    if m2.mask < m1.mask {
        assert(spec_penalty(m1.side as int, spec_candidate(placed, m1.funcs@, m1.side as int, m2.mask as int))
            > spec_penalty(m1.side as int, m1.modules@));
        assert(spec_penalty(m1.side as int, spec_candidate(placed, m1.funcs@, m1.side as int, m1.mask as int))
            >= spec_penalty(m2.side as int, m2.modules@));
    }
    assert(m1.mask == m2.mask);
    assert(m1.modules@ == m2.modules@);
    assert(m1.wf() && b1 == spec_render_bytes(m1.side as int, m1.modules@, f1)
        && b2 == spec_render_bytes(m1.side as int, m1.modules@, f2));
}

/// The pipeline is deterministic at spec level: two bodies that render
/// the same payload in the same format are byte-identical.
pub proof fn lemma_renders_deterministic(data: Seq<u8>, f: OutputFormat, b1: Seq<u8>, b2: Seq<u8>)
    requires
        spec_renders(data, f, b1),
        spec_renders(data, f, b2),
    ensures
        b1 == b2,
{
    lemma_renderings_share_symbol(data, f, f, b1, b2);
}

/// The core pipeline: encode the payload, then serialize the symbol.
/// Succeeds exactly on payloads within the version-40 capacity.
pub fn generate_qr(data: &[u8], format: OutputFormat) -> (r: Result<(Vec<u8>, &'static str), ServiceError>)
    ensures
        r is Ok <==> spec_fits(data@, 40),
        match r {
            Ok(out) => spec_renders(data@, format, out.0@) && out.1@ == spec_content_type(format),
            Err(e) => e == ServiceError::PayloadTooLarge,
        },
{
    match encode(data) {
        Ok(m) => {
            let out = render(&m, format);
            proof {
                assert(spec_renders_with(data@, format, out.0@, m));
            }
            Ok(out)
        },
        Err(EncodeError::PayloadTooLarge) => Err(ServiceError::PayloadTooLarge),
    }
}

/// A finished HTTP answer: status, content type when one applies, and
/// the body bytes.
pub struct HttpReply {
    pub status: u16,
    pub content_type: Option<&'static str>,
    pub body: Vec<u8>,
}

pub open spec fn spec_error_reply(r: HttpReply, e: ServiceError) -> bool {
    &&& r.status == 400
    &&& r.content_type is None
    &&& r.body@ == vstd::utf8::encode_utf8(spec_error_message(e))
}

fn error_reply(e: ServiceError) -> (r: HttpReply)
    ensures
        spec_error_reply(r, e),
{
    HttpReply { status: e.status(), content_type: None, body: e.message().as_bytes_vec() }
}

/// What either route answers once its default format is fixed.
pub open spec fn spec_handled(data: Seq<u8>, format: Option<Seq<u8>>, dflt: OutputFormat, r: HttpReply) -> bool {
    match spec_route_format(format, dflt) {
        None => spec_error_reply(r, ServiceError::UnsupportedFormat),
        Some(f) => if spec_fits(data, 40) {
            &&& r.status == 200
            &&& (r.content_type matches Some(ct) && ct@ == spec_content_type(f))
            &&& spec_renders(data, f, r.body@)
        } else {
            spec_error_reply(r, ServiceError::PayloadTooLarge)
        },
    }
}

fn handle(data: &[u8], format: &Option<Vec<u8>>, dflt: OutputFormat) -> (r: HttpReply)
    ensures
        spec_handled(data@, view_opt(*format), dflt, r),
{
    let f: OutputFormat = match format {
        None => dflt,
        Some(fs) => match parse_format(fs.as_slice()) {
            Some(f) => f,
            None => {
                return error_reply(ServiceError::UnsupportedFormat);
            },
        },
    };
    match generate_qr(data, f) {
        Ok((body, ct)) => HttpReply { status: 200, content_type: Some(ct), body },
        Err(_) => error_reply(ServiceError::PayloadTooLarge),
    }
}

/// Answers a query-parameter request: `data` is required, `format`
/// defaults to PNG.
pub fn generate_qr_get(data: Option<Vec<u8>>, format: Option<Vec<u8>>) -> (r: HttpReply)
    ensures
        data is None ==> spec_error_reply(r, ServiceError::MissingField),
        data matches Some(d) ==> spec_handled(d@, view_opt(format), OutputFormat::Png, r),
{
    match data {
        None => error_reply(ServiceError::MissingField),
        Some(d) => handle(d.as_slice(), &format, OutputFormat::Png),
    }
}

/// Answers a JSON-body request: a missing or malformed body is rejected,
/// `format` defaults to the text rendering.
pub fn generate_qr_post(body: Option<(Vec<u8>, Option<Vec<u8>>)>) -> (r: HttpReply)
    ensures
        body is None ==> spec_error_reply(r, ServiceError::MalformedRequestBody),
        body matches Some(b) ==> spec_handled(b.0@, view_opt(b.1), OutputFormat::Unicode, r),
{
    match body {
        None => error_reply(ServiceError::MalformedRequestBody),
        Some((d, f)) => handle(d.as_slice(), &f, OutputFormat::Unicode),
    }
}

} // verus!
