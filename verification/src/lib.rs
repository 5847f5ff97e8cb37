#![verifier::loop_isolation(false)]

pub mod tables;
pub mod gf;
pub mod codewords;
pub mod matrix;
pub mod mask;
pub mod encode;
pub mod render;
pub mod service;

use vstd::prelude::*;

verus! {

/// The four output encodings a caller may request for a finished symbol.
#[derive(Clone, Copy, PartialEq, Eq, Structural, Debug)]
pub enum OutputFormat {
    Png,
    Svg,
    Unicode,
    UnicodeInverted,
}

/// The MIME type of each output format.
pub open spec fn spec_content_type(f: OutputFormat) -> Seq<char> {
    match f {
        OutputFormat::Png => "image/png"@,
        OutputFormat::Svg => "image/svg+xml"@,
        OutputFormat::Unicode => "text/plain; charset=UTF-8"@,
        OutputFormat::UnicodeInverted => "text/plain; charset=UTF-8"@,
    }
}

impl OutputFormat {
    /// The MIME type sent back with a body rendered in this format.
    pub fn content_type(self) -> (r: &'static str)
        ensures
            r@ == spec_content_type(self),
    {
        match self {
            OutputFormat::Png => "image/png",
            OutputFormat::Svg => "image/svg+xml",
            OutputFormat::Unicode => "text/plain; charset=UTF-8",
            OutputFormat::UnicodeInverted => "text/plain; charset=UTF-8",
        }
    }
}

} // verus!
