//! Serving a paste request from the record currently offered: whether the
//! requested MIME may be served at all, and which bytes go out.

use vstd::prelude::*;
use crate::base::utils::{mime_base, parse_mime, strip_html_tags, strip_tags};
use crate::text::{starts_with, str_eq, str_starts_with};

verus! {

/// Base types that every text-like record may be requested as.
pub open spec fn text_alias(b: Seq<char>) -> bool {
    b == "text/plain"@ || b == "utf8_string"@ || b == "string"@ || b == "text"@ || b == "compound_text"@
}

/// A request for `requested` may be served from a record of MIME `target`:
/// same base type (case, whitespace and parameters ignored), both text, both
/// images, or a plain-text alias requested from any text-like record (any
/// `text/*`, a text alias, or XHTML).
pub open spec fn compatible(requested: Seq<char>, target: Seq<char>) -> bool {
    let rb = mime_base(requested);
    let tb = mime_base(target);
    ||| rb == tb
    ||| starts_with(rb, "text/"@) && starts_with(tb, "text/"@)
    ||| starts_with(rb, "image/"@) && starts_with(tb, "image/"@)
    ||| text_alias(rb) && (text_alias(tb) || starts_with(tb, "text/"@) || tb == "application/xhtml+xml"@)
}

fn is_text_alias(b: &str) -> (r: bool)
    ensures
        r == text_alias(b@),
{
    str_eq(b, "text/plain") || str_eq(b, "utf8_string") || str_eq(b, "string") || str_eq(b, "text") || str_eq(
        b,
        "compound_text",
    )
}

pub fn mime_is_compatible(requested: &str, target: &str) -> (r: bool)
    ensures
        r == compatible(requested@, target@),
{
    let (rb, _) = parse_mime(requested);
    let (tb, _) = parse_mime(target);
    let rb = rb.as_str();
    let tb = tb.as_str();
    if str_eq(rb, tb) {
        return true;
    }
    if str_starts_with(rb, "text/") && str_starts_with(tb, "text/") {
        return true;
    }
    if str_starts_with(rb, "image/") && str_starts_with(tb, "image/") {
        return true;
    }
    is_text_alias(rb) && (is_text_alias(tb) || str_starts_with(tb, "text/") || str_eq(tb, "application/xhtml+xml"))
}

/// Every record may be requested under its own MIME.
pub proof fn law_compatible_reflexive(m: Seq<char>)
    ensures
        compatible(m, m),
{
}

/// How a cached (file-backed) record is sent.
#[derive(Debug, Clone, Copy, PartialEq, Eq)]
pub enum FileEgress {
    /// The request is not compatible: the pipe is closed unanswered.
    Refuse,
    /// The cache file goes out unchanged.
    Verbatim,
    /// `image/png` was asked of a non-PNG image: converted on the way out.
    TranscodePng,
}

/// A request for `image/png` of an image stored in another format.
pub open spec fn needs_png_transcode(requested: Seq<char>, stored: Seq<char>) -> bool {
    mime_base(requested) == "image/png"@ && starts_with(mime_base(stored), "image/"@) && mime_base(stored)
        != "image/png"@
}

pub fn file_egress(requested: &str, stored: &str) -> (r: FileEgress)
    ensures
        !compatible(requested@, stored@) ==> r == FileEgress::Refuse,
        compatible(requested@, stored@) && needs_png_transcode(requested@, stored@) ==> r
            == FileEgress::TranscodePng,
        compatible(requested@, stored@) && !needs_png_transcode(requested@, stored@) ==> r == FileEgress::Verbatim,
{
    if !mime_is_compatible(requested, stored) {
        return FileEgress::Refuse;
    }
    let (rb, _) = parse_mime(requested);
    let (sb, _) = parse_mime(stored);
    if str_eq(rb.as_str(), "image/png") && str_starts_with(sb.as_str(), "image/") && !str_eq(
        sb.as_str(),
        "image/png",
    ) {
        FileEgress::TranscodePng
    } else {
        FileEgress::Verbatim
    }
}

/// HTML or XHTML, by the stored MIME exactly.
pub open spec fn rich_markup(stored: Seq<char>) -> bool {
    stored == "text/html"@ || stored == "application/xhtml+xml"@
}

/// The request asks for the markup itself.
pub open spec fn wants_markup(requested: Seq<char>) -> bool {
    starts_with(requested, "text/html"@) || starts_with(requested, "application/xhtml"@)
}

/// The bytes an inline record is sent as: markup requested as anything
/// but markup loses its tags; everything else goes out as stored.
pub open spec fn inline_egress(requested: Seq<char>, stored: Seq<char>, data: Seq<u8>) -> Seq<u8> {
    if rich_markup(stored) && !wants_markup(requested) {
        strip_tags(data)
    } else {
        data
    }
}

/// What an inline record sends for a request: `None` when the request is
/// not compatible with the record.
pub fn inline_bytes(requested: &str, stored: &str, data: &[u8]) -> (r: Option<Vec<u8>>)
    ensures
        match r {
            Some(b) => compatible(requested@, stored@) && b@ == inline_egress(requested@, stored@, data@),
            None => !compatible(requested@, stored@),
        },
{
    if !mime_is_compatible(requested, stored) {
        return None;
    }
    let rich = str_eq(stored, "text/html") || str_eq(stored, "application/xhtml+xml");
    let wants = str_starts_with(requested, "text/html") || str_starts_with(requested, "application/xhtml");
    if rich && !wants {
        Some(strip_html_tags(data))
    } else {
        let mut out: Vec<u8> = Vec::new();
        let mut i: usize = 0;
        while i < data.len()
            invariant
                i <= data@.len(),
                out@ == data@.subrange(0, i as int),
            decreases data@.len() - i,
        {
            out.push(data[i]);
            i = i + 1;
            assert(out@ =~= data@.subrange(0, i as int));
        }
        assert(data@.subrange(0, data@.len() as int) =~= data@);
        Some(out)
    }
}

/// A request for a record's own MIME gets back exactly the stored bytes.
pub proof fn law_own_mime_gets_stored_bytes(stored: Seq<char>, data: Seq<u8>)
    ensures
        compatible(stored, stored),
        rich_markup(stored) ==> wants_markup(stored),
        inline_egress(stored, stored, data) == data,
{
    if stored == "text/html"@ {
        assert(stored.subrange(0, "text/html"@.len() as int) =~= stored);
    }
    if stored == "application/xhtml+xml"@ {
        reveal_strlit("application/xhtml+xml");
        reveal_strlit("application/xhtml");
        assert(stored.subrange(0, "application/xhtml"@.len() as int) =~= "application/xhtml"@);
    }
}

} // verus!
