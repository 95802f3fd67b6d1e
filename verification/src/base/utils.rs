//! Byte-level clipboard payload utilities: markup stripping, MIME parsing,
//! URI-list normalisation, image sniffing and repair, and the `<img src>`
//! extractor used by the original-image fetcher.

use vstd::prelude::*;
use crate::bytes::{
    bytes_ends_with, bytes_starts_with, find_bytes, is_ascii_whitespace, is_ascii_ws,
    lower_bytes, split_bytes_bounds, to_lower_bytes, trim_ascii, trim_ascii_range,
    trim_ascii_start, trim_ascii_start_range,
};
use crate::text::{
    lemma_find_from_bounds,
    lemma_split_on_nonempty, string_of, StrSliceViews,
    chars_of, ends_with, find, lossy_string, lower, lower_range, split_bounds, split_on,
    starts_with, str_starts_with, trim, trim_range, utf8_lossy,
};

verus! {

// ---------------------------------------------------------------------------
// Markup stripping.

/// Output of the `<`/`>` toggle over `data`, starting inside a tag when
/// `in_tag` holds: `<` enters tag mode, `>` leaves it only while inside a
/// tag, and every other byte outside a tag is kept.
pub open spec fn strip_tags_from(data: Seq<u8>, in_tag: bool) -> Seq<u8>
    decreases data.len(),
{
    if data.len() == 0 {
        Seq::empty()
    } else {
        let b = data[0];
        let rest = data.drop_first();
        if b == 0x3c {
            strip_tags_from(rest, true)
        } else if b == 0x3e && in_tag {
            strip_tags_from(rest, false)
        } else if !in_tag {
            seq![b] + strip_tags_from(rest, false)
        } else {
            strip_tags_from(rest, true)
        }
    }
}

pub open spec fn strip_tags(data: Seq<u8>) -> Seq<u8> {
    strip_tags_from(data, false)
}

/// Removes `<...>` tags from raw markup, keeping the text between them. Only
/// `<` opens a tag; a `>` met outside a tag is ordinary text.
pub fn strip_html_tags(data: &[u8]) -> (r: Vec<u8>)
    ensures
        r@ == strip_tags(data@),
{
    let mut out: Vec<u8> = Vec::new();
    let mut in_tag = false;
    let mut i: usize = 0;
    assert(data@.subrange(0, data@.len() as int) =~= data@);
    assert(out@ + strip_tags(data@) =~= strip_tags(data@));
    while i < data.len()
        invariant
            i <= data@.len(),
            out@ + strip_tags_from(data@.subrange(i as int, data@.len() as int), in_tag)
                == strip_tags(data@),
        decreases data@.len() - i,
    {
        let ghost rest = data@.subrange(i as int, data@.len() as int);
        assert(rest.drop_first() =~= data@.subrange(i + 1, data@.len() as int));
        let b = data[i];
        if b == 0x3c {
            in_tag = true;
        } else if b == 0x3e && in_tag {
            in_tag = false;
        } else if !in_tag {
            out.push(b);
            assert(out@ + strip_tags_from(rest.drop_first(), false) =~= out@.drop_last() + (seq![b]
                + strip_tags_from(rest.drop_first(), false)));
        }
        i = i + 1;
    }
    assert(data@.subrange(data@.len() as int, data@.len() as int) =~= Seq::<u8>::empty());
    assert(out@ + Seq::<u8>::empty() =~= out@);
    out
}

proof fn lemma_strip_tags_no_open(data: Seq<u8>, in_tag: bool)
    ensures
        forall|i: int|
            0 <= i < strip_tags_from(data, in_tag).len() ==> strip_tags_from(data, in_tag)[i]
                != 0x3c,
    decreases data.len(),
{
    if data.len() > 0 {
        let rest = data.drop_first();
        lemma_strip_tags_no_open(rest, true);
        lemma_strip_tags_no_open(rest, false);
        let b = data[0];
        let r = strip_tags_from(data, in_tag);
        if b == 0x3c {
            assert(r == strip_tags_from(rest, true));
        } else if b == 0x3e && in_tag {
            assert(r == strip_tags_from(rest, false));
        } else if !in_tag {
            let t = strip_tags_from(rest, false);
            assert(r == seq![b] + t);
            assert forall|i: int| 0 <= i < r.len() implies r[i] != 0x3c by {
                if i > 0 {
                    assert(r[i] == t[i - 1]);
                } else {
                    assert(r[0] == b);
                }
            }
        } else {
            assert(r == strip_tags_from(rest, true));
        }
    }
}

proof fn lemma_strip_tags_identity(data: Seq<u8>)
    requires
        forall|i: int| 0 <= i < data.len() ==> data[i] != 0x3c,
    ensures
        strip_tags_from(data, false) == data,
    decreases data.len(),
{
    if data.len() > 0 {
        lemma_strip_tags_identity(data.drop_first());
        assert(seq![data[0]] + data.drop_first() =~= data);
    }
}

/// Law: markup stripping leaves text that holds no `<` untouched.
pub proof fn law_strip_html_tags_plain_text_untouched(data: Seq<u8>)
    requires
        forall|i: int| 0 <= i < data.len() ==> data[i] != 0x3c,
    ensures
        strip_tags(data) == data,
{
    lemma_strip_tags_identity(data);
}

/// Law: stripping is idempotent, and what it leaves holds no `<`.
pub proof fn law_strip_html_tags_idempotent(data: Seq<u8>)
    ensures
        forall|i: int| 0 <= i < strip_tags(data).len() ==> strip_tags(data)[i] != 0x3c,
        strip_tags(strip_tags(data)) == strip_tags(data),
{
    lemma_strip_tags_no_open(data, false);
    lemma_strip_tags_identity(strip_tags(data));
}

/// Position `i` of `data` lies inside a tag: a `<` stands before it with no
/// `>` between the two.
pub open spec fn inside_tag(data: Seq<u8>, i: int) -> bool {
    exists|j: int| 0 <= j < i && data[j] == 0x3c && forall|k: int| j < k < i ==> data[k] != 0x3e
}

/// The byte at position `i` is text: neither a `<` nor inside a tag.
pub open spec fn text_byte(data: Seq<u8>, i: int) -> bool {
    data[i] != 0x3c && !inside_tag(data, i)
}

/// The text bytes of `data` from position `i` on, in their order.
pub open spec fn text_bytes_from(data: Seq<u8>, i: int) -> Seq<u8>
    decreases data.len() - i,
{
    if 0 <= i < data.len() {
        if text_byte(data, i) {
            seq![data[i]] + text_bytes_from(data, i + 1)
        } else {
            text_bytes_from(data, i + 1)
        }
    } else {
        Seq::empty()
    }
}

/// How being inside a tag changes from one position to the next.
proof fn lemma_inside_tag_step(data: Seq<u8>, i: int)
    requires
        0 <= i < data.len(),
    ensures
        data[i] == 0x3c ==> inside_tag(data, i + 1),
        data[i] == 0x3e ==> !inside_tag(data, i + 1),
        data[i] != 0x3c && data[i] != 0x3e ==> (inside_tag(data, i + 1) == inside_tag(data, i)),
{
    if data[i] == 0x3c {
        assert(forall|k: int| i < k < i + 1 ==> data[k] != 0x3e);
        assert(inside_tag(data, i + 1));
    }
    if data[i] == 0x3e {
        assert forall|j: int| 0 <= j < i + 1 && data[j] == 0x3c implies !(forall|k: int|
            j < k < i + 1 ==> data[k] != 0x3e) by {
            assert(j != i);
            assert(j < i < i + 1 && data[i] == 0x3e);
        }
    }
    if data[i] != 0x3c && data[i] != 0x3e {
        if inside_tag(data, i + 1) {
            let j = choose|j: int| 0 <= j < i + 1 && data[j] == 0x3c && forall|k: int| j < k < i + 1 ==> data[k] != 0x3e;
            assert(j != i);
            assert(forall|k: int| j < k < i ==> data[k] != 0x3e);
            assert(inside_tag(data, i));
        }
        if inside_tag(data, i) {
            let j = choose|j: int| 0 <= j < i && data[j] == 0x3c && forall|k: int| j < k < i ==> data[k] != 0x3e;
            assert(forall|k: int| j < k < i + 1 ==> data[k] != 0x3e);
            assert(inside_tag(data, i + 1));
        }
    }
}

proof fn lemma_strip_tags_suffix(data: Seq<u8>, i: int)
    requires
        0 <= i <= data.len(),
    ensures
        strip_tags_from(data.subrange(i, data.len() as int), inside_tag(data, i)) == text_bytes_from(data, i),
        text_bytes_from(data, i).len() <= data.len() - i,
    decreases data.len() - i,
{
    let rest = data.subrange(i, data.len() as int);
    if i == data.len() {
        assert(rest =~= Seq::<u8>::empty());
    } else {
        lemma_strip_tags_suffix(data, i + 1);
        lemma_inside_tag_step(data, i);
        assert(rest.drop_first() =~= data.subrange(i + 1, data.len() as int));
        assert(rest[0] == data[i]);
    }
}

/// Law: stripping keeps exactly the text bytes (those that are neither a
/// `<` nor inside a tag), in their order; so the result is never longer than
/// the input.
pub proof fn law_strip_html_tags_keeps_exactly_the_text(data: Seq<u8>)
    ensures
        strip_tags(data) == text_bytes_from(data, 0),
        strip_tags(data).len() <= data.len(),
{
    lemma_strip_tags_suffix(data, 0);
    assert(data.subrange(0, data.len() as int) =~= data);
}

// ---------------------------------------------------------------------------
// Image sniffing and repair.

pub open spec fn png_magic() -> Seq<u8> {
    seq![0x89u8, 0x50u8, 0x4eu8, 0x47u8]
}

pub open spec fn gif_magic() -> Seq<u8> {
    seq![0x47u8, 0x49u8, 0x46u8, 0x38u8]
}

pub open spec fn riff_magic() -> Seq<u8> {
    seq![0x52u8, 0x49u8, 0x46u8, 0x46u8]
}

pub open spec fn webp_tag() -> Seq<u8> {
    seq![0x57u8, 0x45u8, 0x42u8, 0x50u8]
}

pub open spec fn ftyp_tag() -> Seq<u8> {
    seq![0x66u8, 0x74u8, 0x79u8, 0x70u8]
}

pub open spec fn avif_brand() -> Seq<u8> {
    seq![0x61u8, 0x76u8, 0x69u8, 0x66u8]
}

pub open spec fn avis_brand() -> Seq<u8> {
    seq![0x61u8, 0x76u8, 0x69u8, 0x73u8]
}

/// `<?xml`
pub open spec fn xml_decl() -> Seq<u8> {
    seq![0x3cu8, 0x3fu8, 0x78u8, 0x6du8, 0x6cu8]
}

/// `<svg`
pub open spec fn svg_open() -> Seq<u8> {
    seq![0x3cu8, 0x73u8, 0x76u8, 0x67u8]
}

/// The image format that the leading bytes of `d` identify.
pub open spec fn detect_image(d: Seq<u8>) -> Option<Seq<char>> {
    if d.len() >= 4 && d.subrange(0, 4) == png_magic() {
        Some("image/png"@)
    } else if d.len() >= 4 && d[0] == 0xff && d[1] == 0xd8 && d[2] == 0xff {
        Some("image/jpeg"@)
    } else if d.len() >= 4 && d.subrange(0, 4) == gif_magic() {
        Some("image/gif"@)
    } else if d.len() >= 12 && d.subrange(0, 4) == riff_magic() && d.subrange(8, 12)
        == webp_tag() {
        Some("image/webp"@)
    } else if d.len() >= 12 && d.subrange(4, 8) == ftyp_tag() && (d.subrange(8, 12)
        == avif_brand() || d.subrange(8, 12) == avis_brand()) {
        Some("image/avif"@)
    } else if starts_with(trim_ascii_start(d), xml_decl()) || starts_with(
        trim_ascii_start(d),
        svg_open(),
    ) {
        Some("image/svg+xml"@)
    } else {
        None
    }
}

fn magic_at(data: &[u8], at: usize, m: [u8; 4]) -> (r: bool)
    requires
        at + 4 <= data@.len(),
    ensures
        r == (data@.subrange(at as int, at + 4) == m@),
{
    let r = data[at] == m[0] && data[at + 1] == m[1] && data[at + 2] == m[2] && data[at + 3]
        == m[3];
    if r {
        assert(data@.subrange(at as int, at + 4) =~= m@);
    } else {
        assert(data@.subrange(at as int, at + 4) != m@) by {
            if data@.subrange(at as int, at + 4) == m@ {
                assert(data@.subrange(at as int, at + 4)[0] == m@[0]);
                assert(data@.subrange(at as int, at + 4)[1] == m@[1]);
                assert(data@.subrange(at as int, at + 4)[2] == m@[2]);
                assert(data@.subrange(at as int, at + 4)[3] == m@[3]);
            }
        }
    }
    r
}

/// Identifies an image payload's real format from its leading bytes, never
/// from any label it arrived with: PNG, JPEG, GIF, WebP and AVIF by their
/// signatures, then SVG by an `<?xml` or `<svg` opening after leading
/// ASCII whitespace.
pub fn detect_image_mime(data: &[u8]) -> (r: Option<&'static str>)
    ensures
        match r {
            Some(m) => detect_image(data@) == Some(m@),
            None => detect_image(data@).is_none(),
        },
{
    let png: [u8; 4] = [0x89, 0x50, 0x4e, 0x47];
    let gif: [u8; 4] = [0x47, 0x49, 0x46, 0x38];
    let riff: [u8; 4] = [0x52, 0x49, 0x46, 0x46];
    let webp: [u8; 4] = [0x57, 0x45, 0x42, 0x50];
    let ftyp: [u8; 4] = [0x66, 0x74, 0x79, 0x70];
    let avif: [u8; 4] = [0x61, 0x76, 0x69, 0x66];
    let avis: [u8; 4] = [0x61, 0x76, 0x69, 0x73];
    assert(png@ =~= png_magic());
    assert(gif@ =~= gif_magic());
    assert(riff@ =~= riff_magic());
    assert(webp@ =~= webp_tag());
    assert(ftyp@ =~= ftyp_tag());
    assert(avif@ =~= avif_brand());
    assert(avis@ =~= avis_brand());
    if data.len() >= 4 {
        if magic_at(data, 0, png) {
            return Some("image/png");
        }
        if data[0] == 0xff && data[1] == 0xd8 && data[2] == 0xff {
            return Some("image/jpeg");
        }
        if magic_at(data, 0, gif) {
            return Some("image/gif");
        }
        if data.len() >= 12 && magic_at(data, 0, riff) && magic_at(data, 8, webp) {
            return Some("image/webp");
        }
        if data.len() >= 12 && magic_at(data, 4, ftyp) && (magic_at(data, 8, avif) || magic_at(
            data,
            8,
            avis,
        )) {
            return Some("image/avif");
        }
    }
    let start = trim_ascii_start_range(data, 0, data.len());
    assert(data@.subrange(0, data@.len() as int) =~= data@);
    let head = &data[start..data.len()];
    let xml: [u8; 5] = [0x3c, 0x3f, 0x78, 0x6d, 0x6c];
    let svg: [u8; 4] = [0x3c, 0x73, 0x76, 0x67];
    assert(xml@ =~= xml_decl());
    assert(svg@ =~= svg_open());
    if bytes_starts_with(head, xml.as_slice()) || bytes_starts_with(head, svg.as_slice()) {
        Some("image/svg+xml")
    } else {
        None
    }
}

pub open spec fn jpeg_eoi() -> Seq<u8> {
    seq![0xffu8, 0xd9u8]
}

pub open spec fn png_iend() -> Seq<u8> {
    seq![0x00u8, 0x00u8, 0x00u8, 0x00u8, 0x49u8, 0x45u8, 0x4eu8, 0x44u8, 0xaeu8, 0x42u8, 0x60u8, 0x82u8]
}

pub open spec fn gif_trailer() -> Seq<u8> {
    seq![0x3bu8]
}

/// The fixed trailer an image format must end with, for the three formats
/// that have one.
pub open spec fn image_trailer(mime: Seq<char>) -> Option<Seq<u8>> {
    if mime == "image/jpeg"@ {
        Some(jpeg_eoi())
    } else if mime == "image/png"@ {
        Some(png_iend())
    } else if mime == "image/gif"@ {
        Some(gif_trailer())
    } else {
        None
    }
}

/// `d` with its format's trailer appended when it does not already end
/// with it; unchanged for every other format.
pub open spec fn repair_image(d: Seq<u8>, mime: Seq<char>) -> Seq<u8> {
    match image_trailer(mime) {
        Some(t) => if ends_with(d, t) {
            d
        } else {
            d + t
        },
        None => d,
    }
}

/// Appends the missing end marker of a truncated JPEG (`FF D9`), PNG (the
/// `IEND` chunk) or GIF (`3B`) payload; every other format, and a payload
/// that already ends correctly, passes through untouched.
pub fn sanitize_image_payload(data: Vec<u8>, mime: &str) -> (r: Vec<u8>)
    ensures
        r@ == repair_image(data@, mime@),
{
    let mut data = data;
    let ghost d0 = data@;
    let tail: Option<Vec<u8>> = if crate::text::str_eq(mime, "image/jpeg") {
        Some(vec![0xffu8, 0xd9u8])
    } else if crate::text::str_eq(mime, "image/png") {
        Some(vec![0x00u8, 0x00u8, 0x00u8, 0x00u8, 0x49u8, 0x45u8, 0x4eu8, 0x44u8, 0xaeu8, 0x42u8, 0x60u8, 0x82u8])
    } else if crate::text::str_eq(mime, "image/gif") {
        Some(vec![0x3bu8])
    } else {
        None
    };
    match tail {
        Some(t) => {
            assert(t@ =~= image_trailer(mime@).unwrap());
            if !bytes_ends_with(data.as_slice(), t.as_slice()) {
                let mut i: usize = 0;
                while i < t.len()
                    invariant
                        i <= t@.len(),
                        data@ == d0 + t@.subrange(0, i as int),
                    decreases t@.len() - i,
                {
                    data.push(t[i]);
                    i = i + 1;
                    assert(data@ =~= d0 + t@.subrange(0, i as int));
                }
                assert(t@.subrange(0, t@.len() as int) =~= t@);
            }
            data
        },
        None => data,
    }
}

proof fn lemma_ends_with_append(d: Seq<u8>, t: Seq<u8>)
    ensures
        ends_with(d + t, t),
{
    assert((d + t).subrange((d + t).len() - t.len(), (d + t).len() as int) =~= t);
}

/// Law: repairing an image is idempotent, and a repaired JPEG, PNG or GIF
/// always ends with its format's trailer.
pub proof fn law_sanitize_image_idempotent(d: Seq<u8>, mime: Seq<char>)
    ensures
        repair_image(repair_image(d, mime), mime) == repair_image(d, mime),
        image_trailer(mime) matches Some(t) ==> ends_with(repair_image(d, mime), t),
{
    if let Some(t) = image_trailer(mime) {
        lemma_ends_with_append(d, t);
    }
}

/// Whether `url` names a plain web resource: `http://` or `https://`.
pub fn is_valid_http_url(url: &str) -> (r: bool)
    ensures
        r == (starts_with(url@, "http://"@) || starts_with(url@, "https://"@)),
{
    str_starts_with(url, "http://") || str_starts_with(url, "https://")
}

// ---------------------------------------------------------------------------
// MIME type parsing.

/// The trimmed, non-empty pieces among `segs`, in order.
pub open spec fn trimmed_nonempty(segs: Seq<Seq<char>>) -> Seq<Seq<char>>
    decreases segs.len(),
{
    if segs.len() == 0 {
        Seq::empty()
    } else {
        let p = trimmed_nonempty(segs.drop_last());
        let t = trim(segs.last());
        if t.len() > 0 {
            p.push(t)
        } else {
            p
        }
    }
}

/// The base `type/subtype` of a media type: the text before the first `;`,
/// trimmed and lowercased (ASCII only).
pub open spec fn mime_base(m: Seq<char>) -> Seq<char> {
    lower(trim(split_on(m, ';')[0]))
}

/// The `;`-separated parameters after the base type, trimmed, empty ones
/// dropped, their case untouched.
pub open spec fn mime_params(m: Seq<char>) -> Seq<Seq<char>> {
    trimmed_nonempty(split_on(m, ';').drop_first())
}

/// Splits a MIME/media-type string into its lowercased base type and its
/// trimmed, non-empty `;`-parameters.
pub fn parse_mime(mime: &str) -> (r: (String, Vec<&str>))
    ensures
        r.0@ == mime_base(mime@),
        r.1@.views() == mime_params(mime@),
{
    let v = chars_of(mime);
    assert(v@.subrange(0, v@.len() as int) =~= v@);
    let segs = split_bounds(&v, 0, v.len(), ';');
    proof {
        lemma_split_on_nonempty(v@, ';');
    }
    let ghost pieces = split_on(v@, ';');
    let (a, b) = trim_range(&v, segs[0].0, segs[0].1);
    let low = lower_range(&v, a, b);
    let base = string_of(&low);
    let mut params: Vec<&str> = Vec::new();
    let mut k: usize = 1;
    assert(pieces.subrange(1, 1) =~= Seq::<Seq<char>>::empty());
    assert(params@.views() =~= Seq::<Seq<char>>::empty());
    while k < segs.len()
        invariant
            1 <= k <= segs@.len(),
            v@ == mime@,
            pieces == split_on(v@, ';'),
            segs@.len() == pieces.len(),
            forall|j: int|
                0 <= j < segs@.len() ==> (#[trigger] segs@[j]).0 <= segs@[j].1 <= v@.len()
                    && v@.subrange(segs@[j].0 as int, segs@[j].1 as int) == pieces[j],
            params@.views() == trimmed_nonempty(pieces.subrange(1, k as int)),
        decreases segs@.len() - k,
    {
        let (sa, sb) = segs[k];
        let (ta, tb) = trim_range(&v, sa, sb);
        assert(pieces.subrange(1, k + 1).drop_last() =~= pieces.subrange(1, k as int));
        assert(pieces.subrange(1, k + 1).last() == pieces[k as int]);
        if ta < tb {
            let p = mime.substring_char(ta, tb);
            params.push(p);
            assert(params@.views() =~= trimmed_nonempty(pieces.subrange(1, k as int)).push(
                v@.subrange(ta as int, tb as int),
            ));
        }
        k = k + 1;
    }
    assert(pieces.subrange(1, pieces.len() as int) =~= pieces.drop_first());
    (base, params)
}

/// Whether two media types name the same base type once both are parsed:
/// case- and whitespace-insensitive, parameters ignored.
pub fn mime_base_eq(a: &str, b: &str) -> (r: bool)
    ensures
        r == (mime_base(a@) == mime_base(b@)),
{
    let (ba, _) = parse_mime(a);
    let (bb, _) = parse_mime(b);
    crate::text::str_eq(ba.as_str(), bb.as_str())
}

// ---------------------------------------------------------------------------
// `<img src=...>` extraction.

/// `<img`
pub open spec fn img_open() -> Seq<u8> {
    seq![0x3cu8, 0x69u8, 0x6du8, 0x67u8]
}

/// `src=`
pub open spec fn src_attr() -> Seq<u8> {
    seq![0x73u8, 0x72u8, 0x63u8, 0x3du8]
}

/// First position at or after `i` that is not ASCII whitespace.
pub open spec fn skip_ascii_ws(s: Seq<u8>, i: int) -> int
    decreases s.len() - i,
{
    if 0 <= i < s.len() && is_ascii_ws(s[i]) {
        skip_ascii_ws(s, i + 1)
    } else {
        i
    }
}

/// First position at or after `i` holding `b`, or the length when none does.
pub open spec fn find_byte_from(s: Seq<u8>, b: u8, i: int) -> int
    decreases s.len() - i,
{
    if i >= s.len() {
        i
    } else if s[i] == b {
        i
    } else {
        find_byte_from(s, b, i + 1)
    }
}

/// The bytes of the quoted `src` value of the first `<img` tag: `<img` and `src=` are
/// matched case-insensitively, `src=` only before that tag's first `>`, the
/// value must be single- or double-quoted and closed by the same quote, and
/// its bytes are taken from the original (not lowercased) input.
pub open spec fn image_url_bytes(html: Seq<u8>) -> Option<Seq<u8>> {
    let low = lower_bytes(html);
    match find(low, img_open()) {
        None => None,
        Some(img) => {
            let tag_end = match find(low.subrange(img, low.len() as int), seq![0x3eu8]) {
                Some(r) => img + r,
                None => low.len() as int,
            };
            match find(low.subrange(img, tag_end), src_attr()) {
                None => None,
                Some(sr) => {
                    let i = skip_ascii_ws(low, img + sr + 4);
                    if i >= html.len() {
                        None
                    } else {
                        let q = html[i];
                        if q != 0x22 && q != 0x27 {
                            None
                        } else {
                            let e = find_byte_from(html, q, i + 1);
                            if e < html.len() {
                                Some(html.subrange(i + 1, e))
                            } else {
                                None
                            }
                        }
                    }
                },
            }
        },
    }
}

/// The `src` value of the first `<img` tag, as text (invalid UTF-8 replaced
/// as `String::from_utf8_lossy` does).
pub open spec fn image_url(html: Seq<u8>) -> Option<Seq<char>> {
    match image_url_bytes(html) {
        Some(b) => Some(utf8_lossy(b)),
        None => None,
    }
}

/// Extracts the first `<img ... src="...">` (or `src='...'`) URL from raw
/// `text/html` bytes.
pub fn extract_image_url_from_html(html: &[u8]) -> (r: Option<String>)
    ensures
        match r {
            Some(u) => image_url(html@) == Some(u@),
            None => image_url(html@).is_none(),
        },
        match image_url_bytes(html@) {
            Some(b) => r.is_some() && (vstd::utf8::valid_utf8(b) ==> r.unwrap()@ == vstd::utf8::decode_utf8(b)),
            None => r.is_none(),
        },
{
    let lower = to_lower_bytes(html);
    let low = lower.as_slice();
    let ghost lw = lower_bytes(html@);
    assert(low@ == lw);
    assert(low@.subrange(0, low@.len() as int) =~= low@);
    let img_needle: [u8; 4] = [0x3c, 0x69, 0x6d, 0x67];
    assert(img_needle@ =~= img_open());
    let img_pos = match find_bytes(low, 0, low.len(), img_needle.as_slice()) {
        Some(p) => p,
        None => return None,
    };
    proof {
        lemma_find_from_bounds(lw, img_open(), 0);
    }
    let gt: [u8; 1] = [0x3e];
    assert(gt@ =~= seq![0x3eu8]);
    let tag_end = match find_bytes(low, img_pos, low.len(), gt.as_slice()) {
        Some(rel) => {
            proof {
                lemma_find_from_bounds(lw.subrange(img_pos as int, lw.len() as int), seq![0x3eu8], 0);
            }
            img_pos + rel
        },
        None => low.len(),
    };
    let src_needle: [u8; 4] = [0x73, 0x72, 0x63, 0x3d];
    assert(src_needle@ =~= src_attr());
    let src_rel = match find_bytes(low, img_pos, tag_end, src_needle.as_slice()) {
        Some(p) => p,
        None => return None,
    };
    proof {
        lemma_find_from_bounds(lw.subrange(img_pos as int, tag_end as int), src_attr(), 0);
    }
    let mut i = img_pos + src_rel + 4;
    while i < low.len() && is_ascii_whitespace(low[i])
        invariant
            img_pos + src_rel + 4 <= i <= low@.len(),
            low@ == lw,
            skip_ascii_ws(lw, i as int) == skip_ascii_ws(lw, img_pos + src_rel + 4),
        decreases low@.len() - i,
    {
        i = i + 1;
    }
    if i >= html.len() {
        return None;
    }
    let quote = html[i];
    if quote != 0x22 && quote != 0x27 {
        return None;
    }
    let start = i + 1;
    let mut j = start;
    while j < html.len() && html[j] != quote
        invariant
            start <= j <= html@.len(),
            find_byte_from(html@, quote, j as int) == find_byte_from(html@, quote, start as int),
        decreases html@.len() - j,
    {
        j = j + 1;
    }
    if j < html.len() {
        let url = lossy_string(&html[start..j]);
        Some(url)
    } else {
        None
    }
}

// ---------------------------------------------------------------------------
// `text/uri-list` normalisation.

/// Value of an ASCII hex digit, either case.
pub open spec fn hex_val(b: u8) -> Option<nat> {
    if 0x30 <= b <= 0x39 {
        Some((b - 0x30) as nat)
    } else if 0x61 <= b <= 0x66 {
        Some((b - 0x61 + 10) as nat)
    } else if 0x41 <= b <= 0x46 {
        Some((b - 0x41 + 10) as nat)
    } else {
        None
    }
}

/// Percent-decoding: every `%` followed by two hex digits becomes the byte
/// they spell; every other byte, a lone `%` included, is kept.
pub open spec fn percent_decoded(s: Seq<u8>) -> Seq<u8>
    decreases s.len(),
{
    if s.len() == 0 {
        Seq::empty()
    } else if s[0] == 0x25 && s.len() >= 3 && hex_val(s[1]) is Some && hex_val(s[2]) is Some {
        seq![(hex_val(s[1]).unwrap() * 16 + hex_val(s[2]).unwrap()) as u8] + percent_decoded(
            s.skip(3),
        )
    } else {
        seq![s[0]] + percent_decoded(s.skip(1))
    }
}

/// Calls `percent_encoding::percent_decode` and collects its bytes. Trusted:
/// the crate decodes every `%` followed by two hex digits (either case) to
/// the byte they spell and passes every other byte through, which is
/// `percent_decoded`.
#[verifier::external_body]
fn percent_decode_bytes(input: &[u8]) -> (r: Vec<u8>)
    ensures
        r@ == percent_decoded(input@),
{
    percent_encoding::percent_decode(input).collect()
}

/// `file:`
pub open spec fn file_scheme() -> Seq<u8> {
    seq![0x66u8, 0x69u8, 0x6cu8, 0x65u8, 0x3au8]
}

/// A `file:` URI reduced to its path: `file:///p` and `file:/p` keep `/p`,
/// `file://host/p` drops the authority and keeps `/p` (nothing when no `/`
/// follows the host), `file:p` keeps `p`; any other line is unchanged.
pub open spec fn strip_file(line: Seq<u8>) -> Seq<u8> {
    if !starts_with(line, file_scheme()) {
        line
    } else {
        let rest = line.skip(5);
        if starts_with(rest, seq![0x2fu8, 0x2fu8]) {
            let after = rest.skip(2);
            if starts_with(after, seq![0x2fu8]) {
                after
            } else {
                match find(after, seq![0x2fu8]) {
                    Some(i) => after.skip(i),
                    None => Seq::empty(),
                }
            }
        } else {
            rest
        }
    }
}

fn strip_file_scheme(line: &[u8]) -> (r: &[u8])
    ensures
        r@ == strip_file(line@),
{
    let scheme: [u8; 5] = [0x66, 0x69, 0x6c, 0x65, 0x3a];
    assert(scheme@ =~= file_scheme());
    if !bytes_starts_with(line, scheme.as_slice()) {
        return line;
    }
    let rest = &line[5..line.len()];
    assert(rest@ =~= line@.skip(5));
    let slashes: [u8; 2] = [0x2f, 0x2f];
    assert(slashes@ =~= seq![0x2fu8, 0x2fu8]);
    if !bytes_starts_with(rest, slashes.as_slice()) {
        return rest;
    }
    let after = &rest[2..rest.len()];
    assert(after@ =~= rest@.skip(2));
    let slash: [u8; 1] = [0x2f];
    assert(slash@ =~= seq![0x2fu8]);
    if bytes_starts_with(after, slash.as_slice()) {
        return after;
    }
    assert(after@.subrange(0, after@.len() as int) =~= after@);
    match find_bytes(after, 0, after.len(), slash.as_slice()) {
        Some(i) => {
            proof {
                lemma_find_from_bounds(after@, seq![0x2fu8], 0);
            }
            let r = &after[i..after.len()];
            assert(r@ =~= after@.skip(i as int));
            r
        },
        None => {
            let r = &after[0..0];
            assert(r@ =~= Seq::<u8>::empty());
            r
        },
    }
}

/// What one raw line of a URI list contributes: `None` for a blank or `#`
/// comment line, or for a line whose decoded path is empty.
pub open spec fn uri_entry(raw: Seq<u8>) -> Option<Seq<u8>> {
    let line = trim_ascii(raw);
    if line.len() == 0 || line[0] == 0x23 {
        None
    } else {
        let d = percent_decoded(strip_file(line));
        if d.len() == 0 {
            None
        } else {
            Some(d)
        }
    }
}

/// The entries of `lines`, joined with `\n`.
pub open spec fn join_uri_entries(lines: Seq<Seq<u8>>) -> Seq<u8>
    decreases lines.len(),
{
    if lines.len() == 0 {
        Seq::empty()
    } else {
        let acc = join_uri_entries(lines.drop_last());
        match uri_entry(lines.last()) {
            None => acc,
            Some(d) => if acc.len() == 0 {
                d
            } else {
                acc.push(0x0au8) + d
            },
        }
    }
}

/// A normalised `text/uri-list`: one decoded path per line.
pub open spec fn normalized_uri_list(data: Seq<u8>) -> Seq<u8> {
    join_uri_entries(split_on(data, 0x0au8))
}

/// Normalises a raw `text/uri-list` payload into a newline-joined list of
/// filesystem paths: blank and `#` lines dropped, each line trimmed, the
/// `file:` scheme and any authority stripped, percent-escapes decoded. Works
/// on raw bytes throughout, so a path that is not valid UTF-8 survives.
pub fn normalize_uri_list(data: &[u8]) -> (r: Vec<u8>)
    ensures
        r@ == normalized_uri_list(data@),
{
    let bounds = split_bytes_bounds(data, 0x0a);
    let ghost lines = split_on(data@, 0x0au8);
    let mut out: Vec<u8> = Vec::new();
    let mut k: usize = 0;
    assert(lines.subrange(0, 0) =~= Seq::<Seq<u8>>::empty());
    while k < bounds.len()
        invariant
            k <= bounds@.len(),
            bounds@.len() == lines.len(),
            lines == split_on(data@, 0x0au8),
            forall|j: int|
                0 <= j < bounds@.len() ==> (#[trigger] bounds@[j]).0 <= bounds@[j].1
                    <= data@.len() && data@.subrange(bounds@[j].0 as int, bounds@[j].1 as int)
                    == lines[j],
            out@ == join_uri_entries(lines.subrange(0, k as int)),
        decreases bounds@.len() - k,
    {
        let (a, b) = bounds[k];
        assert(lines.subrange(0, k + 1).drop_last() =~= lines.subrange(0, k as int));
        assert(lines.subrange(0, k + 1).last() == lines[k as int]);
        let (ta, tb) = trim_ascii_range(data, a, b);
        assert(data@.subrange(ta as int, tb as int) == trim_ascii(lines[k as int]));
        if ta < tb && data[ta] != 0x23 {
            let line = &data[ta..tb];
            let decoded = percent_decode_bytes(strip_file_scheme(line));
            if decoded.len() > 0 {
                if out.len() > 0 {
                    out.push(0x0a);
                }
                let ghost before = out@;
                let mut i: usize = 0;
                while i < decoded.len()
                    invariant
                        i <= decoded@.len(),
                        out@ == before + decoded@.subrange(0, i as int),
                    decreases decoded@.len() - i,
                {
                    out.push(decoded[i]);
                    i = i + 1;
                    assert(out@ =~= before + decoded@.subrange(0, i as int));
                }
                assert(decoded@.subrange(0, decoded@.len() as int) =~= decoded@);
                assert(before.len() == 0 ==> out@ =~= decoded@);
            }
        }
        k = k + 1;
    }
    assert(lines.subrange(0, lines.len() as int) =~= lines);
    out
}

// ---------------------------------------------------------------------------
// Fetching an original image with `curl`.

/// The `curl` arguments for fetching `url`: silent, following redirects,
/// bounded in time (`CURL_TIMEOUT_SECS`, 3 s to connect) and size
/// (`MAX_IMAGE_FETCH_SIZE`), with a browser-like user agent.
pub open spec fn curl_args(url: Seq<char>) -> Seq<Seq<char>> {
    seq![
        "-sL"@,
        "--max-time"@,
        crate::num::dec(crate::base::constants::CURL_TIMEOUT_SECS as nat),
        "--connect-timeout"@,
        "3"@,
        "--max-filesize"@,
        crate::num::dec(crate::base::constants::MAX_IMAGE_FETCH_SIZE as nat),
        "--user-agent"@,
        crate::base::constants::FETCH_USER_AGENT@,
        url,
    ]
}

pub fn fetch_command_args(url: &str) -> (r: Vec<String>)
    ensures
        r@.map_values(|s: String| s@) == curl_args(url@),
{
    let mut out: Vec<String> = Vec::new();
    out.push(String::from_str("-sL"));
    out.push(String::from_str("--max-time"));
    out.push(crate::num::u64_to_string(crate::base::constants::CURL_TIMEOUT_SECS));
    out.push(String::from_str("--connect-timeout"));
    out.push(String::from_str("3"));
    out.push(String::from_str("--max-filesize"));
    out.push(crate::num::u64_to_string(crate::base::constants::MAX_IMAGE_FETCH_SIZE as u64));
    out.push(String::from_str("--user-agent"));
    out.push(String::from_str(crate::base::constants::FETCH_USER_AGENT));
    out.push(String::from_str(url));
    assert(out@.map_values(|s: String| s@) =~= curl_args(url@));
    out
}

/// What a finished `curl` run yields: its output, unless it failed
/// (`curl exited with <status>`), printed nothing, or printed more than
/// `MAX_IMAGE_FETCH_SIZE` bytes.
pub fn accept_fetch_output(success: bool, status: &str, stdout: Vec<u8>) -> (r: Result<Vec<u8>, String>)
    ensures
        !success ==> (r matches Err(e) && e@ == "curl exited with "@ + status@),
        success && stdout@.len() == 0 ==> (r matches Err(e) && e@ == "curl returned an empty response"@),
        success && stdout@.len() > crate::base::constants::MAX_IMAGE_FETCH_SIZE ==> (r matches Err(e) && e@
            == "fetched payload exceeds MAX_IMAGE_FETCH_SIZE"@),
        r is Ok <==> (success && 0 < stdout@.len() <= crate::base::constants::MAX_IMAGE_FETCH_SIZE),
        r matches Ok(b) ==> b@ == stdout@,
{
    if !success {
        let mut e = String::from_str("curl exited with ");
        e.append(status);
        return Err(e);
    }
    if stdout.len() == 0 {
        return Err(String::from_str("curl returned an empty response"));
    }
    if stdout.len() > crate::base::constants::MAX_IMAGE_FETCH_SIZE {
        return Err(String::from_str("fetched payload exceeds MAX_IMAGE_FETCH_SIZE"));
    }
    Ok(stdout)
}

} // verus!
