//! The `show` command's display of one record: its details, and its
//! content when that is text.

use vstd::prelude::*;
use crate::num::{dec, dec_int, push_i64, push_u64};
use crate::text::{contains_seq, lossy_string, occurs_at, str_contains, utf8_lossy};

verus! {

/// A record's content is printed to the terminal when its MIME names
/// `text` or `UTF8`; anything else is binary.
pub open spec fn text_display(mime: Seq<char>) -> bool {
    contains_seq(mime, "text"@) || contains_seq(mime, "UTF8"@)
}

pub fn shows_as_text(mime: &str) -> (r: bool)
    ensures
        r == text_display(mime@),
{
    str_contains(mime, "text") || str_contains(mime, "UTF8")
}

pub open spec fn details_rule() -> Seq<char> {
    "---------------"@
}

/// The lines `show` prints for record `id` of type `mime` holding
/// `payload`: the details block, then the content decoded lossily as UTF-8
/// when it is text, or a notice that binary content is not displayed.
pub open spec fn details(id: i64, mime: Seq<char>, payload: Seq<u8>) -> Seq<Seq<char>> {
    let head = seq![
        "--- DETAILS ---"@,
        "DB_ID:    "@ + dec_int(id as int),
        "MIME:     "@ + mime,
        "SIZE:     "@ + dec(payload.len()) + " bytes"@,
        details_rule(),
    ];
    let body = if text_display(mime) {
        seq![utf8_lossy(payload)]
    } else {
        seq!["[binary payload: terminal display suppressed]"@, "hint: utilize '--raw' to pipe data to a file."@]
    };
    head + body + seq![details_rule()]
}

pub fn detail_lines(id: i64, mime: &str, payload: &[u8]) -> (r: Vec<String>)
    ensures
        r@.len() == details(id, mime@, payload@).len(),
        forall|k: int| 0 <= k < r@.len() ==> r@[k]@ == details(id, mime@, payload@)[k],
        text_display(mime@) && vstd::utf8::valid_utf8(payload@) ==> r@[5]@ == vstd::utf8::decode_utf8(payload@),
{
    let mut out: Vec<String> = Vec::new();
    out.push(String::from_str("--- DETAILS ---"));
    let mut l = String::from_str("DB_ID:    ");
    push_i64(&mut l, id);
    out.push(l);
    let mut l = String::from_str("MIME:     ");
    l.append(mime);
    out.push(l);
    let mut l = String::from_str("SIZE:     ");
    push_u64(&mut l, payload.len() as u64);
    l.append(" bytes");
    out.push(l);
    out.push(String::from_str("---------------"));
    if shows_as_text(mime) {
        out.push(lossy_string(payload));
    } else {
        out.push(String::from_str("[binary payload: terminal display suppressed]"));
        out.push(String::from_str("hint: utilize '--raw' to pipe data to a file."));
    }
    out.push(String::from_str("---------------"));
    let ghost want = details(id, mime@, payload@);
    assert(out@.len() == want.len());
    assert forall|k: int| 0 <= k < out@.len() implies out@[k]@ == want[k] by {
        reveal_strlit("--- DETAILS ---");
        reveal_strlit("---------------");
    }
    out
}

/// Law: a record whose MIME names `text` or `UTF8` anywhere (`text/plain`,
/// `text/uri-list`, `text/html`, `UTF8_STRING`, ...) has its content shown:
/// the line after the details block is the payload decoded as UTF-8
/// (lossily), and exactly one closing rule follows.
pub proof fn law_text_records_show_their_content(id: i64, mime: Seq<char>, payload: Seq<u8>)
    requires
        exists|i: int|
            0 <= i && i + 4 <= mime.len() && (#[trigger] mime.subrange(i, i + 4) == "text"@ || mime.subrange(i, i + 4)
                == "UTF8"@),
    ensures
        details(id, mime, payload).len() == 7,
        details(id, mime, payload)[5] == utf8_lossy(payload),
        details(id, mime, payload)[6] == details_rule(),
{
    reveal_strlit("text");
    reveal_strlit("UTF8");
    let i = choose|i: int|
        0 <= i && i + 4 <= mime.len() && (#[trigger] mime.subrange(i, i + 4) == "text"@ || mime.subrange(i, i + 4)
            == "UTF8"@);
    if mime.subrange(i, i + 4) == "text"@ {
        assert(occurs_at(mime, "text"@, i));
    } else {
        assert(occurs_at(mime, "UTF8"@, i));
    }
}

/// Law: a record whose MIME names neither `text` nor `UTF8` has no content
/// line: the notice that binary content is suppressed and the `--raw` hint
/// stand in its place.
pub proof fn law_binary_records_hide_their_content(id: i64, mime: Seq<char>, payload: Seq<u8>)
    requires
        forall|i: int|
            0 <= i && i + 4 <= mime.len() ==> #[trigger] mime.subrange(i, i + 4) != "text"@ && mime.subrange(i, i + 4)
                != "UTF8"@,
    ensures
        details(id, mime, payload).len() == 8,
        details(id, mime, payload)[5] == "[binary payload: terminal display suppressed]"@,
        details(id, mime, payload)[6] == "hint: utilize '--raw' to pipe data to a file."@,
{
    reveal_strlit("text");
    reveal_strlit("UTF8");
}

} // verus!
