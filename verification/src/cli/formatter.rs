//! Display formatting for listings: relative times, fixed-width previews
//! (display width counted with `unicode-width`), and type labels.

use vstd::prelude::*;
use crate::base::constants::{
    ELLIPSIS, LABEL_DATA, LABEL_FILE, LABEL_IMAGE, LABEL_TEXT, MIME_URI_LIST, PREVIEW_WIDTH, TIME_UNIT_HOUR,
    TIME_UNIT_MIN, TIME_UNIT_SEC,
};
use crate::num::{dec, push_u64};
use crate::text::{chars_of, contains_seq, starts_with, str_contains, str_eq, str_starts_with};

verus! {

// ---------------------------------------------------------------------------
// Relative time.

/// Trusted: milliseconds since the Unix epoch, from `SystemTime::now()`
/// (0 if the clock reads before the epoch). Nothing is promised of the value.
#[verifier::external_body]
fn now_millis() -> u64 {
    std::time::SystemTime::now().duration_since(std::time::UNIX_EPOCH).unwrap_or_default().as_millis() as u64
}

/// Whole seconds from `timestamp_ms` to `now_ms` (0 if in the future), as
/// `Ns ago` under a minute, `Nm ago` under an hour, else `Nh ago`.
pub open spec fn elapsed_text(now_ms: u64, timestamp_ms: u64) -> Seq<char> {
    let diff: nat = if now_ms >= timestamp_ms {
        ((now_ms - timestamp_ms) / 1000) as nat
    } else {
        0
    };
    if diff < 60 {
        dec(diff) + TIME_UNIT_SEC@
    } else if diff < 3600 {
        dec(diff / 60) + TIME_UNIT_MIN@
    } else {
        dec(diff / 3600) + TIME_UNIT_HOUR@
    }
}

/// The age of `timestamp_ms` at time `now_ms`, as a listing shows it.
pub fn format_elapsed(now_ms: u64, timestamp_ms: u64) -> (r: String)
    ensures
        r@ == elapsed_text(now_ms, timestamp_ms),
{
    let diff_sec = now_ms.saturating_sub(timestamp_ms) / 1000;
    let mut s = String::new();
    if diff_sec < 60 {
        push_u64(&mut s, diff_sec);
        s.append(TIME_UNIT_SEC);
    } else if diff_sec < 3600 {
        push_u64(&mut s, diff_sec / 60);
        s.append(TIME_UNIT_MIN);
    } else {
        push_u64(&mut s, diff_sec / 3600);
        s.append(TIME_UNIT_HOUR);
    }
    assert(Seq::<char>::empty() + dec(diff_sec as nat) == dec(diff_sec as nat));
    assert(Seq::<char>::empty() + dec((diff_sec / 60) as nat) == dec((diff_sec / 60) as nat));
    assert(Seq::<char>::empty() + dec((diff_sec / 3600) as nat) == dec((diff_sec / 3600) as nat));
    s
}

/// The age of `timestamp_ms` now, read from the system clock.
pub fn format_time(timestamp_ms: u64) -> (r: String)
    ensures
        exists|now: u64| r@ == elapsed_text(now, timestamp_ms),
{
    let now = now_millis();
    format_elapsed(now, timestamp_ms)
}

// ---------------------------------------------------------------------------
// Fixed-width previews.

/// The display width `unicode-width` gives a character (`None` for a
/// control character).
pub uninterp spec fn char_width_of(c: char) -> Option<usize>;

/// Trusted: `UnicodeWidthChar::width`. Its source gives width 1 to
/// U+0020..U+007E and `None` to the control ranges below U+0020 and
/// U+007F..U+009F; other widths come from its Unicode tables.
#[verifier::external_body]
fn char_width(c: char) -> (r: Option<usize>)
    ensures
        r == char_width_of(c),
        (' ' <= c && c <= '~') ==> r == Some(1usize),
        (c < ' ' || ('\x7f' <= c && c < '\u{a0}')) ==> r is None,
{
    unicode_width::UnicodeWidthChar::width(c)
}

/// Trusted: `UnicodeWidthStr::width`. Only this is claimed: a string made
/// of printable ASCII (U+0020..U+007E) is as wide as it is long, one column
/// per character, which its source computes character by character.
#[verifier::external_body]
fn str_width(s: &str) -> (r: usize)
    ensures
        (forall|i: int| 0 <= i < s@.len() ==> ' ' <= #[trigger] s@[i] && s@[i] <= '~') ==> r == s@.len(),
{
    unicode_width::UnicodeWidthStr::width(s)
}

/// Newlines, carriage returns and tabs show as spaces.
pub open spec fn flatten_char(c: char) -> char {
    if c == '\n' || c == '\r' || c == '\t' {
        ' '
    } else {
        c
    }
}

/// The columns a character takes in a preview: one for printable ASCII,
/// else its `unicode-width` width, control characters none.
pub open spec fn shown_width(c: char) -> nat {
    if ' ' <= c && c <= '~' {
        1
    } else {
        match char_width_of(c) {
            Some(w) => w as nat,
            None => 0,
        }
    }
}

/// Columns taken by a whole text.
pub open spec fn display_width(s: Seq<char>) -> nat
    decreases s.len(),
{
    if s.len() == 0 {
        0
    } else {
        display_width(s.drop_last()) + shown_width(s.last())
    }
}

pub proof fn lemma_display_width_concat(a: Seq<char>, b: Seq<char>)
    ensures
        display_width(a + b) == display_width(a) + display_width(b),
    decreases b.len(),
{
    if b.len() == 0 {
        assert(a + b =~= a);
    } else {
        lemma_display_width_concat(a, b.drop_last());
        assert((a + b).drop_last() =~= a + b.drop_last());
    }
}

proof fn lemma_spaces_width(n: nat)
    ensures
        display_width(Seq::new(n, |i: int| ' ')) == n,
    decreases n,
{
    if n > 0 {
        lemma_spaces_width((n - 1) as nat);
        assert(Seq::new(n, |i: int| ' ').drop_last() =~= Seq::new((n - 1) as nat, |i: int| ' '));
    }
}

proof fn lemma_preview_scan_width(t: Seq<char>, i: int, width: nat, acc: Seq<char>)
    requires
        display_width(acc) == width,
        width <= PREVIEW_WIDTH - 3,
    ensures
        display_width(preview_scan(t, i, width, acc).0) == preview_scan(t, i, width, acc).1,
        preview_scan(t, i, width, acc).1 <= PREVIEW_WIDTH,
    decreases t.len() - i,
{
    if 0 <= i < t.len() {
        let c = flatten_char(t[i]);
        if width + shown_width(c) > PREVIEW_WIDTH - 3 {
            reveal_strlit("...");
            lemma_display_width_concat(acc, ELLIPSIS@);
            let e1: Seq<char> = seq!['.'];
            let e2: Seq<char> = seq!['.', '.'];
            assert(ELLIPSIS@ =~= seq!['.', '.', '.']);
            assert(e1.drop_last() =~= Seq::<char>::empty());
            assert(display_width(Seq::<char>::empty()) == 0);
            assert(shown_width('.') == 1);
            assert(e1.last() == '.');
            assert(display_width(e1) == 1);
            assert(e2.drop_last() =~= e1);
            assert(display_width(e2) == 2);
            assert(ELLIPSIS@.drop_last() =~= e2);
            assert(display_width(ELLIPSIS@) == 3);
        } else {
            assert(acc.push(c).drop_last() =~= acc);
            lemma_preview_scan_width(t, i + 1, width + shown_width(c), acc.push(c));
        }
    }
}

/// A preview always fills its column exactly: `PREVIEW_WIDTH` columns,
/// whatever the text, so the listing's columns stay aligned.
pub proof fn law_preview_fills_the_column(t: Seq<char>)
    ensures
        display_width(preview_text(t)) == PREVIEW_WIDTH,
{
    lemma_preview_scan_width(t, 0, 0, Seq::empty());
    let (s, w) = preview_scan(t, 0, 0, Seq::empty());
    if w < PREVIEW_WIDTH {
        lemma_display_width_concat(s, Seq::new((PREVIEW_WIDTH - w) as nat, |i: int| ' '));
        lemma_spaces_width((PREVIEW_WIDTH - w) as nat);
    }
}

/// Copies flattened characters of `t` from position `i` while they fit in
/// `PREVIEW_WIDTH - 3` columns (3: the ellipsis); at the first that does
/// not fit, the ellipsis ends the text. Returns the text and its width.
pub open spec fn preview_scan(t: Seq<char>, i: int, width: nat, acc: Seq<char>) -> (Seq<char>, nat)
    decreases t.len() - i,
{
    if i < 0 || i >= t.len() {
        (acc, width)
    } else {
        let c = flatten_char(t[i]);
        if width + shown_width(c) > PREVIEW_WIDTH - 3 {
            (acc + ELLIPSIS@, width + 3)
        } else {
            preview_scan(t, i + 1, width + shown_width(c), acc.push(c))
        }
    }
}

/// The preview column of a listing: the text cut to fit, padded with spaces
/// to `PREVIEW_WIDTH` columns.
pub open spec fn preview_text(t: Seq<char>) -> Seq<char> {
    let (s, w) = preview_scan(t, 0, 0, Seq::empty());
    if w < PREVIEW_WIDTH {
        s + Seq::new((PREVIEW_WIDTH - w) as nat, |i: int| ' ')
    } else {
        s
    }
}

/// Formats `text` for the preview column.
pub fn preview_content(text: &str) -> (r: String)
    ensures
        r@ == preview_text(text@),
{
    proof {
        reveal_strlit("...");
    }
    let ellipsis_width = str_width(ELLIPSIS);
    assert(ellipsis_width == 3);
    let v = chars_of(text);
    let mut result = String::new();
    let mut current_width: usize = 0;
    let mut i: usize = 0;
    let ghost mut final_pair: (Seq<char>, nat) = preview_scan(v@, 0, 0, Seq::empty());
    while i < v.len()
        invariant_except_break
            current_width <= PREVIEW_WIDTH - 3,
            preview_scan(v@, i as int, current_width as nat, result@) == final_pair,
        invariant
            i <= v@.len(),
            v@ == text@,
            ellipsis_width == 3,
            final_pair == preview_scan(v@, 0, 0, Seq::empty()),
        ensures
            final_pair == (result@, current_width as nat),
            current_width <= PREVIEW_WIDTH,
        decreases v@.len() - i,
    {
        let c0 = v[i];
        let c = if c0 == '\n' || c0 == '\r' || c0 == '\t' {
            ' '
        } else {
            c0
        };
        let w: usize = match char_width(c) {
            Some(w) => w,
            None => 0,
        };
        assert(w == shown_width(c));
        if w > PREVIEW_WIDTH - ellipsis_width - current_width {
            proof {
                reveal_strlit("...");
            }
            assert(ELLIPSIS@.len() == 3);
            result.append(ELLIPSIS);
            current_width = current_width + ellipsis_width;
            break;
        }
        result.push(c);
        current_width = current_width + w;
        i = i + 1;
    }
    if current_width < PREVIEW_WIDTH {
        let pad = PREVIEW_WIDTH - current_width;
        let ghost base = result@;
        let mut k: usize = 0;
        while k < pad
            invariant
                k <= pad,
                result@ == base + Seq::new(k as nat, |j: int| ' '),
            decreases pad - k,
        {
            result.push(' ');
            k = k + 1;
            assert(result@ =~= base + Seq::new(k as nat, |j: int| ' '));
        }
    }
    result
}

// ---------------------------------------------------------------------------
// Type labels.

/// Rich markup whose MIME does not name `text`.
pub open spec fn rich_markup_alt(m: Seq<char>) -> bool {
    m == "application/xhtml+xml"@ || m == "application/json"@ || m == "application/xml"@
}

/// The label a listing shows for a record's MIME.
pub open spec fn label_of(mime: Seq<char>) -> Seq<char> {
    if mime == MIME_URI_LIST@ {
        LABEL_FILE@
    } else if starts_with(mime, "image/"@) {
        LABEL_IMAGE@
    } else if contains_seq(mime, "text"@) || contains_seq(mime, "UTF8"@) || rich_markup_alt(mime) {
        LABEL_TEXT@
    } else {
        LABEL_DATA@
    }
}

pub fn get_label(mime: &str) -> (r: &'static str)
    ensures
        r@ == label_of(mime@),
{
    if str_eq(mime, MIME_URI_LIST) {
        LABEL_FILE
    } else if str_starts_with(mime, "image/") {
        LABEL_IMAGE
    } else if str_contains(mime, "text") || str_contains(mime, "UTF8") || str_eq(mime, "application/xhtml+xml")
        || str_eq(mime, "application/json") || str_eq(mime, "application/xml") {
        LABEL_TEXT
    } else {
        LABEL_DATA
    }
}

} // verus!
