//! The `list` command's rules: which history positions a selection shows,
//! and the text of each line of the listing.

use vstd::prelude::*;
use crate::base::constants::{
    LIST_HEADER_CONTENT, LIST_HEADER_ID, LIST_HEADER_SIZE, LIST_HEADER_WHEN, LOG_INFO, PREVIEW_WIDTH, TABLE_SEP,
    WIDTH_ID, WIDTH_SIZE, WIDTH_WHEN,
};
use crate::cli::formatter::{elapsed_text, format_elapsed, get_label, label_of, preview_content, preview_text};
use crate::cli::utils::RangeSelection;
use crate::storage::policy::MetaRow;
use crate::num::{dec, dec_int, push_i64, push_u64};
use crate::text::{chars_of, split_bounds, split_on, starts_with, str_starts_with, string_of_range};

verus! {

// ---------------------------------------------------------------------------
// Selection.

/// The history positions (newest first, `len` entries) a listing shows:
/// all of them with `--full`; else the one index, the clamped inclusive
/// range, or the first `limit`.
pub open spec fn selected(full: bool, sel: RangeSelection, len: nat) -> Seq<nat> {
    if full {
        Seq::new(len, |i: int| i as nat)
    } else {
        match sel {
            RangeSelection::Single(n) => if n < len {
                seq![n as nat]
            } else {
                Seq::empty()
            },
            RangeSelection::Range(start, end) => if len == 0 {
                Seq::empty()
            } else {
                let s = if start < len - 1 { start as int } else { len - 1 };
                let e = if end < len - 1 { end as int } else { len - 1 };
                if s <= e {
                    Seq::new((e - s + 1) as nat, |i: int| (s + i) as nat)
                } else {
                    Seq::empty()
                }
            },
            RangeSelection::Latest(limit) => {
                let n = if limit < len { limit as nat } else { len };
                Seq::new(n, |i: int| i as nat)
            },
        }
    }
}

/// Law: a range `a-b` that lies inside the history shows exactly the
/// positions `a, a+1, ..., b`, both ends included.
pub proof fn law_range_selection_is_inclusive(a: usize, b: usize, len: nat)
    requires
        a <= b < len,
    ensures
        selected(false, RangeSelection::Range(a, b), len).len() == b - a + 1,
        forall|k: int| 0 <= k <= b - a ==> selected(false, RangeSelection::Range(a, b), len)[k] == a + k,
        selected(false, RangeSelection::Range(a, b), len)[0] == a,
        selected(false, RangeSelection::Range(a, b), len)[b - a] == b,
{
}

/// Law: a range whose end lies past the history is cut at the last
/// position: `a-b` with `a < len <= b` shows `a, ..., len - 1`; one that
/// lies wholly past it shows the last position alone; one whose start is
/// above its end, inside the history, shows nothing.
pub proof fn law_range_selection_clamps_its_end(a: usize, b: usize, len: nat)
    ensures
        a < len <= b ==> selected(false, RangeSelection::Range(a, b), len).len() == len - a,
        a < len <= b ==> forall|k: int|
            0 <= k < len - a ==> selected(false, RangeSelection::Range(a, b), len)[k] == a + k,
        len > 0 && a >= len && b >= len ==> selected(false, RangeSelection::Range(a, b), len) == seq![
            (len - 1) as nat,
        ],
        b < a && b + 1 < len ==> selected(false, RangeSelection::Range(a, b), len).len() == 0,
{
    if len > 0 && a >= len && b >= len {
        assert(selected(false, RangeSelection::Range(a, b), len) =~= seq![(len - 1) as nat]);
    }
}

/// Law: a single position inside the history shows just that record; the
/// default selection of `n` (no range given) shows the `n` newest (all,
/// when fewer are stored);
/// `--full` shows every position in order, whatever the selection.
pub proof fn law_single_and_full_selections(n: usize, sel: RangeSelection, len: nat)
    ensures
        selected(false, RangeSelection::Latest(n), len).len() == (if n < len { n as nat } else { len }),
        forall|k: int|
            0 <= k < selected(false, RangeSelection::Latest(n), len).len() ==> selected(
                false,
                RangeSelection::Latest(n),
                len,
            )[k] == k,
        n < len ==> selected(false, RangeSelection::Single(n), len) == seq![n as nat],
        n >= len ==> selected(false, RangeSelection::Single(n), len).len() == 0,
        selected(true, sel, len).len() == len,
        forall|k: int| 0 <= k < len ==> selected(true, sel, len)[k] == k,
{
}

fn push_run(out: &mut Vec<usize>, from: usize, count: usize)
    requires
        from + count <= usize::MAX,
    ensures
        final(out)@ == old(out)@ + Seq::new(count as nat, |i: int| (from + i) as usize),
{
    let ghost base = out@;
    let mut k: usize = 0;
    while k < count
        invariant
            k <= count,
            from + count <= usize::MAX,
            out@ == base + Seq::new(k as nat, |i: int| (from + i) as usize),
        decreases count - k,
    {
        out.push(from + k);
        k = k + 1;
        assert(out@ =~= base + Seq::new(k as nat, |i: int| (from + i) as usize));
    }
}

/// The positions to show, in increasing order; every one is below `len`.
pub fn select_entries(full: bool, selection: &RangeSelection, len: usize) -> (r: Vec<usize>)
    ensures
        r@.len() == selected(full, *selection, len as nat).len(),
        forall|i: int| 0 <= i < r@.len() ==> r@[i] as nat == #[trigger] selected(full, *selection, len as nat)[i],
        forall|i: int| 0 <= i < r@.len() ==> #[trigger] r@[i] < len,
        forall|i: int, j: int| 0 <= i < j < r@.len() ==> r@[i] < r@[j],
{
    let mut out: Vec<usize> = Vec::new();
    if full {
        push_run(&mut out, 0, len);
        return out;
    }
    match selection {
        RangeSelection::Single(n) => {
            if *n < len {
                out.push(*n);
            }
        },
        RangeSelection::Range(start, end) => {
            if len > 0 {
                let s = if *start < len - 1 {
                    *start
                } else {
                    len - 1
                };
                let e = if *end < len - 1 {
                    *end
                } else {
                    len - 1
                };
                if s <= e {
                    push_run(&mut out, s, e - s + 1);
                }
            }
        },
        RangeSelection::Latest(limit) => {
            let n = if *limit < len {
                *limit
            } else {
                len
            };
            push_run(&mut out, 0, n);
        },
    }
    out
}

// ---------------------------------------------------------------------------
// Lines of a listing.

/// `s` right-aligned in `w` columns (`{:>w}`): spaces in front when it is
/// shorter.
pub open spec fn pad_left(s: Seq<char>, w: nat) -> Seq<char> {
    if s.len() < w {
        Seq::new((w - s.len()) as nat, |i: int| ' ') + s
    } else {
        s
    }
}

pub fn push_padded(out: &mut String, s: &str, w: usize)
    ensures
        final(out)@ == old(out)@ + pad_left(s@, w as nat),
{
    let n = chars_of(s).len();
    let ghost base = out@;
    if n < w {
        let mut k: usize = 0;
        while k < w - n
            invariant
                n < w,
                k <= w - n,
                out@ == base + Seq::new(k as nat, |i: int| ' '),
            decreases w - n - k,
        {
            out.push(' ');
            k = k + 1;
            assert(out@ =~= base + Seq::new(k as nat, |i: int| ' '));
        }
    }
    out.append(s);
    assert(out@ =~= base + pad_left(s@, w as nat));
}

/// Marker in front of a table row's label: `*` for a pinned record.
pub open spec fn pin_mark(pinned: bool) -> Seq<char> {
    if pinned { "*"@ } else { " "@ }
}

pub fn pin_marker(pinned: bool) -> (r: &'static str)
    ensures
        r@ == pin_mark(pinned),
{
    if pinned { "*" } else { " " }
}

/// The text a row previews: for an image, `[<subtype>] - <size> bytes`
/// (the subtype being what follows the first `/`); otherwise the stored
/// preview, or nothing.
pub open spec fn row_preview(mime: Seq<char>, size: int, preview: Option<Seq<char>>) -> Seq<char> {
    if starts_with(mime, "image/"@) {
        let parts = split_on(mime, '/');
        let sub = if parts.len() > 1 { parts[1] } else { Seq::empty() };
        "["@ + sub + "] - "@ + dec_int(size) + " bytes"@
    } else {
        match preview {
            Some(p) => p,
            None => Seq::empty(),
        }
    }
}

pub open spec fn opt_string_view(o: Option<String>) -> Option<Seq<char>> {
    match o {
        Some(s) => Some(s@),
        None => None,
    }
}

pub fn raw_preview(mime: &str, size: i64, preview: &Option<String>) -> (r: String)
    ensures
        r@ == row_preview(mime@, size as int, opt_string_view(*preview)),
{
    if str_starts_with(mime, "image/") {
        let v = chars_of(mime);
        let parts = split_bounds(&v, 0, v.len(), '/');
        proof {
            assert(v@.subrange(0, v@.len() as int) =~= v@);
        }
        let mut s = String::from_str("[");
        if parts.len() > 1 {
            let (a, b) = parts[1];
            s.append(string_of_range(&v, a, b).as_str());
        }
        s.append("] - ");
        push_i64(&mut s, size);
        s.append(" bytes");
        s
    } else {
        match preview {
            Some(p) => p.clone(),
            None => String::new(),
        }
    }
}

/// A `--raw` row: `<id> <label> <preview>`, the bare id first, so that
/// scripts read it as the first whitespace-separated field.
pub open spec fn raw_row(id: Seq<char>, label: Seq<char>, preview: Seq<char>) -> Seq<char> {
    id + " "@ + label + " "@ + preview
}

/// A table row: id, age, size and `<mark><label> <preview>`, separated by
/// the column separator.
pub open spec fn table_row(
    id: Seq<char>,
    when: Seq<char>,
    size: int,
    pinned: bool,
    label: Seq<char>,
    preview: Seq<char>,
) -> Seq<char> {
    "["@ + pad_left(id, (WIDTH_ID - 2) as nat) + "]"@ + TABLE_SEP@ + pad_left(when, WIDTH_WHEN as nat) + TABLE_SEP@
        + pad_left(dec_int(size), (WIDTH_SIZE - 2) as nat) + " B"@ + TABLE_SEP@ + pin_mark(pinned) + label + " "@
        + preview
}

pub fn render_raw_row(id: &str, label: &str, preview: &str) -> (r: String)
    ensures
        r@ == raw_row(id@, label@, preview@),
{
    let mut s = String::from_str(id);
    s.append(" ");
    s.append(label);
    s.append(" ");
    s.append(preview);
    s
}

pub fn render_table_row(id: &str, when: &str, size: i64, pinned: bool, label: &str, preview: &str) -> (r: String)
    ensures
        r@ == table_row(id@, when@, size as int, pinned, label@, preview@),
{
    let mut s = String::from_str("[");
    push_padded(&mut s, id, WIDTH_ID - 2);
    s.append("]");
    s.append(TABLE_SEP);
    push_padded(&mut s, when, WIDTH_WHEN);
    s.append(TABLE_SEP);
    let mut size_text = String::new();
    push_i64(&mut size_text, size);
    assert(size_text@ =~= dec_int(size as int));
    push_padded(&mut s, size_text.as_str(), WIDTH_SIZE - 2);
    s.append(" B");
    s.append(TABLE_SEP);
    s.append(pin_marker(pinned));
    s.append(label);
    s.append(" ");
    s.append(preview);
    s
}

/// Width of a table listing's rules: the four columns, the label column
/// (label plus its pin mark) and three separators.
pub open spec fn table_width() -> nat {
    (WIDTH_ID + WIDTH_WHEN + WIDTH_SIZE + PREVIEW_WIDTH + 7 + 3 * TABLE_SEP@.len()) as nat
}

pub fn table_rule() -> (r: String)
    ensures
        r@ == Seq::new(table_width(), |i: int| '-'),
{
    proof {
        reveal_strlit(" | ");
    }
    let n: usize = WIDTH_ID + WIDTH_WHEN + WIDTH_SIZE + PREVIEW_WIDTH + 7 + 9;
    assert(n == table_width());
    let mut s = String::new();
    let mut k: usize = 0;
    while k < n
        invariant
            k <= n,
            s@ == Seq::new(k as nat, |i: int| '-'),
        decreases n - k,
    {
        s.push('-');
        k = k + 1;
        assert(s@ =~= Seq::new(k as nat, |i: int| '-'));
    }
    s
}

/// The column headings of a table listing.
pub open spec fn table_header() -> Seq<char> {
    pad_left(LIST_HEADER_ID@, WIDTH_ID as nat) + TABLE_SEP@ + pad_left(LIST_HEADER_WHEN@, WIDTH_WHEN as nat)
        + TABLE_SEP@ + pad_left(LIST_HEADER_SIZE@, WIDTH_SIZE as nat) + TABLE_SEP@ + LIST_HEADER_CONTENT@
}

pub fn render_table_header() -> (r: String)
    ensures
        r@ == table_header(),
{
    let mut s = String::new();
    push_padded(&mut s, LIST_HEADER_ID, WIDTH_ID);
    s.append(TABLE_SEP);
    push_padded(&mut s, LIST_HEADER_WHEN, WIDTH_WHEN);
    s.append(TABLE_SEP);
    push_padded(&mut s, LIST_HEADER_SIZE, WIDTH_SIZE);
    s.append(TABLE_SEP);
    s.append(LIST_HEADER_CONTENT);
    assert(s@ =~= table_header());
    s
}

/// The closing line of a table listing.
pub open spec fn summary_line(shown: nat, total: nat, max_history: nat) -> Seq<char> {
    LOG_INFO@ + "shown "@ + dec(shown) + " items | history: "@ + dec(total) + " / "@ + dec(max_history)
        + " entries"@
}

/// `info: shown <n> items | history: <total> / <max> entries`.
pub fn render_summary(shown: usize, total: usize, max_history: usize) -> (r: String)
    ensures
        r@ == summary_line(shown as nat, total as nat, max_history as nat),
{
    let mut s = String::from_str(LOG_INFO);
    s.append("shown ");
    push_u64(&mut s, shown as u64);
    s.append(" items | history: ");
    push_u64(&mut s, total as u64);
    s.append(" / ");
    push_u64(&mut s, max_history as u64);
    s.append(" entries");
    s
}

// ---------------------------------------------------------------------------
// Whole listings.

/// The id a listing shows for the record at history position `pos`: its
/// stable id with `--id`, else the position itself.
pub open spec fn listing_id(pos: usize, row: MetaRow, use_id: bool) -> Seq<char> {
    if use_id {
        dec_int(row.0 as int)
    } else {
        dec(pos as nat)
    }
}

/// The line a listing shows for the record `row` at history position `pos`
/// (a raw row, or a table row whose age is taken at `now_ms`).
pub open spec fn listing_row(pos: usize, row: MetaRow, is_raw: bool, use_id: bool, now_ms: u64) -> Seq<char> {
    let id = listing_id(pos, row, use_id);
    let label = label_of(row.2@);
    let preview = preview_text(row_preview(row.2@, row.3 as int, opt_string_view(row.4)));
    if is_raw {
        raw_row(id, label, preview)
    } else {
        table_row(id, elapsed_text(now_ms, row.1 as u64), row.3 as int, row.5, label, preview)
    }
}

/// The title line above a table listing.
pub open spec fn title_line(title: Seq<char>) -> Seq<char> {
    "\n--- "@ + title + " ---"@
}

pub open spec fn rule_line() -> Seq<char> {
    Seq::new(table_width(), |i: int| '-')
}

/// The lines of a listing of `items` (each a history position and its
/// record), in their order: with `--raw` one raw row each and nothing else;
/// otherwise the title, the column headings and a rule, one table row each,
/// a rule and the summary.
pub open spec fn listing(
    title: Seq<char>,
    items: Seq<(usize, MetaRow)>,
    total_stored: usize,
    is_raw: bool,
    use_id: bool,
    max_history: usize,
    now_ms: u64,
) -> Seq<Seq<char>> {
    let rows = Seq::new(items.len(), |k: int| listing_row(items[k].0, items[k].1, is_raw, use_id, now_ms));
    if is_raw {
        rows
    } else {
        seq![title_line(title), table_header(), rule_line()] + rows + seq![
            rule_line(),
            summary_line(items.len(), total_stored as nat, max_history as nat),
        ]
    }
}

pub fn render_listing_row(pos: usize, row: &MetaRow, is_raw: bool, use_id: bool, now_ms: u64) -> (r: String)
    ensures
        r@ == listing_row(pos, *row, is_raw, use_id, now_ms),
{
    let mut id_text = String::new();
    if use_id {
        push_i64(&mut id_text, row.0);
    } else {
        push_u64(&mut id_text, pos as u64);
    }
    assert(id_text@ =~= listing_id(pos, *row, use_id));
    let label = get_label(row.2.as_str());
    let shown = raw_preview(row.2.as_str(), row.3, &row.4);
    let preview = preview_content(shown.as_str());
    if is_raw {
        render_raw_row(id_text.as_str(), label, preview.as_str())
    } else {
        let when = format_elapsed(now_ms, row.1 as u64);
        render_table_row(id_text.as_str(), when.as_str(), row.3, row.5, label, preview.as_str())
    }
}

/// The lines that print a listing of `items`, ages taken at `now_ms`.
pub fn listing_lines(
    title: &str,
    items: &[(usize, MetaRow)],
    total_stored: usize,
    is_raw: bool,
    use_id: bool,
    max_history: usize,
    now_ms: u64,
) -> (r: Vec<String>)
    ensures
        r@.len() == listing(title@, items@, total_stored, is_raw, use_id, max_history, now_ms).len(),
        forall|k: int|
            0 <= k < r@.len() ==> r@[k]@ == listing(title@, items@, total_stored, is_raw, use_id, max_history, now_ms)[k],
{
    let ghost want = listing(title@, items@, total_stored, is_raw, use_id, max_history, now_ms);
    let ghost rows = Seq::new(
        items@.len(),
        |k: int| listing_row(items@[k].0, items@[k].1, is_raw, use_id, now_ms),
    );
    let ghost head: nat = if is_raw { 0 } else { 3 };
    let mut out: Vec<String> = Vec::new();
    if !is_raw {
        let mut t = String::from_str("\n--- ");
        t.append(title);
        t.append(" ---");
        out.push(t);
        out.push(render_table_header());
        out.push(table_rule());
    }
    let mut k: usize = 0;
    while k < items.len()
        invariant
            k <= items@.len(),
            out@.len() == head + k,
            forall|j: int| 0 <= j < head ==> out@[j]@ == want[j],
            forall|j: int| 0 <= j < k ==> out@[head + j]@ == rows[j],
            want == listing(title@, items@, total_stored, is_raw, use_id, max_history, now_ms),
            rows == Seq::new(
                items@.len(),
                |k: int| listing_row(items@[k].0, items@[k].1, is_raw, use_id, now_ms),
            ),
            head == (if is_raw { 0nat } else { 3nat }),
        decreases items@.len() - k,
    {
        let line = render_listing_row(items[k].0, &items[k].1, is_raw, use_id, now_ms);
        out.push(line);
        k = k + 1;
    }
    if !is_raw {
        out.push(table_rule());
        out.push(render_summary(items.len(), total_stored, max_history));
    }
    out
}

} // verus!
