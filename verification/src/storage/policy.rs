//! Storage rules of the history: which payloads are recorded at all, how a
//! new record is shaped (preview text, inline or cached bytes), where an
//! existing record's bytes live, and which records the retention cap
//! evicts.
//!
//! Pinned records are outside the retention cap altogether: they are never
//! evicted, and they do not use up any of the cap's slots.

use vstd::prelude::*;
use crate::base::config::{path_push, push_path};
use crate::base::constants::{PREVIEW_CHARS, SENSITIVE_MIME_HINTS};
use crate::text::{chars_of, contains_seq, is_utf8, lossy_string, starts_with, str_contains, str_starts_with, utf8_lossy};

verus! {

/// One history row as listings show it: id, timestamp (ms), MIME, size,
/// preview, pinned.
pub type MetaRow = (i64, i64, String, i64, Option<String>, bool);

/// Result of recording a payload: `real_id == -1` means it was skipped
/// (empty or sensitive) and nothing else happened.
pub struct UpsertOutcome {
    pub real_id: i64,
    pub is_image: bool,
    pub expired_hashes: Vec<String>,
}

impl UpsertOutcome {
    /// The outcome of a skipped payload.
    pub fn skipped() -> (r: Self)
        ensures
            r.real_id == -1,
            !r.is_image,
            r.expired_hashes@.len() == 0,
    {
        UpsertOutcome { real_id: -1, is_image: false, expired_hashes: Vec::new() }
    }
}

/// Where a record's bytes live: inline in its row, or in the cache file
/// named after its fingerprint.
pub enum ContentLocation {
    InlineBlob(i64),
    CacheFile(String),
}

/// The on-disk cache of large payloads: one file per fingerprint,
/// `<dir>/<hash>.cache`.
pub struct FileCache {
    cache_dir: String,
}

impl FileCache {
    /// The cache directory.
    pub closed spec fn dir(&self) -> Seq<char> {
        self.cache_dir@
    }

    pub fn new(cache_dir: String) -> (r: Self)
        ensures
            r.dir() == cache_dir@,
    {
        FileCache { cache_dir }
    }

    /// The cache file of the payload with fingerprint `hash`.
    pub fn path(&self, hash: &str) -> (r: String)
        ensures
            r@ == path_push(self.dir(), hash@ + ".cache"@),
    {
        let mut name = String::from_str(hash);
        name.append(".cache");
        let mut p = self.cache_dir.clone();
        push_path(&mut p, name.as_str());
        p
    }

    /// Where a stored record's bytes are: inline in its row when the row
    /// holds content, else in this cache under its fingerprint.
    pub fn locate(&self, id: i64, has_inline_content: bool, hash: &str) -> (r: ContentLocation)
        ensures
            has_inline_content ==> r == ContentLocation::InlineBlob(id),
            !has_inline_content ==> (r matches ContentLocation::CacheFile(p) && p@ == path_push(
                self.dir(),
                hash@ + ".cache"@,
            )),
    {
        if has_inline_content {
            ContentLocation::InlineBlob(id)
        } else {
            ContentLocation::CacheFile(self.path(hash))
        }
    }
}

// ---------------------------------------------------------------------------
// What is recorded.

pub open spec fn sensitive_hint(m: Seq<char>) -> bool {
    exists|i: int| 0 <= i < 4 && contains_seq(m, #[trigger] SENSITIVE_MIME_HINTS@[i]@)
}

/// A payload is skipped when it is empty or its MIME carries a sensitive
/// hint (case-sensitive).
pub open spec fn skipped_payload(mime: Seq<char>, len: nat) -> bool {
    len == 0 || sensitive_hint(mime)
}

/// Image payloads live in the cache directory, not inline in the database.
pub open spec fn image_mime(mime: Seq<char>) -> bool {
    starts_with(mime, "image/"@) || contains_seq(mime, "gif"@)
}

/// Text-like records (anything naming `text` or `uri-list`) carry a preview.
pub open spec fn previewed_mime(mime: Seq<char>) -> bool {
    contains_seq(mime, "text"@) || contains_seq(mime, "uri-list"@)
}

/// Content stored as SQLite `TEXT` (so search compares it without a cast)
/// when it is valid UTF-8: `text/*`, and anything naming `uri-list`,
/// `json` or `xhtml`.
pub open spec fn textual_mime(mime: Seq<char>) -> bool {
    starts_with(mime, "text/"@) || contains_seq(mime, "uri-list"@) || contains_seq(mime, "json"@) || contains_seq(
        mime,
        "xhtml"@,
    )
}

/// The preview: the first `PREVIEW_CHARS` characters, newlines as spaces.
pub open spec fn preview_of(text: Seq<char>) -> Seq<char> {
    let n = if text.len() < PREVIEW_CHARS {
        text.len() as int
    } else {
        PREVIEW_CHARS as int
    };
    Seq::new(n as nat, |i: int| if text[i] == '\n' { ' ' } else { text[i] })
}

/// Whether `mime` carries one of the sensitive hints.
pub fn has_sensitive_hint(mime: &str) -> (r: bool)
    ensures
        r == sensitive_hint(mime@),
{
    let mut i: usize = 0;
    while i < 4
        invariant
            i <= 4,
            forall|j: int| 0 <= j < i ==> !contains_seq(mime@, #[trigger] SENSITIVE_MIME_HINTS@[j]@),
        decreases 4 - i,
    {
        if str_contains(mime, SENSITIVE_MIME_HINTS[i]) {
            assert(contains_seq(mime@, SENSITIVE_MIME_HINTS@[i as int]@));
            return true;
        }
        i = i + 1;
    }
    false
}

pub fn is_image_mime(mime: &str) -> (r: bool)
    ensures
        r == image_mime(mime@),
{
    str_starts_with(mime, "image/") || str_contains(mime, "gif")
}

/// The preview text of a payload, decoded lossily as UTF-8.
pub fn make_preview(data: &[u8]) -> (r: String)
    ensures
        r@ == preview_of(utf8_lossy(data@)),
        vstd::utf8::valid_utf8(data@) ==> r@ == preview_of(vstd::utf8::decode_utf8(data@)),
{
    let text = lossy_string(data);
    let v = chars_of(text.as_str());
    let n = if v.len() < PREVIEW_CHARS {
        v.len()
    } else {
        PREVIEW_CHARS
    };
    let mut s = String::new();
    let mut i: usize = 0;
    while i < n
        invariant
            i <= n <= v@.len(),
            n == (if v@.len() < PREVIEW_CHARS { v@.len() as int } else { PREVIEW_CHARS as int }),
            v@ == utf8_lossy(data@),
            s@ == preview_of(v@).subrange(0, i as int),
        decreases n - i,
    {
        let c = if v[i] == '\n' {
            ' '
        } else {
            v[i]
        };
        s.push(c);
        i = i + 1;
        assert(s@ =~= preview_of(v@).subrange(0, i as int));
    }
    assert(s@ =~= preview_of(v@));
    s
}

/// How a new record is written: its preview (text-like MIMEs only),
/// whether the bytes go inline into the row (everything but images), and
/// whether inline bytes are stored as text.
pub struct RecordPlan {
    pub is_image: bool,
    pub preview: Option<String>,
    pub inline_content: bool,
    pub text_content: bool,
}

/// Decides whether and how a payload is recorded; `None` when it is
/// skipped (empty, or a sensitive MIME).
pub fn plan_record(mime: &str, data: &[u8]) -> (r: Option<RecordPlan>)
    ensures
        r is None <==> skipped_payload(mime@, data@.len()),
        r matches Some(p) ==> {
            &&& p.is_image == image_mime(mime@)
            &&& p.inline_content == !image_mime(mime@)
            &&& p.text_content == (!image_mime(mime@) && textual_mime(mime@) && vstd::utf8::valid_utf8(data@))
            &&& match p.preview {
                Some(t) => previewed_mime(mime@) && t@ == preview_of(utf8_lossy(data@)) && (vstd::utf8::valid_utf8(
                    data@,
                ) ==> t@ == preview_of(vstd::utf8::decode_utf8(data@))),
                None => !previewed_mime(mime@),
            }
        },
{
    if data.len() == 0 || has_sensitive_hint(mime) {
        return None;
    }
    let is_image = is_image_mime(mime);
    let preview = if str_contains(mime, "text") || str_contains(mime, "uri-list") {
        Some(make_preview(data))
    } else {
        None
    };
    let textual = str_starts_with(mime, "text/") || str_contains(mime, "uri-list") || str_contains(mime, "json")
        || str_contains(mime, "xhtml");
    let text_content = !is_image && textual && is_utf8(data);
    Some(RecordPlan { is_image, preview, inline_content: !is_image, text_content })
}

// ---------------------------------------------------------------------------
// Retention.

/// Number of unpinned entries in `pins` (one flag per record, newest first).
pub open spec fn unpinned_count(pins: Seq<bool>) -> nat
    decreases pins.len(),
{
    if pins.len() == 0 {
        0
    } else {
        unpinned_count(pins.drop_last()) + if pins.last() {
            0nat
        } else {
            1nat
        }
    }
}

/// The record at position `k` (newest first) is evicted under cap `n`: it is
/// unpinned and `n` or more newer unpinned records exist.
pub open spec fn is_evicted(pins: Seq<bool>, n: nat, k: int) -> bool {
    0 <= k < pins.len() && !pins[k] && unpinned_count(pins.take(k)) >= n
}

/// Unpinned records that survive a rotation under cap `n`.
pub open spec fn kept_unpinned(pins: Seq<bool>, n: nat) -> nat
    decreases pins.len(),
{
    if pins.len() == 0 {
        0
    } else {
        let k = pins.len() - 1;
        kept_unpinned(pins.drop_last(), n) + if !is_evicted(pins, n, k) && !pins[k] {
            1nat
        } else {
            0nat
        }
    }
}

/// Positions (newest first) of the records a rotation evicts under cap
/// `max_history`, in increasing order.
pub fn rotation_victims(pins: &[bool], max_history: usize) -> (r: Vec<usize>)
    ensures
        forall|i: int| 0 <= i < r@.len() ==> is_evicted(pins@, max_history as nat, #[trigger] r@[i] as int),
        forall|i: int, j: int| 0 <= i < j < r@.len() ==> r@[i] < r@[j],
        forall|k: int| is_evicted(pins@, max_history as nat, k) ==> r@.contains(k as usize),
{
    let mut out: Vec<usize> = Vec::new();
    let mut unpinned: usize = 0;
    let mut k: usize = 0;
    while k < pins.len()
        invariant
            k <= pins@.len(),
            unpinned as nat == unpinned_count(pins@.take(k as int)),
            forall|i: int| 0 <= i < out@.len() ==> is_evicted(pins@, max_history as nat, #[trigger] out@[i] as int),
            forall|i: int| 0 <= i < out@.len() ==> #[trigger] out@[i] < k,
            forall|i: int, j: int| 0 <= i < j < out@.len() ==> out@[i] < out@[j],
            forall|q: int| 0 <= q < k && is_evicted(pins@, max_history as nat, q) ==> out@.contains(q as usize),
        decreases pins@.len() - k,
    {
        proof {
            assert(pins@.take(k + 1).drop_last() =~= pins@.take(k as int));
            lemma_unpinned_count_bound(pins@.take(k as int));
        }
        let ghost old_out = out@;
        if !pins[k] {
            if unpinned >= max_history {
                out.push(k);
                assert(out@[out@.len() - 1] == k);
            }
            unpinned = unpinned + 1;
        }
        proof {
            assert forall|q: int| 0 <= q < k + 1 && is_evicted(pins@, max_history as nat, q) implies out@.contains(
                q as usize,
            ) by {
                if q < k {
                    assert(old_out.contains(q as usize));
                    let w = choose|w: int| 0 <= w < old_out.len() && old_out[w] == q as usize;
                    assert(out@[w] == q as usize);
                } else {
                    assert(out@[out@.len() - 1] == k);
                }
            }
        }
        k = k + 1;
    }
    out
}

pub proof fn lemma_unpinned_count_bound(pins: Seq<bool>)
    ensures
        unpinned_count(pins) <= pins.len(),
    decreases pins.len(),
{
    if pins.len() > 0 {
        lemma_unpinned_count_bound(pins.drop_last());
    }
}

/// Rotation never evicts a pinned record.
pub proof fn law_pinned_never_evicted(pins: Seq<bool>, n: nat, k: int)
    requires
        0 <= k < pins.len(),
        pins[k],
    ensures
        !is_evicted(pins, n, k),
{
}

/// After a rotation under cap `n`, exactly `min(unpinned, n)` unpinned
/// records remain: pinned records take up none of the cap's slots.
pub proof fn law_rotation_keeps_quota(pins: Seq<bool>, n: nat)
    ensures
        kept_unpinned(pins, n) == if unpinned_count(pins) < n {
            unpinned_count(pins)
        } else {
            n
        },
    decreases pins.len(),
{
    if pins.len() > 0 {
        let k = pins.len() - 1;
        assert(pins.take(k) =~= pins.drop_last());
        law_rotation_keeps_quota(pins.drop_last(), n);
    }
}

pub proof fn lemma_unpinned_count_monotone(pins: Seq<bool>, a: int, b: int)
    requires
        0 <= a <= b <= pins.len(),
    ensures
        unpinned_count(pins.take(a)) <= unpinned_count(pins.take(b)),
    decreases b - a,
{
    if a < b {
        assert(pins.take(b).drop_last() =~= pins.take(b - 1));
        lemma_unpinned_count_monotone(pins, a, b - 1);
    }
}

/// Rotation keeps the newest unpinned records: once an unpinned record is
/// evicted, so is every older unpinned record.
pub proof fn law_rotation_evicts_oldest(pins: Seq<bool>, n: nat, k: int, j: int)
    requires
        is_evicted(pins, n, k),
        k < j < pins.len(),
        !pins[j],
    ensures
        is_evicted(pins, n, j),
{
    lemma_unpinned_count_monotone(pins, k, j);
}

/// With a positive cap, the newest record (the one just recorded or
/// touched) is never evicted by the rotation that follows it.
pub proof fn law_newest_record_survives(pins: Seq<bool>, n: nat)
    requires
        n > 0,
        pins.len() > 0,
    ensures
        !is_evicted(pins, n, 0),
{
    assert(pins.take(0) =~= Seq::<bool>::empty());
}

} // verus!
