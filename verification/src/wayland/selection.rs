//! Ingesting a new selection: refusing sensitive offers, choosing which of
//! the offered formats to take, deciding whether to fetch a browser image's
//! original, and turning received bytes into a storage job.

use vstd::prelude::*;
use crate::base::constants::{DEFAULT_MIME, MIME_PRIORITY_ORDER, MIME_URI_LIST, SENSITIVE_MIME_HINTS};
use crate::base::utils::{
    gif_magic, image_trailer, law_sanitize_image_idempotent, png_magic,
    detect_image, detect_image_mime, extract_image_url_from_html, image_url, image_url_bytes, is_valid_http_url, mime_base,
    mime_base_eq, normalize_uri_list, normalized_uri_list, repair_image, sanitize_image_payload,
};
use crate::cli::utils::string_views;
use crate::storage::fingerprint::{content_hash, hex_of, sha3_256};
use crate::text::{chars_contain, chars_of, contains_seq, lower, lower_range, starts_with, str_eq, StrSliceViews};
use crate::wayland::state::ClipboardJob;

verus! {

fn lowered(s: &str) -> (r: Vec<char>)
    ensures
        r@ == lower(s@),
{
    let v = chars_of(s);
    assert(v@.subrange(0, v@.len() as int) =~= v@);
    lower_range(&v, 0, v.len())
}

// ---------------------------------------------------------------------------
// Sensitive offers.

/// Some offered MIME contains a sensitive hint, both compared in ASCII
/// lowercase.
pub open spec fn sensitive_offer(mimes: Seq<Seq<char>>) -> bool {
    exists|h: int, j: int|
        0 <= h < 4 && 0 <= j < mimes.len() && contains_seq(
            lower(#[trigger] mimes[j]),
            lower(#[trigger] SENSITIVE_MIME_HINTS@[h]@),
        )
}

pub fn is_sensitive(mimes: &[String]) -> (r: bool)
    ensures
        r == sensitive_offer(string_views(mimes@)),
{
    let mut h: usize = 0;
    while h < 4
        invariant
            h <= 4,
            forall|hh: int, j: int|
                0 <= hh < h && 0 <= j < mimes@.len() ==> !contains_seq(
                    lower(#[trigger] string_views(mimes@)[j]),
                    lower(#[trigger] SENSITIVE_MIME_HINTS@[hh]@),
                ),
        decreases 4 - h,
    {
        let hint = lowered(SENSITIVE_MIME_HINTS[h]);
        let mut j: usize = 0;
        while j < mimes.len()
            invariant
                h < 4,
                j <= mimes@.len(),
                hint@ == lower(SENSITIVE_MIME_HINTS@[h as int]@),
                forall|hh: int, jj: int|
                    0 <= hh < h && 0 <= jj < mimes@.len() ==> !contains_seq(
                        lower(#[trigger] string_views(mimes@)[jj]),
                        lower(#[trigger] SENSITIVE_MIME_HINTS@[hh]@),
                    ),
                forall|jj: int|
                    0 <= jj < j ==> !contains_seq(
                        lower(#[trigger] string_views(mimes@)[jj]),
                        lower(SENSITIVE_MIME_HINTS@[h as int]@),
                    ),
            decreases mimes@.len() - j,
        {
            let m = lowered(mimes[j].as_str());
            assert(string_views(mimes@)[j as int] == mimes@[j as int]@);
            if chars_contain(&m, &hint) {
                return true;
            }
            j = j + 1;
        }
        h = h + 1;
    }
    false
}

// ---------------------------------------------------------------------------
// Choosing the format to take.

/// Index of the first offered MIME with the same base type as `p`.
pub open spec fn first_base_match(ms: Seq<Seq<char>>, p: Seq<char>) -> Option<int>
    decreases ms.len(),
{
    if ms.len() == 0 {
        None
    } else {
        match first_base_match(ms.drop_last(), p) {
            Some(i) => Some(i),
            None => if mime_base(ms.last()) == mime_base(p) {
                Some(ms.len() - 1)
            } else {
                None
            },
        }
    }
}

/// Index of the first offered MIME that starts with `pre` once lowercased.
pub open spec fn first_lower_prefix(ms: Seq<Seq<char>>, pre: Seq<char>) -> Option<int>
    decreases ms.len(),
{
    if ms.len() == 0 {
        None
    } else {
        match first_lower_prefix(ms.drop_last(), pre) {
            Some(i) => Some(i),
            None => if starts_with(lower(ms.last()), pre) {
                Some(ms.len() - 1)
            } else {
                None
            },
        }
    }
}

/// The offered MIME (as offered) matching the earliest entry of `prios`
/// that any offer matches.
pub open spec fn priority_pick(ms: Seq<Seq<char>>, prios: Seq<Seq<char>>) -> Option<Seq<char>>
    decreases prios.len(),
{
    if prios.len() == 0 {
        None
    } else {
        match priority_pick(ms, prios.drop_last()) {
            Some(m) => Some(m),
            None => match first_base_match(ms, prios.last()) {
                Some(i) => Some(ms[i]),
                None => None,
            },
        }
    }
}

/// The format taken from an offer: by `MIME_PRIORITY_ORDER`; else the first
/// image; else the first text; else the first offered; else `DEFAULT_MIME`.
pub open spec fn chosen_mime(ms: Seq<Seq<char>>) -> Seq<char> {
    match priority_pick(ms, MIME_PRIORITY_ORDER@.views()) {
        Some(m) => m,
        None => match first_lower_prefix(ms, "image/"@) {
            Some(i) => ms[i],
            None => match first_lower_prefix(ms, "text/"@) {
                Some(i) => ms[i],
                None => if ms.len() > 0 {
                    ms[0]
                } else {
                    DEFAULT_MIME@
                },
            },
        },
    }
}

/// `first_lower_prefix` finds the earliest offer that starts with `pre`
/// once lowercased, and finds none only when no offer does.
proof fn lemma_first_lower_prefix_is_first(ms: Seq<Seq<char>>, pre: Seq<char>)
    ensures
        match first_lower_prefix(ms, pre) {
            Some(i) => 0 <= i < ms.len() && starts_with(lower(ms[i]), pre) && forall|j: int|
                0 <= j < i ==> !starts_with(lower(ms[j]), pre),
            None => forall|j: int| 0 <= j < ms.len() ==> !starts_with(lower(ms[j]), pre),
        },
    decreases ms.len(),
{
    if ms.len() > 0 {
        let init = ms.drop_last();
        lemma_first_lower_prefix_is_first(init, pre);
        assert forall|j: int| 0 <= j < init.len() implies init[j] == ms[j] by {}
    }
}

/// `first_base_match` finds nothing when no offer has the base type of `p`.
proof fn lemma_first_base_match_none(ms: Seq<Seq<char>>, p: Seq<char>)
    requires
        forall|j: int| 0 <= j < ms.len() ==> mime_base(ms[j]) != mime_base(p),
    ensures
        first_base_match(ms, p) is None,
    decreases ms.len(),
{
    if ms.len() > 0 {
        let init = ms.drop_last();
        assert forall|j: int| 0 <= j < init.len() implies mime_base(init[j]) != mime_base(p) by {
            assert(init[j] == ms[j]);
        }
        lemma_first_base_match_none(init, p);
    }
}

/// No priority entry is picked when no offer has the base type of any.
proof fn lemma_priority_pick_none(ms: Seq<Seq<char>>, prios: Seq<Seq<char>>)
    requires
        forall|j: int, k: int| 0 <= j < ms.len() && 0 <= k < prios.len() ==> mime_base(ms[j]) != mime_base(prios[k]),
    ensures
        priority_pick(ms, prios) is None,
    decreases prios.len(),
{
    if prios.len() > 0 {
        let init = prios.drop_last();
        assert forall|j: int, k: int| 0 <= j < ms.len() && 0 <= k < init.len() implies mime_base(ms[j]) != mime_base(
            init[k],
        ) by {
            assert(init[k] == prios[k]);
        }
        lemma_priority_pick_none(ms, init);
        assert forall|j: int| 0 <= j < ms.len() implies mime_base(ms[j]) != mime_base(prios.last()) by {
            assert(prios.last() == prios[prios.len() - 1]);
        }
        lemma_first_base_match_none(ms, prios.last());
    }
}

/// `first_base_match` finds the earliest offer with the base type of `p`
/// whenever one exists.
proof fn lemma_first_base_match_is_first(ms: Seq<Seq<char>>, p: Seq<char>)
    ensures
        match first_base_match(ms, p) {
            Some(i) => 0 <= i < ms.len() && mime_base(ms[i]) == mime_base(p) && forall|j: int|
                0 <= j < i ==> mime_base(ms[j]) != mime_base(p),
            None => forall|j: int| 0 <= j < ms.len() ==> mime_base(ms[j]) != mime_base(p),
        },
    decreases ms.len(),
{
    if ms.len() > 0 {
        let init = ms.drop_last();
        lemma_first_base_match_is_first(init, p);
        assert forall|j: int| 0 <= j < init.len() implies init[j] == ms[j] by {}
    }
}

/// Law: when some offer has the base type of a priority entry, the entry
/// earliest in `MIME_PRIORITY_ORDER` that any offer matches decides, and the
/// first offer matching it is taken as offered.
pub proof fn law_offers_follow_the_priority_order(ms: Seq<Seq<char>>, k: int)
    requires
        0 <= k < MIME_PRIORITY_ORDER@.len(),
        exists|j: int| 0 <= j < ms.len() && mime_base(ms[j]) == mime_base(MIME_PRIORITY_ORDER@[k]@),
        forall|j: int, h: int|
            0 <= j < ms.len() && 0 <= h < k ==> mime_base(ms[j]) != mime_base(MIME_PRIORITY_ORDER@[h]@),
    ensures
        exists|i: int|
            0 <= i < ms.len() && chosen_mime(ms) == ms[i] && mime_base(ms[i]) == mime_base(MIME_PRIORITY_ORDER@[k]@)
                && forall|j: int| 0 <= j < i ==> mime_base(ms[j]) != mime_base(MIME_PRIORITY_ORDER@[k]@),
{
    let prios = MIME_PRIORITY_ORDER@.views();
    assert(prios[k] == MIME_PRIORITY_ORDER@[k]@);
    let pre = prios.take(k);
    assert forall|j: int, h: int| 0 <= j < ms.len() && 0 <= h < pre.len() implies mime_base(ms[j]) != mime_base(
        pre[h],
    ) by {
        assert(pre[h] == MIME_PRIORITY_ORDER@[h]@);
    }
    lemma_priority_pick_none(ms, pre);
    lemma_first_base_match_is_first(ms, prios[k]);
    lemma_priority_prefix(ms, prios, k + 1);
}

/// Law: the format taken is always one that was offered; only an empty
/// offer falls back to `DEFAULT_MIME`.
pub proof fn law_chosen_mime_is_offered(ms: Seq<Seq<char>>)
    ensures
        ms.len() > 0 ==> exists|i: int| 0 <= i < ms.len() && chosen_mime(ms) == ms[i],
        ms.len() == 0 ==> chosen_mime(ms) == DEFAULT_MIME@,
{
    let prios = MIME_PRIORITY_ORDER@.views();
    lemma_first_lower_prefix_is_first(ms, "image/"@);
    lemma_first_lower_prefix_is_first(ms, "text/"@);
    lemma_priority_pick_offered(ms, prios);
}

proof fn lemma_priority_pick_offered(ms: Seq<Seq<char>>, prios: Seq<Seq<char>>)
    ensures
        priority_pick(ms, prios) matches Some(m) ==> exists|i: int| 0 <= i < ms.len() && m == ms[i],
    decreases prios.len(),
{
    if prios.len() > 0 {
        lemma_priority_pick_offered(ms, prios.drop_last());
        lemma_first_base_match_bounds(ms, prios.last());
    }
}

/// Law: when no offered MIME has the base type of a priority entry, the
/// first offer that is an image (`image/`, any case) is taken; failing
/// that, the first text (`text/`); failing that, the first offer.
pub proof fn law_unlisted_offers_prefer_image_then_text(ms: Seq<Seq<char>>)
    requires
        forall|j: int, k: int|
            0 <= j < ms.len() && 0 <= k < MIME_PRIORITY_ORDER@.len() ==> mime_base(ms[j]) != mime_base(
                MIME_PRIORITY_ORDER@[k]@,
            ),
    ensures
        (exists|j: int| 0 <= j < ms.len() && starts_with(lower(ms[j]), "image/"@)) ==> exists|i: int|
            0 <= i < ms.len() && chosen_mime(ms) == ms[i] && starts_with(lower(ms[i]), "image/"@) && forall|j: int|
                0 <= j < i ==> !starts_with(lower(ms[j]), "image/"@),
        (forall|j: int| 0 <= j < ms.len() ==> !starts_with(lower(ms[j]), "image/"@)) && (exists|j: int|
            0 <= j < ms.len() && starts_with(lower(ms[j]), "text/"@)) ==> exists|i: int|
            0 <= i < ms.len() && chosen_mime(ms) == ms[i] && starts_with(lower(ms[i]), "text/"@) && forall|j: int|
                0 <= j < i ==> !starts_with(lower(ms[j]), "text/"@),
        (forall|j: int| 0 <= j < ms.len() ==> !starts_with(lower(ms[j]), "image/"@) && !starts_with(
            lower(ms[j]),
            "text/"@,
        )) && ms.len() > 0 ==> chosen_mime(ms) == ms[0],
{
    let prios = MIME_PRIORITY_ORDER@.views();
    assert forall|j: int, k: int| 0 <= j < ms.len() && 0 <= k < prios.len() implies mime_base(ms[j]) != mime_base(
        prios[k],
    ) by {
        assert(prios[k] == MIME_PRIORITY_ORDER@[k]@);
    }
    lemma_priority_pick_none(ms, prios);
    lemma_first_lower_prefix_is_first(ms, "image/"@);
    lemma_first_lower_prefix_is_first(ms, "text/"@);
}

proof fn lemma_first_base_match_bounds(ms: Seq<Seq<char>>, p: Seq<char>)
    ensures
        first_base_match(ms, p) matches Some(i) ==> 0 <= i < ms.len(),
    decreases ms.len(),
{
    if ms.len() > 0 {
        lemma_first_base_match_bounds(ms.drop_last(), p);
    }
}

proof fn lemma_first_lower_prefix_bounds(ms: Seq<Seq<char>>, pre: Seq<char>)
    ensures
        first_lower_prefix(ms, pre) matches Some(i) ==> 0 <= i < ms.len(),
    decreases ms.len(),
{
    if ms.len() > 0 {
        lemma_first_lower_prefix_bounds(ms.drop_last(), pre);
    }
}

fn find_base_match(mimes: &[String], p: &str) -> (r: Option<usize>)
    ensures
        match r {
            Some(i) => first_base_match(string_views(mimes@), p@) == Some(i as int),
            None => first_base_match(string_views(mimes@), p@) is None,
        },
{
    let mut i: usize = 0;
    while i < mimes.len()
        invariant
            i <= mimes@.len(),
            first_base_match(string_views(mimes@).take(i as int), p@) is None,
        decreases mimes@.len() - i,
    {
        assert(string_views(mimes@).take(i + 1).drop_last() =~= string_views(mimes@).take(i as int));
        assert(string_views(mimes@).take(i + 1).last() == mimes@[i as int]@);
        if mime_base_eq(mimes[i].as_str(), p) {
            proof {
                lemma_prefix_base_match(string_views(mimes@), p@, i as int + 1);
            }
            return Some(i);
        }
        i = i + 1;
    }
    assert(string_views(mimes@).take(mimes@.len() as int) =~= string_views(mimes@));
    None
}

proof fn lemma_prefix_base_match(ms: Seq<Seq<char>>, p: Seq<char>, k: int)
    requires
        0 < k <= ms.len(),
        first_base_match(ms.take(k), p) == Some(k - 1),
    ensures
        first_base_match(ms, p) == Some(k - 1),
    decreases ms.len() - k,
{
    if k < ms.len() {
        assert(ms.drop_last().take(k) =~= ms.take(k));
        lemma_prefix_base_match(ms.drop_last(), p, k);
    } else {
        assert(ms.take(k) =~= ms);
    }
}

proof fn lemma_prefix_lower_prefix(ms: Seq<Seq<char>>, pre: Seq<char>, k: int)
    requires
        0 < k <= ms.len(),
        first_lower_prefix(ms.take(k), pre) == Some(k - 1),
    ensures
        first_lower_prefix(ms, pre) == Some(k - 1),
    decreases ms.len() - k,
{
    if k < ms.len() {
        assert(ms.drop_last().take(k) =~= ms.take(k));
        lemma_prefix_lower_prefix(ms.drop_last(), pre, k);
    } else {
        assert(ms.take(k) =~= ms);
    }
}

fn find_lower_prefix(mimes: &[String], pre: &str) -> (r: Option<usize>)
    ensures
        match r {
            Some(i) => first_lower_prefix(string_views(mimes@), pre@) == Some(i as int),
            None => first_lower_prefix(string_views(mimes@), pre@) is None,
        },
{
    let pv = chars_of(pre);
    let mut i: usize = 0;
    while i < mimes.len()
        invariant
            i <= mimes@.len(),
            pv@ == pre@,
            first_lower_prefix(string_views(mimes@).take(i as int), pre@) is None,
        decreases mimes@.len() - i,
    {
        assert(string_views(mimes@).take(i + 1).drop_last() =~= string_views(mimes@).take(i as int));
        assert(string_views(mimes@).take(i + 1).last() == mimes@[i as int]@);
        let m = lowered(mimes[i].as_str());
        let hit = crate::text::range_starts_with(&m, 0, m.len(), &pv);
        assert(m@.subrange(0, m@.len() as int) =~= m@);
        if hit {
            proof {
                lemma_prefix_lower_prefix(string_views(mimes@), pre@, i as int + 1);
            }
            return Some(i);
        }
        i = i + 1;
    }
    assert(string_views(mimes@).take(mimes@.len() as int) =~= string_views(mimes@));
    None
}

/// Picks the format to request from an offer.
pub fn choose_mime(mimes: &[String]) -> (r: String)
    ensures
        r@ == chosen_mime(string_views(mimes@)),
{
    let ghost ms = string_views(mimes@);
    let ghost prios = MIME_PRIORITY_ORDER@.views();
    let mut k: usize = 0;
    while k < MIME_PRIORITY_ORDER.len()
        invariant
            k <= 13,
            ms == string_views(mimes@),
            prios == MIME_PRIORITY_ORDER@.views(),
            priority_pick(ms, prios.take(k as int)) is None,
        decreases 13 - k,
    {
        assert(prios.take(k + 1).drop_last() =~= prios.take(k as int));
        assert(prios.take(k + 1).last() == MIME_PRIORITY_ORDER@[k as int]@);
        match find_base_match(mimes, MIME_PRIORITY_ORDER[k]) {
            Some(i) => {
                proof {
                    lemma_first_base_match_bounds(ms, prios[k as int]);
                    lemma_priority_prefix(ms, prios, k as int + 1);
                }
                assert(ms[i as int] == mimes@[i as int]@);
                return mimes[i].clone();
            },
            None => {},
        }
        k = k + 1;
    }
    assert(prios.take(13) =~= prios);
    match find_lower_prefix(mimes, "image/") {
        Some(i) => {
            proof {
                lemma_first_lower_prefix_bounds(ms, "image/"@);
            }
            assert(ms[i as int] == mimes@[i as int]@);
            return mimes[i].clone();
        },
        None => {},
    }
    match find_lower_prefix(mimes, "text/") {
        Some(i) => {
            proof {
                lemma_first_lower_prefix_bounds(ms, "text/"@);
            }
            assert(ms[i as int] == mimes@[i as int]@);
            return mimes[i].clone();
        },
        None => {},
    }
    if mimes.len() > 0 {
        assert(ms[0] == mimes@[0]@);
        mimes[0].clone()
    } else {
        String::from_str(DEFAULT_MIME)
    }
}

proof fn lemma_priority_prefix(ms: Seq<Seq<char>>, prios: Seq<Seq<char>>, k: int)
    requires
        0 < k <= prios.len(),
        priority_pick(ms, prios.take(k - 1)) is None,
        first_base_match(ms, prios[k - 1]) is Some,
    ensures
        priority_pick(ms, prios) == Some(ms[first_base_match(ms, prios[k - 1])->0]),
    decreases prios.len() - k,
{
    assert(prios.take(k).drop_last() =~= prios.take(k - 1));
    assert(prios.take(k).last() == prios[k - 1]);
    if k < prios.len() {
        assert(prios.drop_last().take(k) =~= prios.take(k));
        assert(prios.drop_last().take(k - 1) =~= prios.take(k - 1));
        lemma_priority_prefix(ms, prios.drop_last(), k);
    } else {
        assert(prios.take(k) =~= prios);
    }
}

// ---------------------------------------------------------------------------
// The ingestion plan.

/// What to do with an offer that passed the monitor's gate.
pub enum IngestPlan {
    /// Empty or sensitive: nothing is read.
    Skip,
    /// A browser image with HTML alongside: try the original first.
    FetchOriginal(String),
    /// Read the chosen format over a pipe.
    Receive { mime: String, is_image: bool, is_uri_list: bool },
}

pub open spec fn offers_html(ms: Seq<Seq<char>>) -> bool {
    exists|j: int| 0 <= j < ms.len() && mime_base(#[trigger] ms[j]) == mime_base("text/html"@)
}

fn any_html(mimes: &[String]) -> (r: bool)
    ensures
        r == offers_html(string_views(mimes@)),
{
    let mut j: usize = 0;
    while j < mimes.len()
        invariant
            j <= mimes@.len(),
            forall|jj: int| 0 <= jj < j ==> mime_base(#[trigger] string_views(mimes@)[jj]) != mime_base("text/html"@),
        decreases mimes@.len() - j,
    {
        assert(string_views(mimes@)[j as int] == mimes@[j as int]@);
        if mime_base_eq(mimes[j].as_str(), "text/html") {
            return true;
        }
        j = j + 1;
    }
    false
}

/// Plans the ingestion of an offer: skipped when it offers nothing or is
/// sensitive; an image offered together with HTML is fetched from its
/// original when that is enabled and a storage worker is there to take it;
/// otherwise the chosen format is received.
pub fn plan_ingest(mimes: &[String], fetch_original: bool, has_worker: bool) -> (r: IngestPlan)
    ensures
        (mimes@.len() == 0 || sensitive_offer(string_views(mimes@))) <==> r is Skip,
        ({
            let ms = string_views(mimes@);
            let m = chosen_mime(ms);
            let img = starts_with(lower(m), "image/"@);
            !(mimes@.len() == 0 || sensitive_offer(ms)) ==> if img && fetch_original && offers_html(ms)
                && has_worker {
                r matches IngestPlan::FetchOriginal(x) && x@ == m
            } else {
                r matches IngestPlan::Receive { mime, is_image, is_uri_list } && mime@ == m && is_image == img
                    && is_uri_list == (m == MIME_URI_LIST@)
            }
        }),
{
    if mimes.len() == 0 || is_sensitive(mimes) {
        return IngestPlan::Skip;
    }
    let mime = choose_mime(mimes);
    let low = lowered(mime.as_str());
    let pre: Vec<char> = vec!['i', 'm', 'a', 'g', 'e', '/'];
    proof {
        reveal_strlit("image/");
    }
    assert(pre@ =~= "image/"@);
    let is_image = crate::text::range_starts_with(&low, 0, low.len(), &pre);
    assert(low@.subrange(0, low@.len() as int) =~= low@);
    if is_image && fetch_original && has_worker && any_html(mimes) {
        return IngestPlan::FetchOriginal(mime);
    }
    let is_uri_list = str_eq(mime.as_str(), MIME_URI_LIST);
    IngestPlan::Receive { mime, is_image, is_uri_list }
}

// ---------------------------------------------------------------------------
// Jobs.

/// The MIME and bytes a received payload is stored as: a file list is
/// normalised (and dropped if nothing is left); bytes recognised as an image
/// are relabelled with their real format and repaired; anything else is
/// kept as received. An empty payload is dropped.
pub open spec fn job_content(mime: Seq<char>, payload: Seq<u8>, is_uri_list: bool) -> Option<(Seq<char>, Seq<u8>)> {
    if payload.len() == 0 {
        None
    } else if is_uri_list {
        let p = normalized_uri_list(payload);
        if p.len() == 0 {
            None
        } else {
            Some((mime, p))
        }
    } else {
        match detect_image(payload) {
            Some(m) => Some((m, repair_image(payload, m))),
            None => Some((mime, payload)),
        }
    }
}

/// Turns a received payload into a storage job; the fingerprint is taken
/// of exactly the bytes that will be stored.
pub fn prepare_job(mime: String, payload: Vec<u8>, is_uri_list: bool) -> (r: Option<ClipboardJob>)
    ensures
        match job_content(mime@, payload@, is_uri_list) {
            Some((m, d)) => r matches Some(j) && j.mime@ == m && j.data@ == d && j.hash@ == hex_of(sha3_256(d)),
            None => r is None,
        },
{
    if payload.len() == 0 {
        return None;
    }
    let (final_mime, data) = if is_uri_list {
        let p = normalize_uri_list(payload.as_slice());
        if p.len() == 0 {
            return None;
        }
        (mime, p)
    } else {
        match detect_image_mime(payload.as_slice()) {
            Some(m) => (String::from_str(m), sanitize_image_payload(payload, m)),
            None => (mime, payload),
        }
    };
    let hash = content_hash(data.as_slice());
    Some(ClipboardJob { mime: final_mime, data, hash })
}

/// The six format names image sniffing yields are pairwise different.
proof fn lemma_image_labels_distinct()
    ensures
        "image/png"@ != "image/jpeg"@,
        "image/png"@ != "image/gif"@,
        "image/png"@ != "image/webp"@,
        "image/png"@ != "image/avif"@,
        "image/png"@ != "image/svg+xml"@,
        "image/jpeg"@ != "image/gif"@,
        "image/jpeg"@ != "image/webp"@,
        "image/jpeg"@ != "image/avif"@,
        "image/jpeg"@ != "image/svg+xml"@,
        "image/gif"@ != "image/webp"@,
        "image/gif"@ != "image/avif"@,
        "image/gif"@ != "image/svg+xml"@,
{
    reveal_strlit("image/png");
    reveal_strlit("image/jpeg");
    reveal_strlit("image/gif");
    reveal_strlit("image/webp");
    reveal_strlit("image/avif");
    reveal_strlit("image/svg+xml");
    assert("image/png"@[6] != "image/gif"@[6]);
    assert("image/jpeg"@[6] != "image/webp"@[6]);
    assert("image/jpeg"@[6] != "image/avif"@[6]);
}

/// Ingesting a stored (non-file-list) payload again gives back the same
/// MIME and bytes, hence the same fingerprint: recopying a record from
/// history collapses onto that record instead of creating a new one.
pub proof fn law_reingest_is_stable(mime: Seq<char>, payload: Seq<u8>)
    ensures
        job_content(mime, payload, false) matches Some((m2, d2)) ==> job_content(m2, d2, false) == Some((m2, d2)),
{
    match detect_image(payload) {
        Some(m) => {
            lemma_image_labels_distinct();
            let d = repair_image(payload, m);
            law_sanitize_image_idempotent(payload, m);
            if let Some(t) = image_trailer(m) {
                assert(m == "image/jpeg"@ || m == "image/png"@ || m == "image/gif"@);
                if d != payload {
                    assert(d == payload + t);
                    assert(payload.len() >= 4);
                    assert(d.subrange(0, 4) =~= payload.subrange(0, 4));
                    assert(d[0] == payload[0] && d[1] == payload[1] && d[2] == payload[2]);
                    assert(d.len() >= 4);
                    if payload.subrange(0, 4) == png_magic() {
                        assert(detect_image(d) == Some("image/png"@));
                    } else if payload[0] == 0xff && payload[1] == 0xd8 && payload[2] == 0xff {
                        assert(detect_image(d) == Some("image/jpeg"@));
                    } else {
                        assert(payload.subrange(0, 4) == gif_magic());
                        assert(detect_image(d) == Some("image/gif"@));
                    }
                }
            }
            assert(detect_image(d) == Some(m));
        },
        None => {},
    }
}

/// File lists are fingerprinted after normalisation: two copies naming
/// the same paths (whatever their `file:` spelling, escapes or comments)
/// become the same job, hence the same record.
pub proof fn law_equivalent_file_lists_collapse(mime: Seq<char>, a: Seq<u8>, b: Seq<u8>)
    requires
        a.len() > 0,
        b.len() > 0,
        normalized_uri_list(a) == normalized_uri_list(b),
    ensures
        job_content(mime, a, true) == job_content(mime, b, true),
{
}

/// The URL an original image is fetched from: the first `<img src>` of the
/// offered HTML, when it is an `http(s)` URL.
pub open spec fn original_image_url(html: Seq<u8>) -> Option<Seq<char>> {
    match image_url(html) {
        Some(u) => if starts_with(u, "http://"@) || starts_with(u, "https://"@) {
            Some(u)
        } else {
            None
        },
        None => None,
    }
}

pub fn fetch_url(html: &[u8]) -> (r: Option<String>)
    ensures
        match r {
            Some(u) => original_image_url(html@) == Some(u@),
            None => original_image_url(html@) is None,
        },
        r matches Some(u) ==> (image_url_bytes(html@) matches Some(b) && (vstd::utf8::valid_utf8(b) ==> u@
            == vstd::utf8::decode_utf8(b))),
{
    match extract_image_url_from_html(html) {
        Some(u) => if is_valid_http_url(u.as_str()) {
            Some(u)
        } else {
            None
        },
        None => None,
    }
}

/// The job for fetched original bytes: only when they are recognisably an
/// image, stored under that format, repaired, fingerprinted.
pub fn fetched_job(bytes: Vec<u8>) -> (r: Option<ClipboardJob>)
    ensures
        match detect_image(bytes@) {
            Some(m) => r matches Some(j) && j.mime@ == m && j.data@ == repair_image(bytes@, m) && j.hash@ == hex_of(
                sha3_256(j.data@),
            ),
            None => r is None,
        },
{
    match detect_image_mime(bytes.as_slice()) {
        Some(m) => {
            let data = sanitize_image_payload(bytes, m);
            let hash = content_hash(data.as_slice());
            Some(ClipboardJob { mime: String::from_str(m), data, hash })
        },
        None => None,
    }
}

} // verus!
