//! Offering a restored record: the MIME names the new clipboard source
//! advertises for it, so a paste target can pick one it understands.

use vstd::prelude::*;
use crate::base::constants::{HTML_MIME_ALTS, IMAGE_MIME_ALTS, TEXT_MIME_ALTS};
use crate::text::{contains_seq, starts_with, str_contains, str_eq, str_starts_with, StrSliceViews};

verus! {

/// The names of `alts` other than `m`, in order.
pub open spec fn others(alts: Seq<Seq<char>>, m: Seq<char>) -> Seq<Seq<char>>
    decreases alts.len(),
{
    if alts.len() == 0 {
        Seq::empty()
    } else if alts.last() == m {
        others(alts.drop_last(), m)
    } else {
        others(alts.drop_last(), m).push(alts.last())
    }
}

/// What a restored record with MIME `m` is offered as: `m` itself first,
/// then a PNG's image alternates, `image/png` for any other image, the
/// HTML alternates for HTML and XHTML, or the plain-text alternates for
/// other text.
pub open spec fn offers_for(m: Seq<char>) -> Seq<Seq<char>> {
    seq![m] + if starts_with(m, "image/"@) {
        if m == "image/png"@ {
            others(IMAGE_MIME_ALTS@.views(), m)
        } else {
            seq!["image/png"@]
        }
    } else if m == "text/html"@ || m == "application/xhtml+xml"@ {
        others(HTML_MIME_ALTS@.views(), m)
    } else if contains_seq(m, "text"@) || contains_seq(m, "UTF8"@) {
        others(TEXT_MIME_ALTS@.views(), m)
    } else {
        Seq::empty()
    }
}

pub open spec fn string_seq(v: Seq<String>) -> Seq<Seq<char>> {
    v.map_values(|s: String| s@)
}

fn push_others(out: &mut Vec<String>, alts: &[&'static str], m: &str)
    ensures
        string_seq(final(out)@) == string_seq(old(out)@) + others(alts@.views(), m@),
{
    let ghost base = string_seq(out@);
    let mut i: usize = 0;
    while i < alts.len()
        invariant
            i <= alts@.len(),
            string_seq(out@) == base + others(alts@.subrange(0, i as int).views(), m@),
        decreases alts@.len() - i,
    {
        let ghost prev = alts@.subrange(0, i as int).views();
        assert(alts@.subrange(0, i + 1).views().drop_last() =~= prev);
        assert(alts@.subrange(0, i + 1).views().last() == alts@[i as int]@);
        if !str_eq(alts[i], m) {
            let ghost pre = out@;
            let item = String::from_str(alts[i]);
            out.push(item);
            assert(others(alts@.subrange(0, i + 1).views(), m@) == others(prev, m@).push(alts@[i as int]@));
            assert(string_seq(out@) =~= string_seq(pre).push(alts@[i as int]@));
            assert(string_seq(out@) =~= base + others(alts@.subrange(0, i + 1).views(), m@));
        } else {
            assert(string_seq(out@) =~= base + others(alts@.subrange(0, i + 1).views(), m@));
        }
        i = i + 1;
    }
    assert(alts@.subrange(0, alts@.len() as int) =~= alts@);
}

/// The MIME names to offer for a restored record of MIME `mime`.
pub fn restore_offers(mime: &str) -> (r: Vec<String>)
    ensures
        string_seq(r@) == offers_for(mime@),
        r@.len() > 0 && r@[0]@ == mime@,
{
    let mut out: Vec<String> = Vec::new();
    out.push(String::from_str(mime));
    assert(string_seq(out@) =~= seq![mime@]);
    if str_starts_with(mime, "image/") {
        if str_eq(mime, "image/png") {
            push_others(&mut out, IMAGE_MIME_ALTS.as_slice(), mime);
        } else {
            out.push(String::from_str("image/png"));
            assert(string_seq(out@) =~= seq![mime@] + seq!["image/png"@]);
        }
    } else if str_eq(mime, "text/html") || str_eq(mime, "application/xhtml+xml") {
        push_others(&mut out, HTML_MIME_ALTS.as_slice(), mime);
    } else if str_contains(mime, "text") || str_contains(mime, "UTF8") {
        push_others(&mut out, TEXT_MIME_ALTS.as_slice(), mime);
    } else {
        assert(string_seq(out@) =~= seq![mime@] + Seq::<Seq<char>>::empty());
    }
    assert(string_seq(out@) == offers_for(mime@));
    assert(offers_for(mime@)[0] == mime@);
    assert(string_seq(out@).len() == out@.len());
    assert(string_seq(out@)[0] == out@[0]@);
    out
}

pub proof fn lemma_others_excludes(alts: Seq<Seq<char>>, m: Seq<char>)
    ensures
        !others(alts, m).contains(m),
    decreases alts.len(),
{
    if alts.len() > 0 {
        lemma_others_excludes(alts.drop_last(), m);
        if alts.last() != m {
            assert(others(alts, m) == others(alts.drop_last(), m).push(alts.last()));
            assert forall|i: int| 0 <= i < others(alts, m).len() implies others(alts, m)[i] != m by {
                if i < others(alts.drop_last(), m).len() {
                    assert(others(alts, m)[i] == others(alts.drop_last(), m)[i]);
                }
            }
        }
    }
}

/// A restored record is offered under its own MIME first, and under no
/// other position again.
pub proof fn law_restore_offers_own_mime_once(m: Seq<char>)
    ensures
        offers_for(m)[0] == m,
        forall|i: int| 1 <= i < offers_for(m).len() ==> offers_for(m)[i] != m,
{
    lemma_others_excludes(IMAGE_MIME_ALTS@.views(), m);
    lemma_others_excludes(HTML_MIME_ALTS@.views(), m);
    lemma_others_excludes(TEXT_MIME_ALTS@.views(), m);
    let rest = offers_for(m).drop_first();
    assert(offers_for(m) =~= seq![m] + rest);
    assert forall|i: int| 1 <= i < offers_for(m).len() implies offers_for(m)[i] != m by {
        assert(offers_for(m)[i] == rest[i - 1]);
        if starts_with(m, "image/"@) && m != "image/png"@ {
            assert(rest =~= seq!["image/png"@]);
        }
    }
}

/// The names of `alts` other than `m`, in order, are `alts` with `m`
/// filtered out.
pub proof fn lemma_others_is_filter(alts: Seq<Seq<char>>, m: Seq<char>)
    ensures
        others(alts, m) == alts.filter(|a: Seq<char>| a != m),
    decreases alts.len(),
{
    reveal(Seq::filter);
    if alts.len() > 0 {
        lemma_others_is_filter(alts.drop_last(), m);
    }
}

/// Law: a textual record that is neither an image nor HTML/XHTML (its MIME
/// names `text` or `UTF8`, such as a file list) is offered under its own
/// MIME and then under every plain-text alternate other than that MIME, in
/// their order.
pub proof fn law_text_offers_carry_plain_text_alternates(m: Seq<char>)
    requires
        !starts_with(m, "image/"@),
        m != "text/html"@,
        m != "application/xhtml+xml"@,
        contains_seq(m, "text"@) || contains_seq(m, "UTF8"@),
    ensures
        offers_for(m) == seq![m] + TEXT_MIME_ALTS@.views().filter(|a: Seq<char>| a != m),
{
    lemma_others_is_filter(TEXT_MIME_ALTS@.views(), m);
}

/// Law: a textual record whose MIME is none of the plain-text alternates
/// (such as `text/uri-list`) is offered under its MIME and then under all
/// five of them.
pub proof fn law_text_offers_outside_the_alternates(m: Seq<char>)
    requires
        !starts_with(m, "image/"@),
        m != "text/html"@,
        m != "application/xhtml+xml"@,
        contains_seq(m, "text"@) || contains_seq(m, "UTF8"@),
        m != "text/plain;charset=utf-8"@,
        m != "text/plain"@,
        m != "UTF8_STRING"@,
        m != "STRING"@,
        m != "TEXT"@,
    ensures
        offers_for(m) == seq![m, "text/plain;charset=utf-8"@, "text/plain"@, "UTF8_STRING"@, "STRING"@, "TEXT"@],
{
    let alts = TEXT_MIME_ALTS@.views();
    assert(alts =~= seq!["text/plain;charset=utf-8"@, "text/plain"@, "UTF8_STRING"@, "STRING"@, "TEXT"@]);
    lemma_others_is_filter(alts, m);
    reveal_with_fuel(others, 6);
    assert(others(alts, m) =~= alts);
    assert(offers_for(m) =~= seq![m] + alts);
}

/// Law: a PNG is offered as PNG and then as the other image formats; any
/// other image as itself and then as PNG.
pub proof fn law_image_offers(m: Seq<char>)
    requires
        starts_with(m, "image/"@),
    ensures
        m == "image/png"@ ==> offers_for(m) == seq![m, "image/jpeg"@, "image/webp"@, "image/gif"@],
        m != "image/png"@ ==> offers_for(m) == seq![m, "image/png"@],
{
    let alts = IMAGE_MIME_ALTS@.views();
    assert(alts =~= seq!["image/png"@, "image/jpeg"@, "image/webp"@, "image/gif"@]);
    if m == "image/png"@ {
        reveal_strlit("image/png");
        reveal_strlit("image/jpeg");
        reveal_strlit("image/webp");
        reveal_strlit("image/gif");
        assert("image/png"@ != "image/jpeg"@ && "image/png"@ != "image/webp"@ && "image/png"@ != "image/gif"@) by {
            assert("image/png"@[6] != "image/jpeg"@[6]);
            assert("image/png"@[6] != "image/webp"@[6]);
            assert("image/png"@[6] != "image/gif"@[6]);
        }
        reveal_with_fuel(others, 5);
        assert(others(alts, m) =~= seq!["image/jpeg"@, "image/webp"@, "image/gif"@]);
        assert(offers_for(m) =~= seq![m] + others(alts, m));
    }
}

/// Law: HTML or XHTML is offered under its own MIME, then under the other
/// markup name and every plain-text name, in the order of `HTML_MIME_ALTS`.
pub proof fn law_html_offers(m: Seq<char>)
    requires
        m == "text/html"@ || m == "application/xhtml+xml"@,
    ensures
        offers_for(m) == seq![m] + HTML_MIME_ALTS@.views().filter(|a: Seq<char>| a != m),
        HTML_MIME_ALTS@.views().filter(|a: Seq<char>| a != m).len() == 6,
{
    reveal_strlit("text/html");
    reveal_strlit("application/xhtml+xml");
    reveal_strlit("image/");
    assert(!starts_with(m, "image/"@)) by {
        assert(m[0] != "image/"@[0]);
    }
    let alts = HTML_MIME_ALTS@.views();
    lemma_others_is_filter(alts, m);
    assert(alts =~= seq![
        "text/html"@,
        "application/xhtml+xml"@,
        "text/plain;charset=utf-8"@,
        "text/plain"@,
        "UTF8_STRING"@,
        "STRING"@,
        "TEXT"@,
    ]);
    reveal_strlit("text/plain;charset=utf-8");
    reveal_strlit("text/plain");
    reveal_strlit("UTF8_STRING");
    reveal_strlit("STRING");
    reveal_strlit("TEXT");
    assert("text/html"@ != "application/xhtml+xml"@ && "text/html"@ != "text/plain;charset=utf-8"@
        && "text/html"@ != "text/plain"@ && "text/html"@ != "UTF8_STRING"@ && "text/html"@ != "STRING"@
        && "text/html"@ != "TEXT"@) by {
        assert("text/html"@[0] != "application/xhtml+xml"@[0]);
        assert("text/html"@[5] != "text/plain;charset=utf-8"@[5]);
        assert("text/html"@[5] != "text/plain"@[5]);
        assert("text/html"@[0] != "UTF8_STRING"@[0]);
        assert("text/html"@[0] != "STRING"@[0]);
        assert("text/html"@.len() != "TEXT"@.len());
    }
    assert("application/xhtml+xml"@ != "text/plain;charset=utf-8"@ && "application/xhtml+xml"@ != "text/plain"@
        && "application/xhtml+xml"@ != "UTF8_STRING"@ && "application/xhtml+xml"@ != "STRING"@
        && "application/xhtml+xml"@ != "TEXT"@) by {
        assert("application/xhtml+xml"@[0] != "text/plain;charset=utf-8"@[0]);
        assert("application/xhtml+xml"@[0] != "text/plain"@[0]);
        assert("application/xhtml+xml"@[0] != "UTF8_STRING"@[0]);
        assert("application/xhtml+xml"@[0] != "STRING"@[0]);
        assert("application/xhtml+xml"@[0] != "TEXT"@[0]);
    }
    reveal_with_fuel(others, 8);
    assert(others(alts, m).len() == 6);
}

/// Law: a record that is neither an image nor markup nor text (its MIME
/// names neither `text` nor `UTF8`) is offered under its own MIME only.
pub proof fn law_other_records_offer_only_their_mime(m: Seq<char>)
    requires
        !starts_with(m, "image/"@),
        m != "text/html"@,
        m != "application/xhtml+xml"@,
        !contains_seq(m, "text"@),
        !contains_seq(m, "UTF8"@),
    ensures
        offers_for(m) == seq![m],
{
    assert(offers_for(m) =~= seq![m]);
}

} // verus!
