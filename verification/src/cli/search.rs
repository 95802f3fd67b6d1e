//! The `search` command's keyword handling: positional arguments split at
//! whitespace into keywords, duplicates dropped (first occurrence kept), and
//! the texts that name them.

use vstd::prelude::*;
use crate::cli::utils::string_views;
use crate::num::{dec, push_u64};
use crate::text::{chars_of, is_whitespace, is_ws, str_eq, string_of_range};

verus! {

/// The whitespace-separated words of `s` from position `i`, `cur` being
/// the word in progress and `acc` the words already complete.
pub open spec fn words_scan(s: Seq<char>, i: int, cur: Seq<char>, acc: Seq<Seq<char>>) -> Seq<Seq<char>>
    decreases s.len() - i,
{
    if i < 0 || i >= s.len() {
        if cur.len() > 0 {
            acc.push(cur)
        } else {
            acc
        }
    } else if is_ws(s[i]) {
        words_scan(s, i + 1, Seq::empty(), if cur.len() > 0 { acc.push(cur) } else { acc })
    } else {
        words_scan(s, i + 1, cur.push(s[i]), acc)
    }
}

/// `s.split_whitespace()`: the non-empty runs of non-whitespace, in order.
pub open spec fn words(s: Seq<char>) -> Seq<Seq<char>> {
    words_scan(s, 0, Seq::empty(), Seq::empty())
}

pub open spec fn add_unique(acc: Seq<Seq<char>>, w: Seq<char>) -> Seq<Seq<char>> {
    if acc.contains(w) {
        acc
    } else {
        acc.push(w)
    }
}

/// `acc` followed by the words of `ws` it does not hold yet, in order.
pub open spec fn dedup_onto(acc: Seq<Seq<char>>, ws: Seq<Seq<char>>) -> Seq<Seq<char>>
    decreases ws.len(),
{
    if ws.len() == 0 {
        acc
    } else {
        add_unique(dedup_onto(acc, ws.drop_last()), ws.last())
    }
}

/// The keywords of a search: the words of every argument, in order, each
/// kept once.
pub open spec fn keywords_of(args: Seq<Seq<char>>) -> Seq<Seq<char>>
    decreases args.len(),
{
    if args.len() == 0 {
        Seq::empty()
    } else {
        dedup_onto(keywords_of(args.drop_last()), words(args.last()))
    }
}

/// Splits `s` at whitespace.
pub fn split_words(s: &str) -> (r: Vec<String>)
    ensures
        string_views(r@) == words(s@),
{
    let v = chars_of(s);
    let mut out: Vec<String> = Vec::new();
    let mut start: usize = 0;
    let mut i: usize = 0;
    assert(v@.subrange(0, 0) =~= Seq::<char>::empty());
    assert(string_views(out@) =~= Seq::<Seq<char>>::empty());
    while i < v.len()
        invariant
            start <= i <= v@.len(),
            v@ == s@,
            words_scan(v@, i as int, v@.subrange(start as int, i as int), string_views(out@)) == words(s@),
        decreases v@.len() - i,
    {
        if is_whitespace(v[i]) {
            let ghost before = string_views(out@);
            if start < i {
                out.push(string_of_range(&v, start, i));
                assert(string_views(out@) =~= before.push(v@.subrange(start as int, i as int)));
            }
            i = i + 1;
            start = i;
            assert(v@.subrange(start as int, i as int) =~= Seq::<char>::empty());
        } else {
            assert(v@.subrange(start as int, i + 1) =~= v@.subrange(start as int, i as int).push(v@[i as int]));
            i = i + 1;
        }
    }
    if start < i {
        let ghost before = string_views(out@);
        out.push(string_of_range(&v, start, i));
        assert(string_views(out@) =~= before.push(v@.subrange(start as int, i as int)));
    }
    out
}

fn contains_string(list: &Vec<String>, w: &String) -> (r: bool)
    ensures
        r == string_views(list@).contains(w@),
{
    let mut i: usize = 0;
    while i < list.len()
        invariant
            i <= list@.len(),
            forall|j: int| 0 <= j < i ==> list@[j]@ != w@,
        decreases list@.len() - i,
    {
        if str_eq(list[i].as_str(), w.as_str()) {
            assert(string_views(list@)[i as int] == w@);
            return true;
        }
        i = i + 1;
    }
    assert forall|j: int| 0 <= j < string_views(list@).len() implies string_views(list@)[j] != w@ by {}
    false
}

/// The keywords of a search's positional arguments.
pub fn search_keywords(args: &[String]) -> (r: Vec<String>)
    ensures
        string_views(r@) == keywords_of(string_views(args@)),
{
    let mut out: Vec<String> = Vec::new();
    let mut k: usize = 0;
    while k < args.len()
        invariant
            k <= args@.len(),
            string_views(out@) == keywords_of(string_views(args@.subrange(0, k as int))),
        decreases args@.len() - k,
    {
        let ws = split_words(args[k].as_str());
        let ghost base = string_views(out@);
        let mut j: usize = 0;
        while j < ws.len()
            invariant
                j <= ws@.len(),
                string_views(out@) == dedup_onto(base, string_views(ws@).subrange(0, j as int)),
            decreases ws@.len() - j,
        {
            let w = &ws[j];
            if !contains_string(&out, w) {
                out.push(w.clone());
            }
            assert(string_views(ws@).subrange(0, j + 1).drop_last() =~= string_views(ws@).subrange(0, j as int));
            assert(string_views(out@) =~= dedup_onto(base, string_views(ws@).subrange(0, j + 1)));
            j = j + 1;
        }
        assert(string_views(ws@).subrange(0, ws@.len() as int) =~= string_views(ws@));
        assert(string_views(args@.subrange(0, k + 1)).drop_last() =~= string_views(args@.subrange(0, k as int)));
        assert(string_views(args@.subrange(0, k + 1)).last() == args@[k as int]@);
        k = k + 1;
    }
    assert(args@.subrange(0, args@.len() as int) =~= args@);
    out
}

/// The words of `ws` with `sep` between them.
pub open spec fn joined(ws: Seq<Seq<char>>, sep: Seq<char>) -> Seq<char>
    decreases ws.len(),
{
    if ws.len() == 0 {
        Seq::empty()
    } else if ws.len() == 1 {
        ws[0]
    } else {
        joined(ws.drop_last(), sep) + sep + ws.last()
    }
}

pub fn join_words(ws: &[String], sep: &str) -> (r: String)
    ensures
        r@ == joined(string_views(ws@), sep@),
{
    let mut s = String::new();
    let mut i: usize = 0;
    while i < ws.len()
        invariant
            i <= ws@.len(),
            s@ == joined(string_views(ws@.subrange(0, i as int)), sep@),
        decreases ws@.len() - i,
    {
        if i > 0 {
            s.append(sep);
        }
        s.append(ws[i].as_str());
        assert(string_views(ws@.subrange(0, i + 1)).drop_last() =~= string_views(ws@.subrange(0, i as int)));
        i = i + 1;
    }
    assert(ws@.subrange(0, ws@.len() as int) =~= ws@);
    s
}

/// Heading of a search listing: `search: '<a AND b>' (<n> hits)`.
pub fn search_title(valid: &[String], hits: usize) -> (r: String)
    ensures
        r@ == "search: '"@ + joined(string_views(valid@), " AND "@) + "' ("@ + dec(hits as nat) + " hits)"@,
{
    let mut s = String::from_str("search: '");
    let j = join_words(valid, " AND ");
    s.append(j.as_str());
    s.append("' (");
    push_u64(&mut s, hits as u64);
    s.append(" hits)");
    s
}

pub open spec fn all_distinct(ws: Seq<Seq<char>>) -> bool {
    forall|i: int, j: int| 0 <= i < j < ws.len() ==> ws[i] != ws[j]
}

pub proof fn lemma_dedup_onto_distinct(acc: Seq<Seq<char>>, ws: Seq<Seq<char>>)
    requires
        all_distinct(acc),
    ensures
        all_distinct(dedup_onto(acc, ws)),
    decreases ws.len(),
{
    if ws.len() > 0 {
        lemma_dedup_onto_distinct(acc, ws.drop_last());
        let d = dedup_onto(acc, ws.drop_last());
        if !d.contains(ws.last()) {
            assert forall|i: int, j: int| 0 <= i < j < d.len() + 1 implies d.push(ws.last())[i] != d.push(
                ws.last(),
            )[j] by {
                if j == d.len() {
                    assert(d[i] == d.push(ws.last())[i]);
                }
            }
        }
    }
}

/// A search never holds the same keyword twice, however often the command
/// line repeats it.
pub proof fn law_keywords_distinct(args: Seq<Seq<char>>)
    ensures
        all_distinct(keywords_of(args)),
    decreases args.len(),
{
    if args.len() > 0 {
        law_keywords_distinct(args.drop_last());
        lemma_dedup_onto_distinct(keywords_of(args.drop_last()), words(args.last()));
    }
}

} // verus!
