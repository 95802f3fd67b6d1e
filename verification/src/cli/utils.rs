//! Strict argument parsing shared by every subcommand.
//!
//! Every flag the command line understands is enumerated; any other flag is
//! kept in `unknown_flags` so a command can refuse to run instead of
//! guessing.

use vstd::prelude::*;
use crate::num::{dec_int, parse_i64_spec, parse_unsigned, parse_usize_chars, push_i64};
use crate::text::{
    chars_of, has_char, lemma_split_on_nonempty, range_has_char, split_bounds,
    split_on, starts_with, str_eq, str_starts_with, trim, trim_range,
};

verus! {

/// Categories for history range selection.
#[derive(Debug, PartialEq, Eq)]
pub enum RangeSelection {
    /// Specific single index.
    Single(usize),
    /// Bound range of indices (start, end).
    Range(usize, usize),
    /// N most recent entries.
    Latest(usize),
}

/// Strict command line argument container.
pub struct ArgContext {
    pub raw: bool,
    pub full: bool,
    pub force: bool,
    pub verbose: bool,
    pub help: bool,
    pub version: bool,
    pub use_id: bool,
    /// Ordered list of non-flag arguments.
    pub positionals: Vec<String>,
    /// List of flags not recognized by the global parser.
    pub unknown_flags: Vec<String>,
}

/// The content of an `ArgContext` as mathematical values.
pub struct ArgView {
    pub raw: bool,
    pub full: bool,
    pub force: bool,
    pub verbose: bool,
    pub help: bool,
    pub version: bool,
    pub use_id: bool,
    pub positionals: Seq<Seq<char>>,
    pub unknown_flags: Seq<Seq<char>>,
}

pub open spec fn string_views(v: Seq<String>) -> Seq<Seq<char>> {
    v.map_values(|s: String| s@)
}

impl View for ArgContext {
    type V = ArgView;

    open spec fn view(&self) -> ArgView {
        ArgView {
            raw: self.raw,
            full: self.full,
            force: self.force,
            verbose: self.verbose,
            help: self.help,
            version: self.version,
            use_id: self.use_id,
            positionals: string_views(self.positionals@),
            unknown_flags: string_views(self.unknown_flags@),
        }
    }
}

pub open spec fn empty_args() -> ArgView {
    ArgView {
        raw: false,
        full: false,
        force: false,
        verbose: false,
        help: false,
        version: false,
        use_id: false,
        positionals: Seq::empty(),
        unknown_flags: Seq::empty(),
    }
}

/// The effect of a `--long` flag.
pub open spec fn long_flag(c: ArgView, arg: Seq<char>) -> ArgView {
    if arg == "--raw"@ {
        ArgView { raw: true, ..c }
    } else if arg == "--full"@ {
        ArgView { full: true, ..c }
    } else if arg == "--force"@ {
        ArgView { force: true, ..c }
    } else if arg == "--verbose"@ {
        ArgView { verbose: true, ..c }
    } else if arg == "--help"@ {
        ArgView { help: true, ..c }
    } else if arg == "--version"@ {
        ArgView { version: true, ..c }
    } else if arg == "--id"@ {
        ArgView { use_id: true, ..c }
    } else {
        ArgView { unknown_flags: c.unknown_flags.push(arg), ..c }
    }
}

/// The effect of one character of a `-xyz` cluster.
pub open spec fn short_flag(c: ArgView, f: char) -> ArgView {
    if f == 'R' {
        ArgView { raw: true, ..c }
    } else if f == 'A' {
        ArgView { full: true, ..c }
    } else if f == 'f' {
        ArgView { force: true, ..c }
    } else if f == 'v' {
        ArgView { verbose: true, ..c }
    } else if f == 'h' {
        ArgView { help: true, ..c }
    } else if f == 'V' {
        ArgView { version: true, ..c }
    } else if f == 'i' {
        ArgView { use_id: true, ..c }
    } else {
        ArgView { unknown_flags: c.unknown_flags.push(seq!['-', f]), ..c }
    }
}

/// The effect of the characters `fs` of a short-flag cluster, in order.
pub open spec fn short_flags(c: ArgView, fs: Seq<char>) -> ArgView
    decreases fs.len(),
{
    if fs.len() == 0 {
        c
    } else {
        short_flag(short_flags(c, fs.drop_last()), fs.last())
    }
}

/// Whether an argument is a `-xyz` short-flag cluster.
pub open spec fn is_short_cluster(arg: Seq<char>) -> bool {
    !starts_with(arg, "--"@) && arg.len() > 1 && arg[0] == '-'
}

/// The effect of one argument.
pub open spec fn arg_step(c: ArgView, arg: Seq<char>) -> ArgView {
    if starts_with(arg, "--"@) {
        long_flag(c, arg)
    } else if is_short_cluster(arg) {
        short_flags(c, arg.drop_first())
    } else {
        ArgView { positionals: c.positionals.push(arg), ..c }
    }
}

/// The context built from `args`, each read in order.
pub open spec fn args_fold(args: Seq<Seq<char>>) -> ArgView
    decreases args.len(),
{
    if args.len() == 0 {
        empty_args()
    } else {
        arg_step(args_fold(args.drop_last()), args.last())
    }
}

/// The context of a full command line: the program name and the
/// subcommand (the first two arguments) are skipped.
pub open spec fn parse_args(args: Seq<Seq<char>>) -> ArgView {
    if args.len() <= 2 {
        empty_args()
    } else {
        args_fold(args.skip(2))
    }
}

impl ArgContext {
    fn apply_long(&mut self, arg: &String)
        ensures
            final(self)@ == long_flag(old(self)@, arg@),
    {
        let a = arg.as_str();
        if str_eq(a, "--raw") {
            self.raw = true;
        } else if str_eq(a, "--full") {
            self.full = true;
        } else if str_eq(a, "--force") {
            self.force = true;
        } else if str_eq(a, "--verbose") {
            self.verbose = true;
        } else if str_eq(a, "--help") {
            self.help = true;
        } else if str_eq(a, "--version") {
            self.version = true;
        } else if str_eq(a, "--id") {
            self.use_id = true;
        } else {
            self.unknown_flags.push(arg.clone());
            assert(string_views(self.unknown_flags@) =~= string_views(
                old(self).unknown_flags@,
            ).push(arg@));
        }
    }

    fn apply_short(&mut self, f: char)
        ensures
            final(self)@ == short_flag(old(self)@, f),
    {
        if f == 'R' {
            self.raw = true;
        } else if f == 'A' {
            self.full = true;
        } else if f == 'f' {
            self.force = true;
        } else if f == 'v' {
            self.verbose = true;
        } else if f == 'h' {
            self.help = true;
        } else if f == 'V' {
            self.version = true;
        } else if f == 'i' {
            self.use_id = true;
        } else {
            let mut s = String::new();
            s.push('-');
            s.push(f);
            assert(s@ =~= seq!['-', f]);
            self.unknown_flags.push(s);
            assert(string_views(self.unknown_flags@) =~= string_views(
                old(self).unknown_flags@,
            ).push(seq!['-', f]));
        }
    }

    /// Dissects raw arguments, skipping the executable and subcommand names:
    /// `--long` flags and `-xyz` clusters are matched against the known
    /// flags, unknown ones are collected in `unknown_flags`, and everything
    /// else (including a lone `-`) is a positional argument.
    pub fn parse(args: &[String]) -> (r: Self)
        ensures
            r@ == parse_args(args@.map_values(|s: String| s@)),
    {
        let ghost all = args@.map_values(|s: String| s@);
        let mut ctx = ArgContext {
            raw: false,
            full: false,
            force: false,
            verbose: false,
            help: false,
            version: false,
            use_id: false,
            positionals: Vec::new(),
            unknown_flags: Vec::new(),
        };
        assert(string_views(ctx.positionals@) =~= Seq::<Seq<char>>::empty());
        assert(string_views(ctx.unknown_flags@) =~= Seq::<Seq<char>>::empty());
        assert(ctx@ == empty_args());
        if args.len() <= 2 {
            return ctx;
        }
        let mut i: usize = 2;
        assert(all.skip(2).subrange(0, 0) =~= Seq::<Seq<char>>::empty());
        while i < args.len()
            invariant
                2 <= i <= args@.len(),
                all == args@.map_values(|s: String| s@),
                ctx@ == args_fold(all.skip(2).subrange(0, i - 2)),
            decreases args@.len() - i,
        {
            let arg = &args[i];
            let ghost prefix = all.skip(2).subrange(0, i - 2);
            assert(all.skip(2).subrange(0, i + 1 - 2).drop_last() =~= prefix);
            assert(all.skip(2).subrange(0, i + 1 - 2).last() == arg@);
            let a = arg.as_str();
            if str_starts_with(a, "--") {
                ctx.apply_long(arg);
            } else {
                let cs = chars_of(a);
                if cs.len() > 1 && cs[0] == '-' {
                    let ghost before = ctx@;
                    let mut k: usize = 1;
                    assert(cs@.drop_first().subrange(0, 0) =~= Seq::<char>::empty());
                    while k < cs.len()
                        invariant
                            1 <= k <= cs@.len(),
                            ctx@ == short_flags(before, cs@.drop_first().subrange(0, k - 1)),
                        decreases cs@.len() - k,
                    {
                        assert(cs@.drop_first().subrange(0, k as int).drop_last()
                            =~= cs@.drop_first().subrange(0, k - 1));
                        ctx.apply_short(cs[k]);
                        k = k + 1;
                    }
                    assert(cs@.drop_first().subrange(0, cs@.len() - 1) =~= cs@.drop_first());
                } else {
                    ctx.positionals.push(arg.clone());
                    assert(string_views(ctx.positionals@) =~= args_fold(prefix).positionals.push(
                        arg@,
                    ));
                }
            }
            i = i + 1;
        }
        assert(all.skip(2).subrange(0, args@.len() - 2) =~= all.skip(2));
        ctx
    }
}

/// Whether an argument looks like an option (starts with `-`).
pub fn is_option(arg: &str) -> (r: bool)
    ensures
        r == (arg@.len() > 0 && arg@[0] == '-'),
{
    let cs = chars_of(arg);
    cs.len() > 0 && cs[0] == '-'
}

/// Whether any argument is exactly `long` or `short`.
pub fn has_flag(args: &[String], long: &str, short: &str) -> (r: bool)
    ensures
        r == (exists|i: int| 0 <= i < args@.len() && (args@[i]@ == long@ || args@[i]@ == short@)),
{
    let mut i: usize = 0;
    while i < args.len()
        invariant
            i <= args@.len(),
            forall|j: int| 0 <= j < i ==> !(args@[j]@ == long@ || args@[j]@ == short@),
        decreases args@.len() - i,
    {
        if str_eq(args[i].as_str(), long) || str_eq(args[i].as_str(), short) {
            return true;
        }
        i = i + 1;
    }
    false
}

// ---------------------------------------------------------------------------
// Laws of the argument parser.

/// Whether an argument is one of the seven recognised long flags.
pub open spec fn known_long(a: Seq<char>) -> bool {
    a == "--raw"@ || a == "--full"@ || a == "--force"@ || a == "--verbose"@ || a == "--help"@
        || a == "--version"@ || a == "--id"@
}

/// Whether an argument is neither a `--long` flag nor a short-flag cluster.
pub open spec fn is_plain(a: Seq<char>) -> bool {
    !starts_with(a, "--"@) && !is_short_cluster(a)
}

/// The plain (non-flag) arguments among `args`, in order.
pub open spec fn plain_args(args: Seq<Seq<char>>) -> Seq<Seq<char>>
    decreases args.len(),
{
    if args.len() == 0 {
        Seq::empty()
    } else {
        let p = plain_args(args.drop_last());
        if is_plain(args.last()) {
            p.push(args.last())
        } else {
            p
        }
    }
}

/// `q` begins with all of `p`.
pub open spec fn extends<T>(p: Seq<T>, q: Seq<T>) -> bool {
    p.len() <= q.len() && q.subrange(0, p.len() as int) == p
}

proof fn lemma_extends_trans<T>(a: Seq<T>, b: Seq<T>, c: Seq<T>)
    requires
        extends(a, b),
        extends(b, c),
    ensures
        extends(a, c),
{
    assert(c.subrange(0, a.len() as int) =~= c.subrange(0, b.len() as int).subrange(
        0,
        a.len() as int,
    ));
}

proof fn lemma_short_flag_extends(c: ArgView, f: char)
    ensures
        short_flag(c, f).positionals == c.positionals,
        extends(c.unknown_flags, short_flag(c, f).unknown_flags),
{
    let r = short_flag(c, f);
    if r.unknown_flags.len() > c.unknown_flags.len() {
        assert(r.unknown_flags.subrange(0, c.unknown_flags.len() as int) =~= c.unknown_flags);
    } else {
        assert(r.unknown_flags.subrange(0, c.unknown_flags.len() as int) =~= c.unknown_flags);
    }
}

proof fn lemma_short_flags_frame(c: ArgView, fs: Seq<char>)
    ensures
        short_flags(c, fs).positionals == c.positionals,
        extends(c.unknown_flags, short_flags(c, fs).unknown_flags),
    decreases fs.len(),
{
    if fs.len() > 0 {
        lemma_short_flags_frame(c, fs.drop_last());
        let p = short_flags(c, fs.drop_last());
        lemma_short_flag_extends(p, fs.last());
        lemma_extends_trans(c.unknown_flags, p.unknown_flags, short_flag(p, fs.last()).unknown_flags);
    } else {
        assert(c.unknown_flags.subrange(0, c.unknown_flags.len() as int) =~= c.unknown_flags);
    }
}

proof fn lemma_step_keeps_unknown(c: ArgView, a: Seq<char>)
    ensures
        extends(c.unknown_flags, arg_step(c, a).unknown_flags),
{
    let r = arg_step(c, a);
    if starts_with(a, "--"@) {
        assert(r.unknown_flags.subrange(0, c.unknown_flags.len() as int) =~= c.unknown_flags);
    } else if is_short_cluster(a) {
        lemma_short_flags_frame(c, a.drop_first());
    } else {
        assert(r.unknown_flags.subrange(0, c.unknown_flags.len() as int) =~= c.unknown_flags);
    }
}

proof fn lemma_fold_positionals(args: Seq<Seq<char>>)
    ensures
        args_fold(args).positionals == plain_args(args),
    decreases args.len(),
{
    if args.len() > 0 {
        lemma_fold_positionals(args.drop_last());
        let c = args_fold(args.drop_last());
        if !starts_with(args.last(), "--"@) && is_short_cluster(args.last()) {
            lemma_short_flags_frame(c, args.last().drop_first());
        }
    }
}

proof fn lemma_fold_keeps_unknown_long(args: Seq<Seq<char>>)
    ensures
        forall|i: int|
            0 <= i < args.len() && starts_with(#[trigger] args[i], "--"@) && !known_long(args[i])
                ==> args_fold(args).unknown_flags.contains(args[i]),
    decreases args.len(),
{
    if args.len() > 0 {
        let prev = args.drop_last();
        lemma_fold_keeps_unknown_long(prev);
        let c = args_fold(prev);
        lemma_step_keeps_unknown(c, args.last());
        assert forall|i: int|
            0 <= i < args.len() && starts_with(#[trigger] args[i], "--"@) && !known_long(
                args[i],
            ) implies args_fold(args).unknown_flags.contains(args[i]) by {
            if i < args.len() - 1 {
                assert(prev[i] == args[i]);
                assert(c.unknown_flags.contains(args[i]));
                let k = choose|k: int| 0 <= k < c.unknown_flags.len() && c.unknown_flags[k] == args[i];
                let r = args_fold(args).unknown_flags;
                assert(r.subrange(0, c.unknown_flags.len() as int)[k] == r[k]);
                assert(r[k] == args[i]);
            } else {
                let n = c.unknown_flags.len();
                assert(args_fold(args).unknown_flags[n as int] == args[i]);
            }
        }
    }
}

/// Law: the parser drops nothing it does not understand. Its positional
/// arguments are exactly the non-flag arguments after the subcommand, in
/// order, and every `--long` flag outside the seven recognised ones is
/// kept in `unknown_flags`.
pub proof fn law_args_nothing_dropped(args: Seq<Seq<char>>)
    requires
        args.len() > 2,
    ensures
        parse_args(args).positionals == plain_args(args.skip(2)),
        forall|i: int|
            2 <= i < args.len() && starts_with(#[trigger] args[i], "--"@) && !known_long(args[i])
                ==> parse_args(args).unknown_flags.contains(args[i]),
{
    lemma_fold_positionals(args.skip(2));
    lemma_fold_keeps_unknown_long(args.skip(2));
    assert forall|i: int|
        2 <= i < args.len() && starts_with(#[trigger] args[i], "--"@) && !known_long(args[i])
            implies parse_args(args).unknown_flags.contains(args[i]) by {
        assert(args.skip(2)[i - 2] == args[i]);
    }
}

// ---------------------------------------------------------------------------
// Range and target resolution.

pub proof fn lemma_split_on_two_pieces<T>(s: Seq<T>, d: T)
    requires
        has_char(s, d),
    ensures
        split_on(s, d).len() >= 2,
    decreases s.len(),
{
    lemma_split_on_nonempty(s.drop_last(), d);
    if s.last() != d {
        let w = choose|w: int| 0 <= w < s.len() && s[w] == d;
        assert(s.drop_last()[w] == d);
        lemma_split_on_two_pieces(s.drop_last(), d);
    }
}

/// One side of an `a-b` range: empty means "not given".
pub open spec fn range_bound(part: Seq<char>) -> Result<Option<nat>, Seq<char>> {
    let t = trim(part);
    if t.len() == 0 {
        Ok(None)
    } else {
        match parse_unsigned(t, usize::MAX as nat) {
            Some(n) => Ok(Some(n)),
            None => Err("invalid index: "@ + t),
        }
    }
}

/// What a range argument selects: `None` the `default_limit` most recent
/// entries; `n` the single index `n`; `a-b` the indices from `min(a, b)` to
/// `max(a, b)`; `a-` from `a` over `default_limit` more; `-b` from 0 to `b`.
pub open spec fn range_selection(arg: Option<Seq<char>>, default_limit: usize) -> Result<
    RangeSelection,
    Seq<char>,
> {
    match arg {
        None => Ok(RangeSelection::Latest(default_limit)),
        Some(a) => {
            let s = trim(a);
            if has_char(s, '-') {
                let parts = split_on(s, '-');
                match range_bound(parts[0]) {
                    Err(e) => Err(e),
                    Ok(n1) => match range_bound(parts[1]) {
                        Err(e) => Err(e),
                        Ok(n2) => match (n1, n2) {
                            (Some(x), Some(y)) => Ok(
                                RangeSelection::Range(
                                    if x <= y {
                                        x as usize
                                    } else {
                                        y as usize
                                    },
                                    if x <= y {
                                        y as usize
                                    } else {
                                        x as usize
                                    },
                                ),
                            ),
                            (Some(x), None) => Ok(
                                RangeSelection::Range(
                                    x as usize,
                                    if x + default_limit > usize::MAX {
                                        usize::MAX
                                    } else {
                                        (x + default_limit) as usize
                                    },
                                ),
                            ),
                            (None, Some(y)) => Ok(RangeSelection::Range(0, y as usize)),
                            (None, None) => Err("invalid range: "@ + s),
                        },
                    },
                }
            } else {
                match parse_unsigned(s, usize::MAX as nat) {
                    Some(n) => Ok(RangeSelection::Single(n as usize)),
                    None => Err("invalid ID: "@ + s),
                }
            }
        },
    }
}

fn parse_bound(v: &Vec<char>, a: usize, b: usize) -> (r: Result<Option<usize>, String>)
    requires
        a <= b <= v.len(),
    ensures
        match r {
            Ok(Some(n)) => range_bound(v@.subrange(a as int, b as int)) == Ok::<
                Option<nat>,
                Seq<char>,
            >(Some(n as nat)),
            Ok(None) => range_bound(v@.subrange(a as int, b as int)) == Ok::<
                Option<nat>,
                Seq<char>,
            >(None),
            Err(e) => range_bound(v@.subrange(a as int, b as int)) == Err::<Option<nat>, Seq<char>>(
                e@,
            ),
        },
{
    let (ta, tb) = trim_range(v, a, b);
    if ta == tb {
        return Ok(None);
    }
    match parse_usize_chars(v, ta, tb) {
        Some(n) => Ok(Some(n)),
        None => {
            let mut e = String::from_str("invalid index: ");
            crate::text::push_range(&mut e, v, ta, tb);
            Err(e)
        },
    }
}

/// Parses a history range argument (see `range_selection`). A `Range`
/// result always runs from its smaller to its larger end.
pub fn parse_range(arg: Option<&String>, default_limit: usize) -> (r: Result<RangeSelection, String>)
    ensures
        match r {
            Ok(sel) => range_selection(
                match arg {
                    Some(a) => Some(a@),
                    None => None,
                },
                default_limit,
            ) == Ok::<RangeSelection, Seq<char>>(sel),
            Err(e) => range_selection(
                match arg {
                    Some(a) => Some(a@),
                    None => None,
                },
                default_limit,
            ) == Err::<RangeSelection, Seq<char>>(e@),
        },
        r matches Ok(RangeSelection::Range(start, end)) ==> start <= end,
{
    let a = match arg {
        None => return Ok(RangeSelection::Latest(default_limit)),
        Some(a) => a,
    };
    let v = chars_of(a.as_str());
    assert(v@.subrange(0, v@.len() as int) =~= v@);
    let (sa, sb) = trim_range(&v, 0, v.len());
    let ghost s = v@.subrange(sa as int, sb as int);
    if range_has_char(&v, sa, sb, '-') {
        let parts = split_bounds(&v, sa, sb, '-');
        proof {
            lemma_split_on_two_pieces(s, '-');
        }
        let n1 = match parse_bound(&v, parts[0].0, parts[0].1) {
            Ok(n) => n,
            Err(e) => return Err(e),
        };
        let n2 = match parse_bound(&v, parts[1].0, parts[1].1) {
            Ok(n) => n,
            Err(e) => return Err(e),
        };
        match (n1, n2) {
            (Some(x), Some(y)) => {
                if x <= y {
                    Ok(RangeSelection::Range(x, y))
                } else {
                    Ok(RangeSelection::Range(y, x))
                }
            },
            (Some(x), None) => Ok(RangeSelection::Range(x, x.saturating_add(default_limit))),
            (None, Some(y)) => Ok(RangeSelection::Range(0, y)),
            (None, None) => {
                let mut e = String::from_str("invalid range: ");
                crate::text::push_range(&mut e, &v, sa, sb);
                Err(e)
            },
        }
    } else {
        match parse_usize_chars(&v, sa, sb) {
            Some(n) => Ok(RangeSelection::Single(n)),
            None => {
                let mut e = String::from_str("invalid ID: ");
                crate::text::push_range(&mut e, &v, sa, sb);
                Err(e)
            },
        }
    }
}

/// The record a positional target argument names: the number itself when
/// `use_id` (a stable ID), else the ID at that position of the MRU order
/// `mru_ids`. A non-number, a negative number, or a position past the end
/// is an error naming the offending input.
pub open spec fn target_id(input: Seq<char>, use_id: bool, mru_ids: Seq<i64>) -> Result<
    i64,
    Seq<char>,
> {
    match parse_i64_spec(input) {
        None => Err("invalid numerical value: '"@ + input + "'"@),
        Some(v) => if v < 0 {
            Err("index cannot be negative: "@ + dec_int(v))
        } else if use_id {
            Ok(v as i64)
        } else if v < mru_ids.len() {
            Ok(mru_ids[v])
        } else {
            Err("index ["@ + dec_int(v) + "] is out of bounds."@)
        },
    }
}

/// A negative position is refused outright, naming the input, before it
/// could ever be used as an index; with `--id` too.
pub proof fn law_negative_target_refused(input: Seq<char>, use_id: bool, mru_ids: Seq<i64>)
    requires
        parse_i64_spec(input) matches Some(v) && v < 0,
    ensures
        target_id(input, use_id, mru_ids) == Err::<i64, Seq<char>>(
            "index cannot be negative: "@ + dec_int(parse_i64_spec(input)->0),
        ),
{
}

/// A position names the record at that place of the MRU order.
pub proof fn law_position_names_mru_record(input: Seq<char>, mru_ids: Seq<i64>)
    requires
        parse_i64_spec(input) matches Some(v) && 0 <= v < mru_ids.len(),
    ensures
        target_id(input, false, mru_ids) == Ok::<i64, Seq<char>>(mru_ids[parse_i64_spec(input)->0]),
{
}

/// Resolves a positional target argument to a stable record ID (see
/// `target_id`). Parsing as a signed number is what lets `-1` be refused
/// here instead of wrapping around to a huge index.
pub fn resolve_target_id(input: &str, use_id: bool, mru_ids: &[i64]) -> (r: Result<i64, String>)
    ensures
        match r {
            Ok(id) => target_id(input@, use_id, mru_ids@) == Ok::<i64, Seq<char>>(id),
            Err(e) => target_id(input@, use_id, mru_ids@) == Err::<i64, Seq<char>>(e@),
        },
{
    let val = match crate::num::parse_i64_str(input) {
        Some(v) => v,
        None => {
            let mut e = String::from_str("invalid numerical value: '");
            e.append(input);
            e.append("'");
            return Err(e);
        },
    };
    if val < 0 {
        let mut e = String::from_str("index cannot be negative: ");
        push_i64(&mut e, val);
        return Err(e);
    }
    if use_id {
        return Ok(val);
    }
    if (val as u64) < (mru_ids.len() as u64) {
        Ok(mru_ids[val as usize])
    } else {
        let mut e = String::from_str("index [");
        push_i64(&mut e, val);
        e.append("] is out of bounds.");
        Err(e)
    }
}

} // verus!
