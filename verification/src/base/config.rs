//! User configuration (`y4p.toml`) and its lenient parser.
//!
//! The parser reads the fixed subset of TOML the schema needs: `[section]`
//! headers, `key = value` pairs (booleans, positive integers, single- or
//! multi-line arrays of quoted strings), and `#` comments outside quoted
//! strings. Anything it does not recognise is skipped, leaving the field at
//! its default.

use vstd::prelude::*;
use crate::base::constants::{CONFIG_FILE_NAME, DB_DIR_NAME, DEFAULT_MAX_HISTORY};
use crate::num::{parse_unsigned, parse_usize_chars};
use crate::text::{
    chars_of, ends_with, has_char, lemma_single_affix, lemma_split_on_nonempty, lower, range_has_char, split_bounds,
    split_on, starts_with, string_of_range, trim, trim_range, eq_ignore_ascii_case,
};

verus! {

#[derive(Debug, Clone, PartialEq)]
pub struct GeneralConfig {
    pub max_history: usize,
}

#[derive(Debug, Clone, PartialEq)]
pub struct ImageConfig {
    /// When enabled, fetches the original remote image referenced by HTML
    /// offers; off by default so nothing touches the network without opt-in.
    pub hijack_original: bool,
}

#[derive(Debug, Clone, PartialEq)]
pub struct SanitizeConfig {
    pub strip_tracking: bool,
}

#[derive(Debug, Clone, PartialEq)]
pub struct MimeConfig {
    pub drop_rtf: bool,
    pub downgrade_html: bool,
}

#[derive(Debug, Clone, PartialEq)]
pub struct AppConfig {
    pub ignore: Vec<String>,
    pub bypass_sanitize: Vec<String>,
}

#[derive(Debug, Clone, PartialEq)]
pub struct Config {
    pub general: GeneralConfig,
    pub image: ImageConfig,
    pub sanitize: SanitizeConfig,
    pub mime: MimeConfig,
    pub app: AppConfig,
}

/// The settings a `Config` holds, as mathematical values.
pub struct ConfigView {
    pub max_history: nat,
    pub hijack_original: bool,
    pub strip_tracking: bool,
    pub drop_rtf: bool,
    pub downgrade_html: bool,
    pub ignore: Seq<Seq<char>>,
    pub bypass_sanitize: Seq<Seq<char>>,
}

pub open spec fn string_views(v: Seq<String>) -> Seq<Seq<char>> {
    v.map_values(|s: String| s@)
}

impl View for Config {
    type V = ConfigView;

    open spec fn view(&self) -> ConfigView {
        ConfigView {
            max_history: self.general.max_history as nat,
            hijack_original: self.image.hijack_original,
            strip_tracking: self.sanitize.strip_tracking,
            drop_rtf: self.mime.drop_rtf,
            downgrade_html: self.mime.downgrade_html,
            ignore: string_views(self.app.ignore@),
            bypass_sanitize: string_views(self.app.bypass_sanitize@),
        }
    }
}

/// The built-in defaults: history of `DEFAULT_MAX_HISTORY`, no image
/// fetching, tracking stripped, RTF dropped, HTML downgraded, no app rules.
pub open spec fn default_config() -> ConfigView {
    ConfigView {
        max_history: DEFAULT_MAX_HISTORY as nat,
        hijack_original: false,
        strip_tracking: true,
        drop_rtf: true,
        downgrade_html: true,
        ignore: Seq::empty(),
        bypass_sanitize: Seq::empty(),
    }
}

impl Default for GeneralConfig {
    fn default() -> (r: Self)
        ensures
            r.max_history == DEFAULT_MAX_HISTORY,
    {
        GeneralConfig { max_history: DEFAULT_MAX_HISTORY }
    }
}

impl Default for ImageConfig {
    fn default() -> (r: Self)
        ensures
            !r.hijack_original,
    {
        ImageConfig { hijack_original: false }
    }
}

impl Default for SanitizeConfig {
    fn default() -> (r: Self)
        ensures
            r.strip_tracking,
    {
        SanitizeConfig { strip_tracking: true }
    }
}

impl Default for MimeConfig {
    fn default() -> (r: Self)
        ensures
            r.drop_rtf,
            r.downgrade_html,
    {
        MimeConfig { drop_rtf: true, downgrade_html: true }
    }
}

impl Default for AppConfig {
    fn default() -> (r: Self)
        ensures
            r.ignore@.len() == 0,
            r.bypass_sanitize@.len() == 0,
    {
        AppConfig { ignore: Vec::new(), bypass_sanitize: Vec::new() }
    }
}

impl Default for Config {
    fn default() -> (r: Self)
        ensures
            r@ == default_config(),
    {
        let r = Config {
            general: GeneralConfig::default(),
            image: ImageConfig::default(),
            sanitize: SanitizeConfig::default(),
            mime: MimeConfig::default(),
            app: AppConfig::default(),
        };
        assert(string_views(r.app.ignore@) =~= Seq::<Seq<char>>::empty());
        assert(string_views(r.app.bypass_sanitize@) =~= Seq::<Seq<char>>::empty());
        r
    }
}

// ---------------------------------------------------------------------------
// The parser's specification.

/// A line without one trailing `\r`.
pub open spec fn strip_cr(line: Seq<char>) -> Seq<char> {
    if line.len() > 0 && line.last() == '\r' {
        line.drop_last()
    } else {
        line
    }
}

/// `str::lines`: pieces between `\n`s; a `\r` right before a `\n` is
/// dropped; a final empty piece (trailing newline, or empty text) is not a
/// line.
pub open spec fn lines_of(s: Seq<char>) -> Seq<Seq<char>> {
    let p = split_on(s, '\n');
    let body = p.drop_last().map_values(|l: Seq<char>| strip_cr(l));
    if p.last().len() > 0 {
        body.push(p.last())
    } else {
        body
    }
}

/// Where a `#` comment starts in `s`, scanning from `i` with `in_str`
/// telling whether a `"`-quoted string is open; the length when none does.
pub open spec fn comment_cut(s: Seq<char>, i: int, in_str: bool) -> int
    decreases s.len() - i,
{
    if i < 0 || i >= s.len() {
        s.len() as int
    } else if s[i] == '"' {
        comment_cut(s, i + 1, !in_str)
    } else if s[i] == '#' && !in_str {
        i
    } else {
        comment_cut(s, i + 1, in_str)
    }
}

/// A line without its trailing `#` comment (a `#` inside `"..."` is kept).
pub open spec fn without_comment(line: Seq<char>) -> Seq<char> {
    line.take(comment_cut(line, 0, false))
}

/// The comment-stripped lines of a configuration text.
pub open spec fn config_lines(content: Seq<char>) -> Seq<Seq<char>> {
    lines_of(content).map_values(|l: Seq<char>| without_comment(l))
}

/// Position of the first `c` in `s` (the length when none).
pub open spec fn first_index(s: Seq<char>, c: char) -> int
    decreases s.len(),
{
    if s.len() == 0 {
        0
    } else if s[0] == c {
        0
    } else {
        1 + first_index(s.drop_first(), c)
    }
}

/// Position of the last `c` in `s`, if any.
pub open spec fn last_index(s: Seq<char>, c: char) -> Option<int>
    decreases s.len(),
{
    if s.len() == 0 {
        None
    } else if s.last() == c {
        Some(s.len() - 1)
    } else {
        last_index(s.drop_last(), c)
    }
}

/// One array element: a `"..."` or `'...'` quoted string, unquoted.
pub open spec fn array_element(raw: Seq<char>) -> Option<Seq<char>> {
    let t = trim(raw);
    if t.len() >= 2 && ((t[0] == '"' && t.last() == '"') || (t[0] == '\'' && t.last()
        == '\'')) {
        Some(t.subrange(1, t.len() - 1))
    } else {
        None
    }
}

/// The quoted elements among `pieces`, in order; malformed ones dropped.
pub open spec fn array_elements(pieces: Seq<Seq<char>>) -> Seq<Seq<char>>
    decreases pieces.len(),
{
    if pieces.len() == 0 {
        Seq::empty()
    } else {
        let p = array_elements(pieces.drop_last());
        match array_element(pieces.last()) {
            Some(e) => p.push(e),
            None => p,
        }
    }
}

/// A string array: the quoted, comma-separated elements between the first
/// `[` and the last `]`.
pub open spec fn string_array(text: Seq<char>) -> Seq<Seq<char>> {
    let t = trim(text);
    if !has_char(t, '[') {
        Seq::empty()
    } else {
        let start = first_index(t, '[');
        match last_index(t, ']') {
            None => Seq::empty(),
            Some(end) => if start >= end {
                Seq::empty()
            } else {
                array_elements(split_on(t.subrange(start + 1, end), ','))
            },
        }
    }
}

/// `value.parse::<usize>()` accepted only when positive.
pub open spec fn positive_usize(value: Seq<char>) -> Option<nat> {
    match parse_unsigned(value, usize::MAX as nat) {
        Some(n) => if n > 0 {
            Some(n)
        } else {
            None
        },
        None => None,
    }
}

pub open spec fn bool_value(value: Seq<char>) -> Option<bool> {
    if value == "true"@ {
        Some(true)
    } else if value == "false"@ {
        Some(false)
    } else {
        None
    }
}

/// The effect of one `key = value` pair inside `[section]`.
pub open spec fn apply_setting(
    cfg: ConfigView,
    section: Seq<char>,
    key: Seq<char>,
    value: Seq<char>,
) -> ConfigView {
    if section == "general"@ && key == "max_history"@ {
        match positive_usize(value) {
            Some(n) => ConfigView { max_history: n, ..cfg },
            None => cfg,
        }
    } else if section == "image"@ && key == "hijack_original"@ {
        match bool_value(value) {
            Some(b) => ConfigView { hijack_original: b, ..cfg },
            None => cfg,
        }
    } else if section == "sanitize"@ && key == "strip_tracking"@ {
        match bool_value(value) {
            Some(b) => ConfigView { strip_tracking: b, ..cfg },
            None => cfg,
        }
    } else if section == "mime"@ && key == "drop_rtf"@ {
        match bool_value(value) {
            Some(b) => ConfigView { drop_rtf: b, ..cfg },
            None => cfg,
        }
    } else if section == "mime"@ && key == "downgrade_html"@ {
        match bool_value(value) {
            Some(b) => ConfigView { downgrade_html: b, ..cfg },
            None => cfg,
        }
    } else if section == "app"@ && key == "ignore"@ {
        ConfigView { ignore: string_array(value), ..cfg }
    } else if section == "app"@ && key == "bypass_sanitize"@ {
        ConfigView { bypass_sanitize: string_array(value), ..cfg }
    } else {
        cfg
    }
}

/// Folds the lines after an unclosed `[` into `value`, each after a space,
/// up to and including the first (trimmed) line ending in `]`; returns the
/// folded value and the index of the first line not consumed.
pub open spec fn fold_array(lines: Seq<Seq<char>>, j: int, value: Seq<char>) -> (Seq<char>, int)
    decreases lines.len() - j,
{
    if j < 0 || j >= lines.len() {
        (value, j)
    } else {
        let next = trim(lines[j]);
        let v2 = value.push(' ') + next;
        if ends_with(next, seq![']']) {
            (v2, j + 1)
        } else {
            fold_array(lines, j + 1, v2)
        }
    }
}

pub proof fn lemma_fold_array_bounds(lines: Seq<Seq<char>>, j: int, value: Seq<char>)
    requires
        0 <= j <= lines.len(),
    ensures
        j <= fold_array(lines, j, value).1 <= lines.len(),
        j < lines.len() ==> j < fold_array(lines, j, value).1,
    decreases lines.len() - j,
{
    if j < lines.len() {
        let next = trim(lines[j]);
        let v2 = value.push(' ') + next;
        if !ends_with(next, seq![']']) {
            lemma_fold_array_bounds(lines, j + 1, v2);
        }
    }
}

/// Whether a trimmed line is a `[section]` header.
pub open spec fn is_header(line: Seq<char>) -> bool {
    line.len() > 0 && line[0] == '[' && line.last() == ']' && !has_char(line, '=')
}

/// The configuration after reading `lines[i..]` inside `[section]`.
pub open spec fn parse_from(
    lines: Seq<Seq<char>>,
    i: int,
    section: Seq<char>,
    cfg: ConfigView,
) -> ConfigView
    decreases lines.len() - i,
{
    if i < 0 || i >= lines.len() {
        cfg
    } else {
        let line = trim(lines[i]);
        if line.len() == 0 {
            parse_from(lines, i + 1, section, cfg)
        } else if is_header(line) {
            parse_from(lines, i + 1, trim(line.subrange(1, line.len() - 1)), cfg)
        } else if !has_char(line, '=') {
            parse_from(lines, i + 1, section, cfg)
        } else {
            let eq = first_index(line, '=');
            let key = trim(line.take(eq));
            let v0 = trim(line.skip(eq + 1));
            if starts_with(v0, seq!['[']) && !ends_with(v0, seq![']']) {
                let folded = fold_array(lines, i + 1, v0);
                proof {
                    lemma_fold_array_bounds(lines, i + 1, v0);
                }
                parse_from(
                    lines,
                    folded.1,
                    section,
                    apply_setting(cfg, section, key, trim(folded.0)),
                )
            } else {
                parse_from(lines, i + 1, section, apply_setting(cfg, section, key, v0))
            }
        }
    }
}

/// The configuration a text describes, starting from the defaults.
pub open spec fn parse_config(content: Seq<char>) -> ConfigView {
    parse_from(config_lines(content), 0, Seq::empty(), default_config())
}

// ---------------------------------------------------------------------------
// The parser.

/// Strips the comment from the line `v[a..b]`: the absolute position where
/// its first `#` outside a double-quoted string stands (`b` when none).
fn strip_comment(v: &Vec<char>, a: usize, b: usize) -> (r: usize)
    requires
        a <= b <= v.len(),
    ensures
        a <= r <= b,
        r - a == comment_cut(v@.subrange(a as int, b as int), 0, false),
{
    let ghost line = v@.subrange(a as int, b as int);
    let mut in_str = false;
    let mut i = a;
    while i < b
        invariant
            a <= i <= b <= v.len(),
            line == v@.subrange(a as int, b as int),
            comment_cut(line, i - a, in_str) == comment_cut(line, 0, false),
        decreases b - i,
    {
        let c = v[i];
        assert(line[i - a] == c);
        if c == '"' {
            in_str = !in_str;
        } else if c == '#' && !in_str {
            return i;
        }
        i = i + 1;
    }
    i
}

proof fn lemma_comment_cut_bounds(s: Seq<char>, i: int, in_str: bool)
    requires
        0 <= i,
    ensures
        0 <= comment_cut(s, i, in_str) <= s.len(),
    decreases s.len() - i,
{
    if i < s.len() && !(s[i] == '#' && !in_str) {
        lemma_comment_cut_bounds(s, i + 1, if s[i] == '"' { !in_str } else { in_str });
    }
}

/// Bounds of the comment-stripped lines of the text `v`.
fn config_line_bounds(v: &Vec<char>) -> (r: Vec<(usize, usize)>)
    ensures
        r@.len() == config_lines(v@).len(),
        forall|k: int|
            0 <= k < r@.len() ==> (#[trigger] r@[k]).0 <= r@[k].1 <= v@.len() && v@.subrange(
                r@[k].0 as int,
                r@[k].1 as int,
            ) == config_lines(v@)[k],
{
    let segs = split_bounds(v, 0, v.len(), '\n');
    assert(v@.subrange(0, v@.len() as int) =~= v@);
    let ghost pieces = split_on(v@, '\n');
    proof {
        lemma_split_on_nonempty(v@, '\n');
    }
    let n = segs.len();
    let mut out: Vec<(usize, usize)> = Vec::new();
    let mut k: usize = 0;
    while k + 1 < n
        invariant
            n == segs@.len(),
            n == pieces.len(),
            n >= 1,
            k + 1 <= n,
            pieces == split_on(v@, '\n'),
            forall|j: int|
                0 <= j < segs@.len() ==> (#[trigger] segs@[j]).0 <= segs@[j].1 <= v@.len()
                    && v@.subrange(segs@[j].0 as int, segs@[j].1 as int) == pieces[j],
            out@.len() == k,
            forall|j: int|
                0 <= j < k ==> (#[trigger] out@[j]).0 <= out@[j].1 <= v@.len() && v@.subrange(
                    out@[j].0 as int,
                    out@[j].1 as int,
                ) == without_comment(strip_cr(pieces[j])),
        decreases n - k,
    {
        let (a, b) = segs[k];
        let e = if a < b && v[b - 1] == '\r' {
            b - 1
        } else {
            b
        };
        assert(v@.subrange(a as int, e as int) == strip_cr(pieces[k as int])) by {
            if a < b && v@[b - 1] == '\r' {
                assert(v@.subrange(a as int, b as int).drop_last() =~= v@.subrange(
                    a as int,
                    b - 1,
                ));
            }
        }
        let cut = strip_comment(v, a, e);
        assert(v@.subrange(a as int, cut as int) =~= v@.subrange(a as int, e as int).take(
            cut - a,
        ));
        out.push((a, cut));
        k = k + 1;
    }
    let (a, b) = segs[n - 1];
    if a < b {
        let cut = strip_comment(v, a, b);
        assert(v@.subrange(a as int, cut as int) =~= v@.subrange(a as int, b as int).take(
            cut - a,
        ));
        out.push((a, cut));
    }
    proof {
        let body = pieces.drop_last().map_values(|l: Seq<char>| strip_cr(l));
        let lines = if pieces.last().len() > 0 {
            body.push(pieces.last())
        } else {
            body
        };
        assert(lines == lines_of(v@));
        assert(config_lines(v@) == lines.map_values(|l: Seq<char>| without_comment(l)));
        assert forall|j: int| 0 <= j < out@.len() implies v@.subrange(
            out@[j].0 as int,
            out@[j].1 as int,
        ) == config_lines(v@)[j] by {
            if j < n - 1 {
                assert(body[j] == strip_cr(pieces[j]));
            }
        }
    }
    out
}

proof fn lemma_first_index(s: Seq<char>, c: char)
    ensures
        0 <= first_index(s, c) <= s.len(),
        first_index(s, c) < s.len() ==> s[first_index(s, c)] == c,
        forall|j: int| 0 <= j < first_index(s, c) ==> s[j] != c,
        has_char(s, c) <==> first_index(s, c) < s.len(),
    decreases s.len(),
{
    if s.len() > 0 && s[0] != c {
        lemma_first_index(s.drop_first(), c);
        let f = first_index(s, c);
        assert forall|j: int| 0 <= j < f implies s[j] != c by {
            if j > 0 {
                assert(s[j] == s.drop_first()[j - 1]);
            }
        }
        if has_char(s, c) {
            let w = choose|w: int| 0 <= w < s.len() && s[w] == c;
            assert(s.drop_first()[w - 1] == c);
        }
        if f < s.len() {
            assert(s.drop_first()[f - 1] == c);
        }
    }
}

/// Absolute position of the first `c` in `v[a..b]`, or `b`.
fn first_index_range(v: &Vec<char>, a: usize, b: usize, c: char) -> (r: usize)
    requires
        a <= b <= v.len(),
    ensures
        a <= r <= b,
        r - a == first_index(v@.subrange(a as int, b as int), c),
{
    let mut i = a;
    while i < b && v[i] != c
        invariant
            a <= i <= b <= v.len(),
            first_index(v@.subrange(a as int, b as int), c) == (i - a) + first_index(
                v@.subrange(i as int, b as int),
                c,
            ),
        decreases b - i,
    {
        assert(v@.subrange(i as int, b as int).drop_first() =~= v@.subrange(i + 1, b as int));
        i = i + 1;
    }
    i
}

proof fn lemma_last_index(s: Seq<char>, c: char)
    ensures
        last_index(s, c) matches Some(k) ==> 0 <= k < s.len() && s[k] == c,
    decreases s.len(),
{
    if s.len() > 0 && s.last() != c {
        lemma_last_index(s.drop_last(), c);
    }
}

/// Absolute position of the last `c` in `v[a..b]`, if any.
fn last_index_range(v: &Vec<char>, a: usize, b: usize, c: char) -> (r: Option<usize>)
    requires
        a <= b <= v.len(),
    ensures
        match r {
            Some(k) => a <= k < b && last_index(v@.subrange(a as int, b as int), c) == Some(
                k - a,
            ),
            None => last_index(v@.subrange(a as int, b as int), c).is_none(),
        },
{
    let mut j = b;
    while j > a && v[j - 1] != c
        invariant
            a <= j <= b <= v.len(),
            last_index(v@.subrange(a as int, b as int), c) == last_index(
                v@.subrange(a as int, j as int),
                c,
            ),
        decreases j - a,
    {
        assert(v@.subrange(a as int, j as int).drop_last() =~= v@.subrange(a as int, j - 1));
        j = j - 1;
    }
    if j > a {
        Some(j - 1)
    } else {
        None
    }
}

/// The elements of the string array written in `v[lo..hi]`.
fn parse_string_array(v: &Vec<char>, lo: usize, hi: usize) -> (r: Vec<String>)
    requires
        lo <= hi <= v.len(),
    ensures
        string_views(r@) == string_array(v@.subrange(lo as int, hi as int)),
{
    let (ta, tb) = trim_range(v, lo, hi);
    let ghost t = v@.subrange(ta as int, tb as int);
    let mut out: Vec<String> = Vec::new();
    assert(string_views(out@) =~= Seq::<Seq<char>>::empty());
    let start = first_index_range(v, ta, tb, '[');
    proof {
        lemma_first_index(t, '[');
    }
    if start == tb {
        return out;
    }
    let end = match last_index_range(v, ta, tb, ']') {
        Some(e) => e,
        None => return out,
    };
    if start >= end {
        return out;
    }
    assert(t.subrange(start - ta + 1, end - ta) =~= v@.subrange(start + 1, end as int));
    let segs = split_bounds(v, start + 1, end, ',');
    let ghost pieces = split_on(v@.subrange(start + 1, end as int), ',');
    let mut k: usize = 0;
    assert(pieces.subrange(0, 0) =~= Seq::<Seq<char>>::empty());
    while k < segs.len()
        invariant
            k <= segs@.len(),
            segs@.len() == pieces.len(),
            pieces == split_on(v@.subrange(start + 1, end as int), ','),
            forall|j: int|
                0 <= j < segs@.len() ==> (#[trigger] segs@[j]).0 <= segs@[j].1 <= v@.len()
                    && v@.subrange(segs@[j].0 as int, segs@[j].1 as int) == pieces[j],
            string_views(out@) == array_elements(pieces.subrange(0, k as int)),
        decreases segs@.len() - k,
    {
        let (a, b) = segs[k];
        assert(pieces.subrange(0, k + 1).drop_last() =~= pieces.subrange(0, k as int));
        assert(pieces.subrange(0, k + 1).last() == pieces[k as int]);
        let (ea, eb) = trim_range(v, a, b);
        let ghost e = v@.subrange(ea as int, eb as int);
        if eb - ea >= 2 && ((v[ea] == '"' && v[eb - 1] == '"') || (v[ea] == '\'' && v[eb - 1]
            == '\'')) {
            assert(e[0] == v@[ea as int] && e.last() == v@[eb - 1]);
            assert(e.subrange(1, e.len() - 1) =~= v@.subrange(ea + 1, eb - 1));
            let el = string_of_range(v, ea + 1, eb - 1);
            out.push(el);
            assert(string_views(out@) =~= array_elements(pieces.subrange(0, k as int)).push(
                v@.subrange(ea + 1, eb - 1),
            ));
        } else {
            assert(array_element(pieces[k as int]).is_none()) by {
                if e.len() >= 2 {
                    assert(e[0] == v@[ea as int] && e.last() == v@[eb - 1]);
                }
            }
        }
        k = k + 1;
    }
    assert(pieces.subrange(0, pieces.len() as int) =~= pieces);
    out
}

/// `true` or `false`, exactly; anything else is no boolean.
fn parse_bool(val: &Vec<char>, lo: usize, hi: usize) -> (r: Option<bool>)
    requires
        lo <= hi <= val.len(),
    ensures
        r == bool_value(val@.subrange(lo as int, hi as int)),
{
    if crate::text::range_eq(val, lo, hi, &chars_of("true")) {
        Some(true)
    } else if crate::text::range_eq(val, lo, hi, &chars_of("false")) {
        Some(false)
    } else {
        None
    }
}

/// A positive `usize`; zero, a sign other than `+`, or anything else is
/// none.
fn parse_usize(val: &Vec<char>, lo: usize, hi: usize) -> (r: Option<usize>)
    requires
        lo <= hi <= val.len(),
    ensures
        match r {
            Some(n) => positive_usize(val@.subrange(lo as int, hi as int)) == Some(n as nat),
            None => positive_usize(val@.subrange(lo as int, hi as int)) is None,
        },
{
    match parse_usize_chars(val, lo, hi) {
        Some(n) => if n > 0 {
            Some(n)
        } else {
            None
        },
        None => None,
    }
}

/// Applies one `key = value` pair, `key` and the section being ranges of `v`
/// and the value the range `vlo..vhi` of `val`.
fn apply_kv(
    config: &mut Config,
    v: &Vec<char>,
    sec: (usize, usize),
    key: (usize, usize),
    val: &Vec<char>,
    vlo: usize,
    vhi: usize,
)
    requires
        sec.0 <= sec.1 <= v.len(),
        key.0 <= key.1 <= v.len(),
        vlo <= vhi <= val.len(),
    ensures
        final(config)@ == apply_setting(
            old(config)@,
            v@.subrange(sec.0 as int, sec.1 as int),
            v@.subrange(key.0 as int, key.1 as int),
            val@.subrange(vlo as int, vhi as int),
        ),
{
    let ghost value = val@.subrange(vlo as int, vhi as int);
    let in_general = crate::text::range_eq(v, sec.0, sec.1, &chars_of("general"));
    let in_image = crate::text::range_eq(v, sec.0, sec.1, &chars_of("image"));
    let in_sanitize = crate::text::range_eq(v, sec.0, sec.1, &chars_of("sanitize"));
    let in_mime = crate::text::range_eq(v, sec.0, sec.1, &chars_of("mime"));
    let in_app = crate::text::range_eq(v, sec.0, sec.1, &chars_of("app"));
    let b = parse_bool(val, vlo, vhi);
    if in_general && crate::text::range_eq(v, key.0, key.1, &chars_of("max_history")) {
        if let Some(n) = parse_usize(val, vlo, vhi) {
            config.general.max_history = n;
        }
    } else if in_image && crate::text::range_eq(v, key.0, key.1, &chars_of("hijack_original")) {
        if let Some(x) = b {
            config.image.hijack_original = x;
        }
    } else if in_sanitize && crate::text::range_eq(v, key.0, key.1, &chars_of("strip_tracking")) {
        if let Some(x) = b {
            config.sanitize.strip_tracking = x;
        }
    } else if in_mime && crate::text::range_eq(v, key.0, key.1, &chars_of("drop_rtf")) {
        if let Some(x) = b {
            config.mime.drop_rtf = x;
        }
    } else if in_mime && crate::text::range_eq(v, key.0, key.1, &chars_of("downgrade_html")) {
        if let Some(x) = b {
            config.mime.downgrade_html = x;
        }
    } else if in_app && crate::text::range_eq(v, key.0, key.1, &chars_of("ignore")) {
        config.app.ignore = parse_string_array(val, vlo, vhi);
    } else if in_app && crate::text::range_eq(v, key.0, key.1, &chars_of("bypass_sanitize")) {
        config.app.bypass_sanitize = parse_string_array(val, vlo, vhi);
    }
}

impl Config {
    /// Parses a configuration text, starting from the defaults. Never
    /// fails: an unknown section or key, a value that does not parse as the
    /// key's type, or any other malformed line is skipped.
    pub fn parse(content: &str) -> (r: Self)
        ensures
            r@ == parse_config(content@),
    {
        let v = chars_of(content);
        let lines = config_line_bounds(&v);
        let ghost ls = config_lines(v@);
        let mut config = Config::default();
        let mut sec: (usize, usize) = (0, 0);
        assert(v@.subrange(0, 0) =~= Seq::<char>::empty());
        let mut i: usize = 0;
        while i < lines.len()
            invariant
                v@ == content@,
                ls == config_lines(v@),
                i <= lines@.len(),
                lines@.len() == ls.len(),
                forall|k: int|
                    0 <= k < lines@.len() ==> (#[trigger] lines@[k]).0 <= lines@[k].1 <= v@.len()
                        && v@.subrange(lines@[k].0 as int, lines@[k].1 as int) == ls[k],
                sec.0 <= sec.1 <= v@.len(),
                parse_from(ls, i as int, v@.subrange(sec.0 as int, sec.1 as int), config@)
                    == parse_config(content@),
            decreases lines@.len() - i,
        {
            let ghost i0 = i as int;
            let ghost section = v@.subrange(sec.0 as int, sec.1 as int);
            let (la, lb) = lines[i];
            let (a, b) = trim_range(&v, la, lb);
            let ghost line = v@.subrange(a as int, b as int);
            assert(line == trim(ls[i0]));
            i = i + 1;
            if a == b {
                continue;
            }
            let has_eq = range_has_char(&v, a, b, '=');
            if v[a] == '[' && v[b - 1] == ']' && !has_eq {
                assert(line[0] == v@[a as int] && line.last() == v@[b - 1]);
                assert(is_header(line));
                assert(line.subrange(1, line.len() - 1) =~= v@.subrange(a + 1, b - 1));
                sec = trim_range(&v, a + 1, b - 1);
                continue;
            }
            assert(!is_header(line)) by {
                assert(line[0] == v@[a as int] && line.last() == v@[b - 1]);
            }
            if !has_eq {
                continue;
            }
            let eq = first_index_range(&v, a, b, '=');
            proof {
                lemma_first_index(line, '=');
            }
            assert(line.take(eq - a) =~= v@.subrange(a as int, eq as int));
            assert(line.skip(eq - a + 1) =~= v@.subrange(eq + 1, b as int));
            let key = trim_range(&v, a, eq);
            let (va, vb) = trim_range(&v, eq + 1, b);
            let ghost v0 = v@.subrange(va as int, vb as int);
            let opens = va < vb && v[va] == '[';
            let closes = va < vb && v[vb - 1] == ']';
            proof {
                lemma_single_affix(v0, '[');
                lemma_single_affix(v0, ']');
                if va < vb {
                    assert(v0[0] == v@[va as int] && v0.last() == v@[vb - 1]);
                }
            }
            if opens && !closes {
                let mut value: Vec<char> = Vec::new();
                let mut p = va;
                while p < vb
                    invariant
                        va <= p <= vb <= v@.len(),
                        value@ == v@.subrange(va as int, p as int),
                    decreases vb - p,
                {
                    value.push(v[p]);
                    p = p + 1;
                    assert(value@ =~= v@.subrange(va as int, p as int));
                }
                let ghost folded = fold_array(ls, i as int, v0);
                let mut done = false;
                while i < lines.len() && !done
                    invariant
                        i0 < i <= lines@.len(),
                        lines@.len() == ls.len(),
                        forall|k: int|
                            0 <= k < lines@.len() ==> (#[trigger] lines@[k]).0 <= lines@[k].1
                                <= v@.len() && v@.subrange(lines@[k].0 as int, lines@[k].1 as int)
                                == ls[k],
                        folded == fold_array(ls, i0 + 1, v0),
                        !done ==> fold_array(ls, i as int, value@) == folded,
                        done ==> (value@, i as int) == folded,
                    decreases lines@.len() - i,
                {
                    let (na, nb) = lines[i];
                    let (ta, tb) = trim_range(&v, na, nb);
                    let ghost next = v@.subrange(ta as int, tb as int);
                    let ghost before = value@;
                    value.push(' ');
                    let mut q = ta;
                    while q < tb
                        invariant
                            ta <= q <= tb <= v@.len(),
                            value@ == before.push(' ') + v@.subrange(ta as int, q as int),
                        decreases tb - q,
                    {
                        value.push(v[q]);
                        q = q + 1;
                        assert(value@ =~= before.push(' ') + v@.subrange(ta as int, q as int));
                    }
                    let ends = ta < tb && v[tb - 1] == ']';
                    proof {
                        lemma_single_affix(next, ']');
                        if ta < tb {
                            assert(next.last() == v@[tb - 1]);
                        }
                    }
                    i = i + 1;
                    if ends {
                        done = true;
                    }
                }
                proof {
                    lemma_fold_array_bounds(ls, i0 + 1, v0);
                }
                assert((value@, i as int) == folded);
                let (fa, fb) = trim_range(&value, 0, value.len());
                assert(value@.subrange(0, value@.len() as int) =~= value@);
                apply_kv(&mut config, &v, sec, key, &value, fa, fb);
            } else {
                apply_kv(&mut config, &v, sec, key, &v, va, vb);
            }
        }
        config
    }
}

/// Whether `app_id` equals, ignoring ASCII case, an entry of `list`;
/// never for an unknown (`None`) app.
pub open spec fn listed_ignore_case(list: Seq<Seq<char>>, app_id: Option<Seq<char>>) -> bool {
    match app_id {
        None => false,
        Some(a) => exists|i: int| 0 <= i < list.len() && lower(#[trigger] list[i]) == lower(a),
    }
}

pub open spec fn opt_view(o: Option<&str>) -> Option<Seq<char>> {
    match o {
        Some(s) => Some(s@),
        None => None,
    }
}

fn list_contains_ignore_case(list: &Vec<String>, app_id: Option<&str>) -> (r: bool)
    ensures
        r == listed_ignore_case(string_views(list@), opt_view(app_id)),
{
    match app_id {
        None => false,
        Some(a) => list_contains_str(list, a),
    }
}

fn list_contains_str(list: &Vec<String>, a: &str) -> (r: bool)
    ensures
        r == listed_ignore_case(string_views(list@), Some(a@)),
{
    let ghost l = string_views(list@);
    let mut i: usize = 0;
    while i < list.len()
        invariant
            i <= list@.len(),
            l == string_views(list@),
            forall|j: int| 0 <= j < i ==> lower(#[trigger] l[j]) != lower(a@),
        decreases list@.len() - i,
    {
        assert(l[i as int] == list@[i as int]@);
        if eq_ignore_ascii_case(list[i].as_str(), a) {
            assert(lower(l[i as int]) == lower(a@));
            return true;
        }
        i = i + 1;
    }
    false
}

impl Config {
    /// Whether `app_id` is listed (ignoring ASCII case) in `[app] ignore`;
    /// an undetectable app (`None`) never is.
    pub fn is_app_ignored(&self, app_id: Option<&str>) -> (r: bool)
        ensures
            r == listed_ignore_case(self@.ignore, opt_view(app_id)),
    {
        list_contains_ignore_case(&self.app.ignore, app_id)
    }

    /// Whether URL tracking sanitisation is skipped for this event: globally
    /// disabled, or the source app is listed in `[app] bypass_sanitize`.
    pub fn should_bypass_sanitize(&self, app_id: Option<&str>) -> (r: bool)
        ensures
            r == (!self@.strip_tracking || listed_ignore_case(
                self@.bypass_sanitize,
                opt_view(app_id),
            )),
    {
        !self.sanitize.strip_tracking || list_contains_ignore_case(
            &self.app.bypass_sanitize,
            app_id,
        )
    }

    pub fn should_hijack_image(&self) -> (r: bool)
        ensures
            r == self@.hijack_original,
    {
        self.image.hijack_original
    }

    pub fn should_drop_rtf(&self) -> (r: bool)
        ensures
            r == self@.drop_rtf,
    {
        self.mime.drop_rtf
    }

    pub fn should_downgrade_html(&self) -> (r: bool)
        ensures
            r == self@.downgrade_html,
    {
        self.mime.downgrade_html
    }
}

// ---------------------------------------------------------------------------
// Laws.

proof fn lemma_parse_from_keeps_positive_history(
    lines: Seq<Seq<char>>,
    i: int,
    section: Seq<char>,
    cfg: ConfigView,
)
    requires
        cfg.max_history > 0,
    ensures
        parse_from(lines, i, section, cfg).max_history > 0,
    decreases lines.len() - i,
{
    if 0 <= i < lines.len() {
        let line = trim(lines[i]);
        if line.len() == 0 {
            lemma_parse_from_keeps_positive_history(lines, i + 1, section, cfg);
        } else if is_header(line) {
            lemma_parse_from_keeps_positive_history(
                lines,
                i + 1,
                trim(line.subrange(1, line.len() - 1)),
                cfg,
            );
        } else if !has_char(line, '=') {
            lemma_parse_from_keeps_positive_history(lines, i + 1, section, cfg);
        } else {
            let eq = first_index(line, '=');
            let key = trim(line.take(eq));
            let v0 = trim(line.skip(eq + 1));
            if starts_with(v0, seq!['[']) && !ends_with(v0, seq![']']) {
                let folded = fold_array(lines, i + 1, v0);
                lemma_fold_array_bounds(lines, i + 1, v0);
                lemma_parse_from_keeps_positive_history(
                    lines,
                    folded.1,
                    section,
                    apply_setting(cfg, section, key, trim(folded.0)),
                );
            } else {
                lemma_parse_from_keeps_positive_history(
                    lines,
                    i + 1,
                    section,
                    apply_setting(cfg, section, key, v0),
                );
            }
        }
    }
}

/// Law: whatever the configuration text holds, the history limit it yields
/// is positive; a zero, negative or unparseable value leaves the default.
pub proof fn law_config_history_limit_positive(content: Seq<char>)
    ensures
        parse_config(content).max_history > 0,
{
    lemma_parse_from_keeps_positive_history(config_lines(content), 0, Seq::empty(), default_config());
}

/// Law: a text with no lines (empty, or a single line break) yields exactly
/// the built-in defaults.
pub proof fn law_config_empty_is_default(content: Seq<char>)
    requires
        config_lines(content).len() == 0,
    ensures
        parse_config(content) == default_config(),
{
}

// ---------------------------------------------------------------------------
// The configuration file's location.

/// `PathBuf::push` on Unix: an absolute component replaces the path, any
/// other is appended after a `/` unless the path is empty or already ends
/// with one.
pub open spec fn path_push(base: Seq<char>, comp: Seq<char>) -> Seq<char> {
    if comp.len() > 0 && comp[0] == '/' {
        comp
    } else if base.len() == 0 || base.last() == '/' {
        base + comp
    } else {
        base.push('/') + comp
    }
}

/// Appends the path component `comp` to `path` the way `PathBuf::push` does.
pub fn push_path(path: &mut String, comp: &str)
    ensures
        final(path)@ == path_push(old(path)@, comp@),
{
    let c = chars_of(comp);
    let p = chars_of(path.as_str());
    if c.len() > 0 && c[0] == '/' {
        *path = String::from_str(comp);
    } else if p.len() == 0 || p[p.len() - 1] == '/' {
        path.append(comp);
    } else {
        path.push('/');
        path.append(comp);
    }
}

/// The directory a per-user location starts from: the XDG variable when
/// set, else `$HOME` followed by `home_suffix`, else the current directory.
pub open spec fn xdg_base(
    xdg: Option<Seq<char>>,
    home: Option<Seq<char>>,
    home_suffix: Seq<Seq<char>>,
) -> Seq<char> {
    match xdg {
        Some(x) => x,
        None => match home {
            Some(h) => if home_suffix.len() == 1 {
                path_push(h, home_suffix[0])
            } else {
                path_push(path_push(h, home_suffix[0]), home_suffix[1])
            },
            None => "."@,
        },
    }
}

/// `$XDG_CONFIG_HOME/y4p/y4p.toml`, else `$HOME/.config/y4p/y4p.toml`, else
/// `./y4p/y4p.toml`, as `PathBuf` would join them.
pub open spec fn config_path(xdg_config_home: Option<Seq<char>>, home: Option<Seq<char>>) -> Seq<
    char,
> {
    path_push(
        path_push(xdg_base(xdg_config_home, home, seq![".config"@]), DB_DIR_NAME@),
        CONFIG_FILE_NAME@,
    )
}

/// Builds the configuration file's path from the two environment values
/// it depends on.
pub fn build_config_path(xdg_config_home: Option<&str>, home: Option<&str>) -> (r: String)
    ensures
        r@ == config_path(opt_view(xdg_config_home), opt_view(home)),
{
    let mut path = match xdg_config_home {
        Some(x) => String::from_str(x),
        None => match home {
            Some(h) => {
                let mut p = String::from_str(h);
                push_path(&mut p, ".config");
                p
            },
            None => String::from_str("."),
        },
    };
    push_path(&mut path, DB_DIR_NAME);
    push_path(&mut path, CONFIG_FILE_NAME);
    path
}

} // verus!
