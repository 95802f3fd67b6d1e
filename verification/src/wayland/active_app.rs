//! Scanning of compositor IPC replies for the focused application's ID.
//!
//! Hyprland answers `j/activewindow` with a JSON object carrying `class`;
//! Sway answers `GET_TREE` with the whole window tree, in which the focused
//! node carries `app_id` (native clients) or `window_properties.class`
//! (XWayland). These scanners are not JSON parsers: they track just enough
//! structure (string escapes, brace depth) to pick out those values.

use vstd::prelude::*;
use crate::base::config::{path_push, push_path};
use crate::text::{chars_of, find, find_chars, lemma_find_from_bounds, occurs_at, range_starts_with};

verus! {

pub open spec fn is_ascii_ws_char(c: char) -> bool {
    c == ' ' || c == '\t' || c == '\n' || c == '\x0C' || c == '\r'
}

/// First position at or after `i` that is not ASCII whitespace.
pub open spec fn skip_ws_chars(s: Seq<char>, i: int) -> int
    decreases s.len() - i,
{
    if 0 <= i < s.len() && is_ascii_ws_char(s[i]) {
        skip_ws_chars(s, i + 1)
    } else {
        i
    }
}

/// Position of the `"` closing a JSON string whose content starts at `j`
/// (`esc`: the previous character was an unconsumed backslash); the length
/// when the string never closes.
pub open spec fn string_close(s: Seq<char>, j: int, esc: bool) -> int
    decreases s.len() - j,
{
    if j < 0 || j >= s.len() {
        j
    } else if esc {
        string_close(s, j + 1, false)
    } else if s[j] == '\\' {
        string_close(s, j + 1, true)
    } else if s[j] == '"' {
        j
    } else {
        string_close(s, j + 1, false)
    }
}

/// The quoted key `"key"`.
pub open spec fn quoted(key: Seq<char>) -> Seq<char> {
    seq!['"'] + key + seq!['"']
}

/// The raw (not unescaped) string value of the first `"key": "..."` at or
/// after `from`; an occurrence whose value is not a string is skipped.
pub open spec fn json_value_from(s: Seq<char>, key: Seq<char>, from: int) -> Option<Seq<char>>
    decreases s.len() - from,
{
    if from < 0 || from > s.len() {
        None
    } else {
        let needle = quoted(key);
        match find(s.subrange(from, s.len() as int), needle) {
            None => None,
            Some(rel) => {
                let after = from + rel + needle.len();
                proof {
                    lemma_find_from_bounds(s.subrange(from, s.len() as int), needle, 0);
                }
                let j = skip_ws_chars(s, after);
                if j >= s.len() || s[j] != ':' {
                    json_value_from(s, key, after)
                } else {
                    let j1 = skip_ws_chars(s, j + 1);
                    if j1 >= s.len() || s[j1] != '"' {
                        json_value_from(s, key, after)
                    } else {
                        let e = string_close(s, j1 + 1, false);
                        if e < s.len() {
                            Some(s.subrange(j1 + 1, e))
                        } else {
                            None
                        }
                    }
                }
            },
        }
    }
}

pub open spec fn json_value(s: Seq<char>, key: Seq<char>) -> Option<Seq<char>> {
    json_value_from(s, key, 0)
}

fn skip_ws(v: &Vec<char>, i: usize) -> (r: usize)
    requires
        i <= v.len(),
    ensures
        i <= r <= v.len(),
        r == skip_ws_chars(v@, i as int),
{
    let mut j = i;
    while j < v.len() && (v[j] == ' ' || v[j] == '\t' || v[j] == '\n' || v[j] == '\x0C' || v[j]
        == '\r')
        invariant
            i <= j <= v.len(),
            skip_ws_chars(v@, j as int) == skip_ws_chars(v@, i as int),
        decreases v.len() - j,
    {
        j = j + 1;
    }
    j
}

/// Finds the string value of the first `"key": "<value>"` pair in a JSON
/// text, without unescaping it; a non-string value (null, number, object)
/// does not match, and the scan moves on to the next occurrence of the key.
pub fn find_json_string_value(json: &str, key: &str) -> (r: Option<String>)
    ensures
        match r {
            Some(x) => json_value(json@, key@) == Some(x@),
            None => json_value(json@, key@).is_none(),
        },
{
    let v = chars_of(json);
    let mut needle: Vec<char> = Vec::new();
    needle.push('"');
    let kc = chars_of(key);
    let mut q: usize = 0;
    while q < kc.len()
        invariant
            q <= kc@.len(),
            needle@ == seq!['"'] + kc@.subrange(0, q as int),
        decreases kc@.len() - q,
    {
        needle.push(kc[q]);
        q = q + 1;
        assert(needle@ =~= seq!['"'] + kc@.subrange(0, q as int));
    }
    needle.push('"');
    assert(kc@.subrange(0, kc@.len() as int) =~= kc@);
    assert(needle@ =~= quoted(key@));
    let mut from: usize = 0;
    loop
        invariant
            from <= v@.len(),
            v@ == json@,
            needle@ == quoted(key@),
            json_value_from(v@, key@, from as int) == json_value(json@, key@),
        decreases v@.len() - from,
    {
        let rel = match find_chars(&v, from, v.len(), &needle) {
            Some(r) => r,
            None => return None,
        };
        proof {
            lemma_find_from_bounds(v@.subrange(from as int, v@.len() as int), needle@, 0);
        }
        let after = from + rel + needle.len();
        let j = skip_ws(&v, after);
        if j >= v.len() || v[j] != ':' {
            from = after;
            continue;
        }
        let j1 = skip_ws(&v, j + 1);
        if j1 >= v.len() || v[j1] != '"' {
            from = after;
            continue;
        }
        let start = j1 + 1;
        let mut e = start;
        let mut esc = false;
        while e < v.len()
            invariant
                start <= e <= v@.len(),
                string_close(v@, e as int, esc) == string_close(v@, start as int, false),
            ensures
                start <= e <= v@.len(),
                string_close(v@, start as int, false) == e as int,
            decreases v@.len() - e,
        {
            if esc {
                esc = false;
            } else if v[e] == '\\' {
                esc = true;
            } else if v[e] == '"' {
                break;
            }
            e = e + 1;
        }
        if e < v.len() {
            return Some(crate::text::string_of_range(&v, start, e));
        } else {
            return None;
        }
    }
}

/// The key text `"focused"`.
pub open spec fn focused_key() -> Seq<char> {
    seq!['"', 'f', 'o', 'c', 'u', 's', 'e', 'd', '"']
}

pub open spec fn true_word() -> Seq<char> {
    seq!['t', 'r', 'u', 'e']
}

/// At `i` stands `"focused"`, then (after optional whitespace) `:`, then
/// (after optional whitespace) `true`.
pub open spec fn marks_focused(s: Seq<char>, i: int) -> bool {
    &&& occurs_at(s, focused_key(), i)
    &&& {
        let j = skip_ws_chars(s, i + 9);
        &&& j < s.len()
        &&& s[j] == ':'
        &&& occurs_at(s, true_word(), skip_ws_chars(s, j + 1))
    }
}

/// The brace-depth scan of a `GET_TREE` reply: `stack` holds the positions
/// of the `{` that are still open, `target` the start of the object whose
/// own `"focused": true` key was seen. The result is the span `(start, end)`
/// (both inclusive) of that object, once its closing `}` is reached.
pub open spec fn focus_scan(
    s: Seq<char>,
    i: int,
    stack: Seq<int>,
    in_str: bool,
    esc: bool,
    target: Option<int>,
) -> Option<(int, int)>
    decreases s.len() - i,
{
    if i < 0 || i >= s.len() {
        None
    } else if in_str {
        if esc {
            focus_scan(s, i + 1, stack, true, false, target)
        } else if s[i] == '\\' {
            focus_scan(s, i + 1, stack, true, true, target)
        } else if s[i] == '"' {
            focus_scan(s, i + 1, stack, false, false, target)
        } else {
            focus_scan(s, i + 1, stack, true, false, target)
        }
    } else if s[i] == '"' {
        let t = if target is None && marks_focused(s, i) {
            if stack.len() > 0 {
                Some(stack.last())
            } else {
                None
            }
        } else {
            target
        };
        focus_scan(s, i + 1, stack, true, esc, t)
    } else if s[i] == '{' {
        focus_scan(s, i + 1, stack.push(i), false, esc, target)
    } else if s[i] == '}' {
        let start = if stack.len() > 0 {
            Some(stack.last())
        } else {
            None
        };
        if target is Some && start == target {
            Some((target->0, i))
        } else {
            let rest = if stack.len() > 0 {
                stack.drop_last()
            } else {
                stack
            };
            focus_scan(s, i + 1, rest, false, esc, target)
        }
    } else {
        focus_scan(s, i + 1, stack, false, esc, target)
    }
}

proof fn lemma_focus_scan_object(
    s: Seq<char>,
    i: int,
    stack: Seq<int>,
    in_str: bool,
    esc: bool,
    target: Option<int>,
)
    requires
        0 <= i,
        forall|k: int| 0 <= k < stack.len() ==> 0 <= #[trigger] stack[k] < i && s[stack[k]] == '{',
        target matches Some(t) ==> 0 <= t < i && s[t] == '{',
    ensures
        focus_scan(s, i, stack, in_str, esc, target) matches Some((a, b)) ==> 0 <= a < b < s.len() && s[a]
            == '{' && s[b] == '}',
    decreases s.len() - i,
{
    if i < s.len() {
        if in_str {
            lemma_focus_scan_object(s, i + 1, stack, true, false, target);
            lemma_focus_scan_object(s, i + 1, stack, true, true, target);
            lemma_focus_scan_object(s, i + 1, stack, false, false, target);
        } else if s[i] == '"' {
            let t = if target is None && marks_focused(s, i) {
                if stack.len() > 0 {
                    Some(stack.last())
                } else {
                    None
                }
            } else {
                target
            };
            lemma_focus_scan_object(s, i + 1, stack, true, esc, t);
        } else if s[i] == '{' {
            assert forall|k: int| 0 <= k < stack.push(i).len() implies 0 <= #[trigger] stack.push(i)[k] < i + 1
                && s[stack.push(i)[k]] == '{' by {
                if k < stack.len() {
                    assert(stack.push(i)[k] == stack[k]);
                }
            }
            lemma_focus_scan_object(s, i + 1, stack.push(i), false, esc, target);
        } else if s[i] == '}' {
            let rest = if stack.len() > 0 {
                stack.drop_last()
            } else {
                stack
            };
            assert forall|k: int| 0 <= k < rest.len() implies 0 <= #[trigger] rest[k] < i + 1 && s[rest[k]] == '{' by {
                assert(rest[k] == stack[k]);
            }
            lemma_focus_scan_object(s, i + 1, rest, false, esc, target);
        } else {
            lemma_focus_scan_object(s, i + 1, stack, false, esc, target);
        }
    }
}

/// The span found is a JSON object: it opens with `{` and closes with `}`.
pub proof fn law_focused_span_is_an_object(s: Seq<char>)
    ensures
        focused_span(s) matches Some((a, b)) ==> 0 <= a < b < s.len() && s[a] == '{' && s[b] == '}',
{
    lemma_focus_scan_object(s, 0, Seq::empty(), false, false, None);
}

/// The span of the focused node in a whole `GET_TREE` reply.
pub open spec fn focused_span(s: Seq<char>) -> Option<(int, int)> {
    focus_scan(s, 0, Seq::empty(), false, false, None)
}

fn is_focused_mark(v: &Vec<char>, i: usize, key: &Vec<char>, word: &Vec<char>) -> (r: bool)
    requires
        i <= v.len(),
        key@ == focused_key(),
        word@ == true_word(),
    ensures
        r == marks_focused(v@, i as int),
{
    let len = v.len();
    let k = range_starts_with(v, i, len, key);
    assert(k == occurs_at(v@, focused_key(), i as int)) by {
        if i + 9 <= len {
            assert(v@.subrange(i as int, len as int).subrange(0, 9) =~= v@.subrange(
                i as int,
                i + 9,
            ));
        }
    }
    if !k {
        return false;
    }
    let j = skip_ws(v, i + 9);
    if j >= len || v[j] != ':' {
        return false;
    }
    let j1 = skip_ws(v, j + 1);
    let t = range_starts_with(v, j1, len, word);
    assert(t == occurs_at(v@, true_word(), j1 as int)) by {
        if j1 + 4 <= len {
            assert(v@.subrange(j1 as int, len as int).subrange(0, 4) =~= v@.subrange(
                j1 as int,
                j1 + 4,
            ));
        }
    }
    t
}

/// Finds the JSON object of the node marked `"focused": true` in a Sway/i3
/// `GET_TREE` reply: the smallest `{...}` that holds that key directly.
/// Braces inside string values (a window title) are skipped.
pub fn focused_node_span(json: &str) -> (r: Option<&str>)
    ensures
        match r {
            Some(x) => focused_span(json@) matches Some((a, b)) && 0 <= a <= b < json@.len()
                && x@ == json@.subrange(a, b + 1),
            None => focused_span(json@) is None,
        },
{
    let v = chars_of(json);
    let key: Vec<char> = vec!['"', 'f', 'o', 'c', 'u', 's', 'e', 'd', '"'];
    let word: Vec<char> = vec!['t', 'r', 'u', 'e'];
    assert(key@ =~= focused_key());
    assert(word@ =~= true_word());
    let mut stack: Vec<usize> = Vec::new();
    let ghost mut gstack: Seq<int> = Seq::empty();
    let mut in_string = false;
    let mut escape = false;
    let mut target: Option<usize> = None;
    let mut i: usize = 0;
    while i < v.len()
        invariant
            i <= v@.len(),
            v@ == json@,
            key@ == focused_key(),
            word@ == true_word(),
            gstack.len() == stack@.len(),
            forall|k: int| 0 <= k < gstack.len() ==> gstack[k] == stack@[k] as int,
            forall|k: int| 0 <= k < gstack.len() ==> 0 <= #[trigger] gstack[k] < i,
            target matches Some(t) ==> t < i,
            focus_scan(v@, i as int, gstack, in_string, escape, match target {
                Some(t) => Some(t as int),
                None => None,
            }) == focused_span(json@),
        decreases v@.len() - i,
    {
        let c = v[i];
        if in_string {
            if escape {
                escape = false;
            } else if c == '\\' {
                escape = true;
            } else if c == '"' {
                in_string = false;
            }
        } else if c == '"' {
            in_string = true;
            if target.is_none() && is_focused_mark(&v, i, &key, &word) {
                target = if stack.len() > 0 {
                    Some(stack[stack.len() - 1])
                } else {
                    None
                };
            }
        } else if c == '{' {
            stack.push(i);
            proof {
                gstack = gstack.push(i as int);
            }
        } else if c == '}' {
            let start = stack.pop();
            let ghost old_g = gstack;
            proof {
                if gstack.len() > 0 {
                    gstack = gstack.drop_last();
                }
            }
            if target.is_some() && start == target {
                let s = match start {
                    Some(s) => s,
                    None => 0,
                };
                proof {
                    assert(old_g.len() > 0);
                    assert(old_g.last() == s as int);
                }
                return Some(json.substring_char(s, i + 1));
            }
        }
        i = i + 1;
    }
    None
}

/// `$XDG_RUNTIME_DIR/hypr/$HYPRLAND_INSTANCE_SIGNATURE/.socket.sock`,
/// joined as path components from the two values.
pub fn hyprland_socket_path(runtime_dir: &str, signature: &str) -> (r: String)
    ensures
        r@ == path_push(path_push(path_push(runtime_dir@, "hypr"@), signature@), ".socket.sock"@),
{
    let mut path = String::from_str(runtime_dir);
    push_path(&mut path, "hypr");
    push_path(&mut path, signature);
    push_path(&mut path, ".socket.sock");
    path
}

/// `v` unless it is the empty string.
pub open spec fn non_empty(v: Option<Seq<char>>) -> Option<Seq<char>> {
    match v {
        Some(x) => if x.len() > 0 {
            Some(x)
        } else {
            None
        },
        None => None,
    }
}

/// The app ID in Hyprland's `j/activewindow` reply: `class`, or
/// `initialClass` when there is no `class` string; an empty ID is none.
pub open spec fn hyprland_app(reply: Seq<char>) -> Option<Seq<char>> {
    let c = json_value(reply, "class"@);
    non_empty(
        if c is Some {
            c
        } else {
            json_value(reply, "initialClass"@)
        },
    )
}

/// The app ID of the focused node in a Sway/i3 `GET_TREE` reply: its
/// non-empty `app_id` (native clients), else its non-empty `class`
/// (XWayland clients, under `window_properties`).
pub open spec fn sway_app(tree: Seq<char>) -> Option<Seq<char>> {
    match focused_span(tree) {
        None => None,
        Some((a, b)) => {
            let node = tree.subrange(a, b + 1);
            let id = non_empty(json_value(node, "app_id"@));
            if id is Some {
                id
            } else {
                non_empty(json_value(node, "class"@))
            }
        },
    }
}

fn keep_non_empty(v: Option<String>) -> (r: Option<String>)
    ensures
        match r {
            Some(x) => v matches Some(y) && y@.len() > 0 && x@ == y@,
            None => v matches Some(y) ==> y@.len() == 0,
        },
{
    match v {
        Some(x) => if x.as_str().unicode_len() > 0 {
            Some(x)
        } else {
            None
        },
        None => None,
    }
}

/// Picks the focused window's app ID out of Hyprland's reply text.
pub fn hyprland_app_id(reply: &str) -> (r: Option<String>)
    ensures
        match r {
            Some(x) => hyprland_app(reply@) == Some(x@),
            None => hyprland_app(reply@) is None,
        },
{
    let c = find_json_string_value(reply, "class");
    let v = match c {
        Some(x) => Some(x),
        None => find_json_string_value(reply, "initialClass"),
    };
    keep_non_empty(v)
}

/// Picks the focused window's app ID out of Sway's `GET_TREE` reply text.
pub fn sway_app_id(tree: &str) -> (r: Option<String>)
    ensures
        match r {
            Some(x) => sway_app(tree@) == Some(x@),
            None => sway_app(tree@) is None,
        },
{
    let node = match focused_node_span(tree) {
        Some(n) => n,
        None => return None,
    };
    let id = keep_non_empty(find_json_string_value(node, "app_id"));
    match id {
        Some(x) => Some(x),
        None => keep_non_empty(find_json_string_value(node, "class")),
    }
}

/// Ceiling on a compositor reply this lookup accepts.
pub const MAX_RESPONSE_BYTES: usize = 1048576;

/// The `i3-ipc` magic that opens every Sway/i3 message header.
pub open spec fn sway_magic() -> Seq<u8> {
    seq![0x69u8, 0x33u8, 0x2du8, 0x69u8, 0x70u8, 0x63u8]
}

/// The payload length a Sway reply header announces, when the header opens
/// with the `i3-ipc` magic and the length is between 1 and
/// `MAX_RESPONSE_BYTES`; `None` refuses the reply.
pub fn sway_payload_len(header: &[u8], announced: u32) -> (r: Option<usize>)
    ensures
        r is Some <==> (header@.len() >= 6 && header@.subrange(0, 6) == sway_magic() && 1 <= announced
            <= MAX_RESPONSE_BYTES),
        r matches Some(n) ==> n == announced,
{
    let magic: [u8; 6] = [0x69, 0x33, 0x2d, 0x69, 0x70, 0x63];
    assert(magic@ =~= sway_magic());
    if header.len() < 6 {
        return None;
    }
    let mut i: usize = 0;
    while i < 6
        invariant
            i <= 6,
            6 <= header@.len(),
            magic@ == sway_magic(),
            forall|k: int| 0 <= k < i ==> header@[k] == magic@[k],
        decreases 6 - i,
    {
        if header[i] != magic[i] {
            assert(header@.subrange(0, 6)[i as int] != sway_magic()[i as int]);
            return None;
        }
        i = i + 1;
    }
    assert(header@.subrange(0, 6) =~= sway_magic());
    if announced == 0 || announced as usize > MAX_RESPONSE_BYTES {
        return None;
    }
    Some(announced as usize)
}

} // verus!
