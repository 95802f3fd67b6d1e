//! Where the history database, the payload cache and the control socket
//! live, and the effective retention cap, computed from the environment
//! values they depend on (the caller reads the environment).

use vstd::prelude::*;
use crate::base::config::{opt_view, path_push, push_path, xdg_base};
use crate::base::constants::{DB_DIR_NAME, DB_FILE_NAME, DEFAULT_MAX_HISTORY, SOCKET_FILE_NAME};
use crate::num::{dec, parse_i64_chars, parse_i64_spec, push_u64};
use crate::text::{trim, trim_chars};

verus! {

/// The retention cap that applies when the environment names none: the
/// config file's `general.max_history` when it is positive, else
/// `DEFAULT_MAX_HISTORY`.
pub open spec fn configured_cap(configured: usize) -> usize {
    if configured > 0 {
        configured
    } else {
        DEFAULT_MAX_HISTORY
    }
}

/// The effective retention cap: the trimmed value of `Y4P_MAX_HISTORY` when
/// that parses as a positive `i64`; otherwise (unset, non-numeric, zero or
/// negative) the config file's value, and failing that `DEFAULT_MAX_HISTORY`.
pub open spec fn max_history_of(raw: Option<Seq<char>>, configured: usize) -> usize {
    match raw {
        Some(v) => match parse_i64_spec(trim(v)) {
            Some(n) => if n > 0 {
                n as usize
            } else {
                configured_cap(configured)
            },
            None => configured_cap(configured),
        },
        None => configured_cap(configured),
    }
}

/// `raw` is the value of `Y4P_MAX_HISTORY` (if set), `configured` the
/// config file's `general.max_history` (its default when the file is absent).
pub fn max_history_from(raw: Option<&str>, configured: usize) -> (r: usize)
    ensures
        r == max_history_of(opt_view(raw), configured),
{
    let fallback: usize = if configured > 0 {
        configured
    } else {
        DEFAULT_MAX_HISTORY
    };
    match raw {
        Some(v) => {
            let t = trim_chars(v);
            match parse_i64_chars(&t, 0, t.len()) {
                Some(n) => {
                    proof {
                        assert(t@.subrange(0, t@.len() as int) =~= t@);
                    }
                    if n > 0 {
                        n as usize
                    } else {
                        fallback
                    }
                },
                None => {
                    proof {
                        assert(t@.subrange(0, t@.len() as int) =~= t@);
                    }
                    fallback
                },
            }
        },
        None => fallback,
    }
}

/// The retention cap is always usable: it is positive whenever the value
/// named in the environment fits the platform's `usize`.
pub proof fn law_max_history_positive(raw: Option<Seq<char>>, configured: usize)
    requires
        raw matches Some(v) ==> (parse_i64_spec(trim(v)) matches Some(n) ==> n <= usize::MAX),
    ensures
        max_history_of(raw, configured) > 0,
{
}

/// `$XDG_DATA_HOME/y4p`, else `$HOME/.local/share/y4p`, else `./y4p`.
pub open spec fn db_dir_of(xdg_data_home: Option<Seq<char>>, home: Option<Seq<char>>) -> Seq<char> {
    path_push(xdg_base(xdg_data_home, home, seq![".local"@, "share"@]), DB_DIR_NAME@)
}

/// `$XDG_CACHE_HOME/y4p`, else `$HOME/.cache/y4p`, else `./y4p`.
pub open spec fn cache_dir_of(xdg_cache_home: Option<Seq<char>>, home: Option<Seq<char>>) -> Seq<char> {
    path_push(xdg_base(xdg_cache_home, home, seq![".cache"@]), DB_DIR_NAME@)
}

/// The directory that holds the history database.
pub fn db_dir(xdg_data_home: Option<&str>, home: Option<&str>) -> (r: String)
    ensures
        r@ == db_dir_of(opt_view(xdg_data_home), opt_view(home)),
{
    let mut path = match xdg_data_home {
        Some(x) => String::from_str(x),
        None => match home {
            Some(h) => {
                let mut p = String::from_str(h);
                push_path(&mut p, ".local");
                push_path(&mut p, "share");
                p
            },
            None => String::from_str("."),
        },
    };
    push_path(&mut path, DB_DIR_NAME);
    path
}

/// The database file inside its directory.
pub fn db_file(dir: &str) -> (r: String)
    ensures
        r@ == path_push(dir@, DB_FILE_NAME@),
{
    let mut p = String::from_str(dir);
    push_path(&mut p, DB_FILE_NAME);
    p
}

/// The directory of cached payloads.
pub fn cache_dir(xdg_cache_home: Option<&str>, home: Option<&str>) -> (r: String)
    ensures
        r@ == cache_dir_of(opt_view(xdg_cache_home), opt_view(home)),
{
    let mut path = match xdg_cache_home {
        Some(x) => String::from_str(x),
        None => match home {
            Some(h) => {
                let mut p = String::from_str(h);
                push_path(&mut p, ".cache");
                p
            },
            None => String::from_str("."),
        },
    };
    push_path(&mut path, DB_DIR_NAME);
    path
}

/// The control socket's directory: `$XDG_RUNTIME_DIR/y4p`.
pub fn socket_dir(runtime_dir: &str) -> (r: String)
    ensures
        r@ == path_push(runtime_dir@, DB_DIR_NAME@),
{
    let mut p = String::from_str(runtime_dir);
    push_path(&mut p, DB_DIR_NAME);
    p
}

/// The control socket inside its directory.
pub fn socket_file(dir: &str) -> (r: String)
    ensures
        r@ == path_push(dir@, SOCKET_FILE_NAME@),
{
    let mut p = String::from_str(dir);
    push_path(&mut p, SOCKET_FILE_NAME);
    p
}

/// Without `$XDG_RUNTIME_DIR`: `/tmp/y4p.<uid>.sock`, still per user.
pub fn fallback_socket_path(uid: u32) -> (r: String)
    ensures
        r@ == "/tmp/"@ + DB_DIR_NAME@ + "."@ + dec(uid as nat) + ".sock"@,
{
    let mut s = String::from_str("/tmp/");
    s.append(DB_DIR_NAME);
    s.append(".");
    push_u64(&mut s, uid as u64);
    s.append(".sock");
    s
}

} // verus!
