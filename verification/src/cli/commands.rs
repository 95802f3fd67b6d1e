//! What each subcommand accepts: the options and positional arguments it
//! takes, and the error it reports for anything else. A failed check also
//! says whether the command ends the process with status 1 (`fatal`) or
//! merely returns.

use vstd::prelude::*;
use crate::base::constants::DEFAULT_MIME;
use crate::cli::utils::{has_flag, is_option, parse_range, range_selection, ArgContext, ArgView, RangeSelection};
use crate::text::str_eq;
use crate::cli::search::{keywords_of, search_keywords};
use crate::cli::utils::string_views;

verus! {

/// A refused command line: the message (printed after `error: `), whether
/// the command's usage line follows it, and whether the process then exits
/// with status 1.
pub struct ArgError {
    pub message: String,
    pub usage: bool,
    pub fatal: bool,
}

fn arg_error(message: &str, fatal: bool) -> (r: ArgError)
    ensures
        r.message@ == message@,
        r.fatal == fatal,
        !r.usage,
{
    ArgError { message: String::from_str(message), usage: false, fatal }
}

fn usage_error(message: &str, fatal: bool) -> (r: ArgError)
    ensures
        r.message@ == message@,
        r.fatal == fatal,
        r.usage,
{
    ArgError { message: String::from_str(message), usage: true, fatal }
}

/// `command '<name>' does not support specified options.`
pub open spec fn unsupported_options(name: Seq<char>) -> Seq<char> {
    "command '"@ + name + "' does not support specified options."@
}

fn unsupported_options_error(name: &str) -> (r: ArgError)
    ensures
        r.message@ == unsupported_options(name@),
        !r.fatal,
{
    let mut m = String::from_str("command '");
    m.append(name);
    m.append("' does not support specified options.");
    ArgError { message: m, usage: false, fatal: false }
}

/// Whether any option outside `allowed` was given; `allowed` lists, in
/// order, raw, full, force, verbose, use_id.
pub open spec fn has_disallowed(a: ArgView, raw: bool, full: bool, force: bool, verbose: bool, use_id: bool) -> bool {
    a.unknown_flags.len() > 0 || (a.raw && !raw) || (a.full && !full) || (a.force && !force) || (a.verbose
        && !verbose) || (a.use_id && !use_id)
}

fn disallowed(ctx: &ArgContext, raw: bool, full: bool, force: bool, verbose: bool, use_id: bool) -> (r: bool)
    ensures
        r == has_disallowed(ctx@, raw, full, force, verbose, use_id),
{
    ctx.unknown_flags.len() > 0 || (ctx.raw && !raw) || (ctx.full && !full) || (ctx.force && !force) || (
    ctx.verbose && !verbose) || (ctx.use_id && !use_id)
}

/// An unrecognised flag is a hard error for every command, whatever else
/// the command accepts.
pub proof fn law_unknown_flags_refused(a: ArgView, raw: bool, full: bool, force: bool, verbose: bool, use_id: bool)
    requires
        a.unknown_flags.len() > 0,
    ensures
        has_disallowed(a, raw, full, force, verbose, use_id),
        bare_command_check("status"@, a) is Some,
        target_check("show"@, a) is Err,
{
}

/// `daemon [--verbose]`: the verbose flag.
pub fn check_daemon_args(ctx: &ArgContext) -> (r: Result<bool, ArgError>)
    ensures
        has_disallowed(ctx@, false, false, false, true, true) ==> (r matches Err(e) && e.message@
            == unsupported_options("daemon"@) && !e.fatal),
        !has_disallowed(ctx@, false, false, false, true, true) && ctx@.positionals.len() > 0 ==> (r matches Err(e)
            && e.message@ == "command 'daemon' does not accept positional arguments."@ && e.usage && !e.fatal),
        !has_disallowed(ctx@, false, false, false, true, true) && ctx@.positionals.len() == 0 ==> r == Ok::<
            bool,
            ArgError,
        >(ctx@.verbose),
{
    if disallowed(ctx, false, false, false, true, true) {
        return Err(unsupported_options_error("daemon"));
    }
    if ctx.positionals.len() > 0 {
        return Err(usage_error("command 'daemon' does not accept positional arguments.", false));
    }
    Ok(ctx.verbose)
}

/// `paste-from [mime]`: the MIME to request, `DEFAULT_MIME` when none.
pub fn check_paste_from_args(ctx: &ArgContext) -> (r: Result<String, ArgError>)
    ensures
        has_disallowed(ctx@, false, false, false, false, true) ==> (r matches Err(e) && e.message@
            == "command 'paste-from' does not support options."@ && !e.fatal),
        !has_disallowed(ctx@, false, false, false, false, true) && ctx@.positionals.len() > 1 ==> (r matches Err(
            e,
        ) && e.message@ == "command 'paste-from' accepts at most one MIME type argument."@ && !e.fatal),
        !has_disallowed(ctx@, false, false, false, false, true) && ctx@.positionals.len() <= 1 ==> (r matches Ok(
            m,
        ) && m@ == if ctx@.positionals.len() == 1 {
            ctx@.positionals[0]
        } else {
            DEFAULT_MIME@
        }),
{
    if disallowed(ctx, false, false, false, false, true) {
        return Err(arg_error("command 'paste-from' does not support options.", false));
    }
    if ctx.positionals.len() > 1 {
        return Err(arg_error("command 'paste-from' accepts at most one MIME type argument.", false));
    }
    if ctx.positionals.len() == 1 {
        Ok(ctx.positionals[0].clone())
    } else {
        Ok(String::from_str(DEFAULT_MIME))
    }
}

/// `status`, `pause`, `resume`: no options, no arguments. `status` reports
/// and returns; `pause` and `resume` exit with status 1.
pub open spec fn bare_command_check(name: Seq<char>, a: ArgView) -> Option<(Seq<char>, bool)> {
    let is_status = name == "status"@;
    if has_disallowed(a, false, false, false, false, false) {
        Some(
            (
                if is_status {
                    unsupported_options(name)
                } else {
                    "command '"@ + name + "' does not support options."@
                },
                !is_status,
            ),
        )
    } else if a.positionals.len() > 0 {
        Some(("command '"@ + name + "' does not accept positional arguments."@, !is_status))
    } else {
        None
    }
}

pub fn check_bare_args(name: &str, ctx: &ArgContext) -> (r: Result<(), ArgError>)
    ensures
        match bare_command_check(name@, ctx@) {
            Some((m, fatal)) => r matches Err(e) && e.message@ == m && e.fatal == fatal,
            None => r is Ok,
        },
{
    let is_status = crate::text::str_eq(name, "status");
    if disallowed(ctx, false, false, false, false, false) {
        if is_status {
            return Err(unsupported_options_error(name));
        }
        let mut m = String::from_str("command '");
        m.append(name);
        m.append("' does not support options.");
        return Err(ArgError { message: m, usage: false, fatal: true });
    }
    if ctx.positionals.len() > 0 {
        let mut m = String::from_str("command '");
        m.append(name);
        m.append("' does not accept positional arguments.");
        return Err(ArgError { message: m, usage: false, fatal: !is_status });
    }
    Ok(())
}

/// `list [range] [--raw] [--full] [--id]`: the parsed range (25 newest by
/// default).
pub fn check_list_args(ctx: &ArgContext) -> (r: Result<RangeSelection, ArgError>)
    ensures
        ctx@.unknown_flags.len() > 0 ==> (r matches Err(e) && e.message@ == "unknown option detected: '"@
            + ctx@.unknown_flags[0] + "'"@ && !e.fatal),
        ctx@.unknown_flags.len() == 0 && ctx@.positionals.len() > 1 ==> (r matches Err(e) && e.message@
            == "command 'list' accepts only one range argument."@ && !e.fatal),
        ctx@.unknown_flags.len() == 0 && ctx@.positionals.len() <= 1 ==> match range_selection(
            if ctx@.positionals.len() == 1 {
                Some(ctx@.positionals[0])
            } else {
                None
            },
            25,
        ) {
            Ok(sel) => r == Ok::<RangeSelection, ArgError>(sel),
            Err(m) => r matches Err(e) && e.message@ == "argument error: "@ + m && !e.fatal,
        },
{
    if ctx.unknown_flags.len() > 0 {
        let mut m = String::from_str("unknown option detected: '");
        m.append(ctx.unknown_flags[0].as_str());
        m.append("'");
        return Err(ArgError { message: m, usage: false, fatal: false });
    }
    if ctx.positionals.len() > 1 {
        return Err(arg_error("command 'list' accepts only one range argument.", false));
    }
    let first = if ctx.positionals.len() == 1 {
        Some(&ctx.positionals[0])
    } else {
        None
    };
    match parse_range(first, 25) {
        Ok(sel) => Ok(sel),
        Err(e) => {
            let mut m = String::from_str("argument error: ");
            m.append(e.as_str());
            Err(ArgError { message: m, usage: false, fatal: false })
        },
    }
}

/// The commands that act on one record named by a positional target.
pub open spec fn target_check(name: Seq<char>, a: ArgView) -> Result<Seq<char>, Seq<char>> {
    let bad = if name == "copy-to"@ {
        has_disallowed(a, false, false, false, true, true)
    } else if name == "show"@ {
        has_disallowed(a, true, false, false, true, true)
    } else {
        has_disallowed(a, false, false, false, false, true)
    };
    if bad {
        Err(unsupported_options(name))
    } else if a.positionals.len() == 0 {
        Err(
            if name == "copy-to"@ {
                "missing ID."@
            } else {
                "missing required identifier."@
            },
        )
    } else {
        Ok(a.positionals[0])
    }
}

/// `copy-to`, `show`, `delete`, `pin`, `unpin`: the target argument.
/// `copy-to` also takes `--verbose`, `show` also `--raw` and `--verbose`;
/// all take `--id`.
pub fn check_target_args(name: &str, ctx: &ArgContext) -> (r: Result<String, ArgError>)
    ensures
        match target_check(name@, ctx@) {
            Ok(t) => r matches Ok(x) && x@ == t,
            Err(m) => r matches Err(e) && e.message@ == m && !e.fatal,
        },
{
    let is_copy = crate::text::str_eq(name, "copy-to");
    let is_show = crate::text::str_eq(name, "show");
    let bad = if is_copy {
        disallowed(ctx, false, false, false, true, true)
    } else if is_show {
        disallowed(ctx, true, false, false, true, true)
    } else {
        disallowed(ctx, false, false, false, false, true)
    };
    if bad {
        return Err(unsupported_options_error(name));
    }
    if ctx.positionals.len() == 0 {
        if is_copy {
            return Err(arg_error("missing ID.", false));
        }
        return Err(arg_error("missing required identifier.", false));
    }
    Ok(ctx.positionals[0].clone())
}

/// `wipe --force`: without `--force` the wipe is refused and the process
/// exits with status 1.
pub fn check_wipe_args(ctx: &ArgContext) -> (r: Result<(), ArgError>)
    ensures
        has_disallowed(ctx@, false, false, true, false, true) ==> (r matches Err(e) && e.message@
            == unsupported_options("wipe"@) && !e.fatal),
        !has_disallowed(ctx@, false, false, true, false, true) && ctx@.positionals.len() > 0 ==> (r matches Err(e)
            && e.message@ == "command 'wipe' does not accept positional arguments."@ && !e.fatal),
        !has_disallowed(ctx@, false, false, true, false, true) && ctx@.positionals.len() == 0 && !ctx@.force ==> (
        r matches Err(e) && e.message@ == "refusing to wipe without confirmation."@ && e.usage && e.fatal),
        r is Ok <==> (!has_disallowed(ctx@, false, false, true, false, true) && ctx@.positionals.len() == 0
            && ctx@.force),
{
    if disallowed(ctx, false, false, true, false, true) {
        return Err(unsupported_options_error("wipe"));
    }
    if ctx.positionals.len() > 0 {
        return Err(arg_error("command 'wipe' does not accept positional arguments.", false));
    }
    if !ctx.force {
        return Err(usage_error("refusing to wipe without confirmation.", true));
    }
    Ok(())
}

/// `search <keywords...> [--raw] [--verbose] [--id]`: the keywords.
pub fn check_search_args(ctx: &ArgContext) -> (r: Result<Vec<String>, ArgError>)
    ensures
        has_disallowed(ctx@, true, false, false, true, true) ==> (r matches Err(e) && e.message@
            == unsupported_options("search"@) && !e.fatal),
        !has_disallowed(ctx@, true, false, false, true, true) && keywords_of(ctx@.positionals).len() == 0 ==> (
        r matches Err(e) && e.message@ == "missing required search keyword."@ && e.usage && !e.fatal),
        !has_disallowed(ctx@, true, false, false, true, true) && keywords_of(ctx@.positionals).len() > 0 ==> (
        r matches Ok(k) && string_views(k@) == keywords_of(ctx@.positionals)),
{
    if disallowed(ctx, true, false, false, true, true) {
        return Err(unsupported_options_error("search"));
    }
    let k = search_keywords(ctx.positionals.as_slice());
    if k.len() == 0 {
        return Err(usage_error("missing required search keyword.", false));
    }
    Ok(k)
}

/// `store [mime] [--verbose]`: the MIME to record standard input under,
/// `DEFAULT_MIME` when none.
pub fn check_store_args(ctx: &ArgContext) -> (r: Result<String, ArgError>)
    ensures
        has_disallowed(ctx@, false, false, false, true, false) ==> (r matches Err(e) && e.message@
            == unsupported_options("store"@) && !e.fatal),
        !has_disallowed(ctx@, false, false, false, true, false) && ctx@.positionals.len() > 1 ==> (r matches Err(e)
            && e.message@ == "command 'store' accepts at most one MIME type argument."@ && !e.fatal),
        !has_disallowed(ctx@, false, false, false, true, false) && ctx@.positionals.len() <= 1 ==> (r matches Ok(m)
            && m@ == if ctx@.positionals.len() == 1 {
            ctx@.positionals[0]
        } else {
            DEFAULT_MIME@
        }),
{
    if disallowed(ctx, false, false, false, true, false) {
        return Err(unsupported_options_error("store"));
    }
    if ctx.positionals.len() > 1 {
        return Err(arg_error("command 'store' accepts at most one MIME type argument.", false));
    }
    if ctx.positionals.len() == 1 {
        Ok(ctx.positionals[0].clone())
    } else {
        Ok(String::from_str(DEFAULT_MIME))
    }
}

/// The subcommands.
#[derive(Debug, Clone, Copy, PartialEq, Eq)]
pub enum Subcommand {
    Daemon,
    List,
    Search,
    Show,
    CopyTo,
    Store,
    Delete,
    Wipe,
    Pin,
    Unpin,
    PasteFrom,
    Status,
    Pause,
    Resume,
}

/// Where a command line goes.
#[derive(Debug, Clone, Copy, PartialEq, Eq)]
pub enum Route {
    /// Print the usage text.
    Help,
    /// Print the version.
    Version,
    /// The command word looks like an option: refused, status 1.
    BadFormat,
    /// No such command: refused, status 1.
    Unknown,
    Run(Subcommand),
}

pub open spec fn subcommand_named(cmd: Seq<char>) -> Option<Subcommand> {
    if cmd == "daemon"@ {
        Some(Subcommand::Daemon)
    } else if cmd == "list"@ {
        Some(Subcommand::List)
    } else if cmd == "search"@ {
        Some(Subcommand::Search)
    } else if cmd == "show"@ {
        Some(Subcommand::Show)
    } else if cmd == "copy-to"@ {
        Some(Subcommand::CopyTo)
    } else if cmd == "store"@ {
        Some(Subcommand::Store)
    } else if cmd == "delete"@ {
        Some(Subcommand::Delete)
    } else if cmd == "wipe"@ {
        Some(Subcommand::Wipe)
    } else if cmd == "pin"@ {
        Some(Subcommand::Pin)
    } else if cmd == "unpin"@ {
        Some(Subcommand::Unpin)
    } else if cmd == "paste-from"@ {
        Some(Subcommand::PasteFrom)
    } else if cmd == "status"@ {
        Some(Subcommand::Status)
    } else if cmd == "pause"@ {
        Some(Subcommand::Pause)
    } else if cmd == "resume"@ {
        Some(Subcommand::Resume)
    } else {
        None
    }
}

pub open spec fn flag_given(args: Seq<String>, long: Seq<char>, short: Seq<char>) -> bool {
    exists|i: int| 0 <= i < args.len() && (args[i]@ == long || args[i]@ == short)
}

/// Help when there is no command word or `--help`/`-h` appears anywhere;
/// then the version for `--version`/`-V`; then the command word (the
/// second argument), which may not look like an option.
pub open spec fn route_of(args: Seq<String>) -> Route {
    if args.len() < 2 || flag_given(args, "--help"@, "-h"@) {
        Route::Help
    } else if flag_given(args, "--version"@, "-V"@) {
        Route::Version
    } else {
        let cmd = args[1]@;
        if cmd.len() > 0 && cmd[0] == '-' {
            Route::BadFormat
        } else if cmd == "help"@ {
            Route::Help
        } else if cmd == "version"@ {
            Route::Version
        } else {
            match subcommand_named(cmd) {
                Some(c) => Route::Run(c),
                None => Route::Unknown,
            }
        }
    }
}

fn subcommand_of(cmd: &str) -> (r: Option<Subcommand>)
    ensures
        r == subcommand_named(cmd@),
{
    if str_eq(cmd, "daemon") {
        Some(Subcommand::Daemon)
    } else if str_eq(cmd, "list") {
        Some(Subcommand::List)
    } else if str_eq(cmd, "search") {
        Some(Subcommand::Search)
    } else if str_eq(cmd, "show") {
        Some(Subcommand::Show)
    } else if str_eq(cmd, "copy-to") {
        Some(Subcommand::CopyTo)
    } else if str_eq(cmd, "store") {
        Some(Subcommand::Store)
    } else if str_eq(cmd, "delete") {
        Some(Subcommand::Delete)
    } else if str_eq(cmd, "wipe") {
        Some(Subcommand::Wipe)
    } else if str_eq(cmd, "pin") {
        Some(Subcommand::Pin)
    } else if str_eq(cmd, "unpin") {
        Some(Subcommand::Unpin)
    } else if str_eq(cmd, "paste-from") {
        Some(Subcommand::PasteFrom)
    } else if str_eq(cmd, "status") {
        Some(Subcommand::Status)
    } else if str_eq(cmd, "pause") {
        Some(Subcommand::Pause)
    } else if str_eq(cmd, "resume") {
        Some(Subcommand::Resume)
    } else {
        None
    }
}

/// Decides what a full command line (program name first) asks for.
pub fn route_command(args: &[String]) -> (r: Route)
    ensures
        r == route_of(args@),
{
    if args.len() < 2 || has_flag(args, "--help", "-h") {
        return Route::Help;
    }
    if has_flag(args, "--version", "-V") {
        return Route::Version;
    }
    let cmd = args[1].as_str();
    if is_option(cmd) {
        return Route::BadFormat;
    }
    if str_eq(cmd, "help") {
        return Route::Help;
    }
    if str_eq(cmd, "version") {
        return Route::Version;
    }
    match subcommand_of(cmd) {
        Some(c) => Route::Run(c),
        None => Route::Unknown,
    }
}

/// The word that names each subcommand on the command line.
pub open spec fn command_word(c: Subcommand) -> Seq<char> {
    match c {
        Subcommand::Daemon => "daemon"@,
        Subcommand::List => "list"@,
        Subcommand::Search => "search"@,
        Subcommand::Show => "show"@,
        Subcommand::CopyTo => "copy-to"@,
        Subcommand::Store => "store"@,
        Subcommand::Delete => "delete"@,
        Subcommand::Wipe => "wipe"@,
        Subcommand::Pin => "pin"@,
        Subcommand::Unpin => "unpin"@,
        Subcommand::PasteFrom => "paste-from"@,
        Subcommand::Status => "status"@,
        Subcommand::Pause => "pause"@,
        Subcommand::Resume => "resume"@,
    }
}

/// The letters of each command word.
proof fn lemma_command_words_spelled()
    ensures
        "daemon"@ == seq!['d', 'a', 'e', 'm', 'o', 'n'],
        "list"@ == seq!['l', 'i', 's', 't'],
        "search"@ == seq!['s', 'e', 'a', 'r', 'c', 'h'],
        "show"@ == seq!['s', 'h', 'o', 'w'],
        "copy-to"@ == seq!['c', 'o', 'p', 'y', '-', 't', 'o'],
        "store"@ == seq!['s', 't', 'o', 'r', 'e'],
        "delete"@ == seq!['d', 'e', 'l', 'e', 't', 'e'],
        "wipe"@ == seq!['w', 'i', 'p', 'e'],
        "pin"@ == seq!['p', 'i', 'n'],
        "unpin"@ == seq!['u', 'n', 'p', 'i', 'n'],
        "paste-from"@ == seq!['p', 'a', 's', 't', 'e', '-', 'f', 'r', 'o', 'm'],
        "status"@ == seq!['s', 't', 'a', 't', 'u', 's'],
        "pause"@ == seq!['p', 'a', 'u', 's', 'e'],
        "resume"@ == seq!['r', 'e', 's', 'u', 'm', 'e'],
        "help"@ == seq!['h', 'e', 'l', 'p'],
        "version"@ == seq!['v', 'e', 'r', 's', 'i', 'o', 'n'],
{
    reveal_strlit("daemon");
    assert("daemon"@ =~= seq!['d', 'a', 'e', 'm', 'o', 'n']);
    reveal_strlit("list");
    assert("list"@ =~= seq!['l', 'i', 's', 't']);
    reveal_strlit("search");
    assert("search"@ =~= seq!['s', 'e', 'a', 'r', 'c', 'h']);
    reveal_strlit("show");
    assert("show"@ =~= seq!['s', 'h', 'o', 'w']);
    reveal_strlit("copy-to");
    assert("copy-to"@ =~= seq!['c', 'o', 'p', 'y', '-', 't', 'o']);
    reveal_strlit("store");
    assert("store"@ =~= seq!['s', 't', 'o', 'r', 'e']);
    reveal_strlit("delete");
    assert("delete"@ =~= seq!['d', 'e', 'l', 'e', 't', 'e']);
    reveal_strlit("wipe");
    assert("wipe"@ =~= seq!['w', 'i', 'p', 'e']);
    reveal_strlit("pin");
    assert("pin"@ =~= seq!['p', 'i', 'n']);
    reveal_strlit("unpin");
    assert("unpin"@ =~= seq!['u', 'n', 'p', 'i', 'n']);
    reveal_strlit("paste-from");
    assert("paste-from"@ =~= seq!['p', 'a', 's', 't', 'e', '-', 'f', 'r', 'o', 'm']);
    reveal_strlit("status");
    assert("status"@ =~= seq!['s', 't', 'a', 't', 'u', 's']);
    reveal_strlit("pause");
    assert("pause"@ =~= seq!['p', 'a', 'u', 's', 'e']);
    reveal_strlit("resume");
    assert("resume"@ =~= seq!['r', 'e', 's', 'u', 'm', 'e']);
    reveal_strlit("help");
    assert("help"@ =~= seq!['h', 'e', 'l', 'p']);
    reveal_strlit("version");
    assert("version"@ =~= seq!['v', 'e', 'r', 's', 'i', 'o', 'n']);
}

/// Law: a word selects a subcommand exactly when it is that subcommand's
/// own word; so each word runs the command of its name, and two different
/// words never run the same command.
pub proof fn law_command_words_name_their_subcommand(cmd: Seq<char>, c: Subcommand)
    ensures
        subcommand_named(cmd) == Some(c) <==> cmd == command_word(c),
{
    lemma_command_words_spelled();
}

/// Law: a command line whose second argument is a subcommand's word, with
/// no help or version flag anywhere, runs that subcommand.
pub proof fn law_command_line_runs_the_named_subcommand(args: Seq<String>, c: Subcommand)
    requires
        args.len() >= 2,
        args[1]@ == command_word(c),
        !flag_given(args, "--help"@, "-h"@),
        !flag_given(args, "--version"@, "-V"@),
    ensures
        route_of(args) == Route::Run(c),
{
    law_command_words_name_their_subcommand(args[1]@, c);
    lemma_command_words_spelled();
}

/// Law: help wins over everything: with no command word, or with `--help`
/// or `-h` anywhere on the line, the usage text is printed.
pub proof fn law_help_comes_first(args: Seq<String>)
    requires
        args.len() < 2 || exists|i: int| 0 <= i < args.len() && (args[i]@ == "--help"@ || args[i]@ == "-h"@),
    ensures
        route_of(args) == Route::Help,
{
}

/// Law: without a help flag, `--version` or `-V` anywhere prints the
/// version, whatever the command word.
pub proof fn law_version_comes_next(args: Seq<String>)
    requires
        args.len() >= 2,
        forall|i: int| 0 <= i < args.len() ==> args[i]@ != "--help"@ && args[i]@ != "-h"@,
        exists|i: int| 0 <= i < args.len() && (args[i]@ == "--version"@ || args[i]@ == "-V"@),
    ensures
        route_of(args) == Route::Version,
{
}

/// Law: without help or version flags, a command word that starts with `-`
/// is refused as malformed, and one that is no subcommand's word (nor
/// `help` or `version`) is refused as unknown.
pub proof fn law_bad_command_words_are_refused(args: Seq<String>)
    requires
        args.len() >= 2,
        forall|i: int|
            0 <= i < args.len() ==> args[i]@ != "--help"@ && args[i]@ != "-h"@ && args[i]@ != "--version"@ && args[i]@
                != "-V"@,
    ensures
        args[1]@.len() > 0 && args[1]@[0] == '-' ==> route_of(args) == Route::BadFormat,
        (args[1]@.len() == 0 || args[1]@[0] != '-') && args[1]@ != "help"@ && args[1]@ != "version"@ && (forall|
            c: Subcommand,
        | args[1]@ != #[trigger] command_word(c)) ==> route_of(args) == Route::Unknown,
{
    if (args[1]@.len() == 0 || args[1]@[0] != '-') && args[1]@ != "help"@ && args[1]@ != "version"@ && (forall|
        c: Subcommand,
    | args[1]@ != #[trigger] command_word(c)) {
        if let Some(c) = subcommand_named(args[1]@) {
            law_command_words_name_their_subcommand(args[1]@, c);
            assert(args[1]@ != command_word(c));
        }
    }
}

} // verus!
