//! The control socket's wire format: one command byte, an optional UTF-8
//! argument, and a trailing newline.

use vstd::prelude::*;
use vstd::utf8::{decode_utf8, encode_utf8, encode_utf8_decode_utf8, encode_utf8_valid_utf8, valid_utf8};
use crate::base::constants::{IPC_CMD_EXIT, IPC_CMD_PAUSE, IPC_CMD_RESTORE, IPC_CMD_RESUME, IPC_CMD_STATUS, IPC_DELIMITER};
use crate::num::{dec_int, lemma_parse_dec_int, parse_i64_chars, parse_i64_spec, push_i64};
use crate::text::{lossy_string, trim, trim_chars, utf8_lossy};

verus! {

/// A decoded control request.
#[derive(Debug, Clone, Copy, PartialEq, Eq, Structural)]
pub enum Command {
    /// Put the record with this stable ID back on the clipboard.
    Restore(i64),
    Exit,
    Status,
    Pause,
    Resume,
}

/// The command a frame carries, from its command byte and its argument text.
pub open spec fn command_from(code: u8, text: Seq<char>) -> Option<Command> {
    if code == IPC_CMD_EXIT {
        Some(Command::Exit)
    } else if code == IPC_CMD_STATUS {
        Some(Command::Status)
    } else if code == IPC_CMD_PAUSE {
        Some(Command::Pause)
    } else if code == IPC_CMD_RESUME {
        Some(Command::Resume)
    } else if code == IPC_CMD_RESTORE {
        match parse_i64_spec(trim(text)) {
            Some(v) => Some(Command::Restore(v as i64)),
            None => None,
        }
    } else {
        None
    }
}

/// The argument bytes of a frame: everything between the command byte and
/// the final byte (the delimiter).
pub open spec fn frame_argument(buf: Seq<u8>) -> Seq<u8> {
    buf.subrange(1, buf.len() - 1)
}

/// The command a received frame carries; a frame of one byte or less
/// carries none. The argument is read as lossy UTF-8.
pub open spec fn decoded(buf: Seq<u8>) -> Option<Command> {
    if buf.len() <= 1 {
        None
    } else {
        command_from(buf[0], utf8_lossy(frame_argument(buf)))
    }
}

/// The record ID in a restore request's argument text: the trimmed text as
/// an `i64`.
pub fn restore_target(text: &str) -> (r: Option<i64>)
    ensures
        match r {
            Some(v) => parse_i64_spec(trim(text@)) == Some(v as int),
            None => parse_i64_spec(trim(text@)) is None,
        },
{
    let t = trim_chars(text);
    assert(t@.subrange(0, t@.len() as int) =~= t@);
    parse_i64_chars(&t, 0, t.len())
}

impl Command {
    /// Decodes a received frame (read up to and including the delimiter).
    pub fn decode(buf: &[u8]) -> (r: Option<Command>)
        ensures
            r == decoded(buf@),
            buf@.len() > 1 && valid_utf8(frame_argument(buf@)) ==> r == command_from(
                buf@[0],
                decode_utf8(frame_argument(buf@)),
            ),
    {
        if buf.len() <= 1 {
            return None;
        }
        let n = buf.len() - 1;
        let code = buf[0];
        if code == IPC_CMD_EXIT {
            Some(Command::Exit)
        } else if code == IPC_CMD_STATUS {
            Some(Command::Status)
        } else if code == IPC_CMD_PAUSE {
            Some(Command::Pause)
        } else if code == IPC_CMD_RESUME {
            Some(Command::Resume)
        } else if code == IPC_CMD_RESTORE {
            let arg = slice_range(buf, 1, n);
            let text = lossy_string(arg.as_slice());
            match restore_target(text.as_str()) {
                Some(v) => Some(Command::Restore(v)),
                None => None,
            }
        } else {
            None
        }
    }
}

fn slice_range(buf: &[u8], lo: usize, hi: usize) -> (r: Vec<u8>)
    requires
        lo <= hi <= buf@.len(),
    ensures
        r@ == buf@.subrange(lo as int, hi as int),
{
    let mut out: Vec<u8> = Vec::new();
    let mut i = lo;
    while i < hi
        invariant
            lo <= i <= hi <= buf@.len(),
            out@ == buf@.subrange(lo as int, i as int),
        decreases hi - i,
    {
        out.push(buf[i]);
        i = i + 1;
        assert(out@ =~= buf@.subrange(lo as int, i as int));
    }
    out
}

/// The frame asking the daemon to restore record `id`: the restore byte,
/// the ID in decimal, the delimiter.
pub open spec fn restore_frame(id: i64) -> Seq<u8> {
    seq![IPC_CMD_RESTORE] + encode_utf8(dec_int(id as int)) + seq![IPC_DELIMITER]
}

pub fn encode_restore(id: i64) -> (r: Vec<u8>)
    ensures
        r@ == restore_frame(id),
{
    let mut text = String::new();
    push_i64(&mut text, id);
    assert(text@ =~= dec_int(id as int));
    let bytes = text.as_str().as_bytes();
    let mut out: Vec<u8> = Vec::new();
    out.push(IPC_CMD_RESTORE);
    let mut i: usize = 0;
    while i < bytes.len()
        invariant
            i <= bytes@.len(),
            bytes@ == encode_utf8(dec_int(id as int)),
            out@ == seq![IPC_CMD_RESTORE] + bytes@.subrange(0, i as int),
        decreases bytes@.len() - i,
    {
        out.push(bytes[i]);
        i = i + 1;
        assert(out@ =~= seq![IPC_CMD_RESTORE] + bytes@.subrange(0, i as int));
    }
    out.push(IPC_DELIMITER);
    assert(bytes@.subrange(0, bytes@.len() as int) =~= bytes@);
    assert(out@ =~= restore_frame(id));
    out
}

/// The frame of an argument-less request: its byte and the delimiter.
pub fn encode_simple(code: u8) -> (r: Vec<u8>)
    ensures
        r@ == seq![code, IPC_DELIMITER],
{
    let mut out: Vec<u8> = Vec::new();
    out.push(code);
    out.push(IPC_DELIMITER);
    assert(out@ =~= seq![code, IPC_DELIMITER]);
    out
}

/// A restore frame decodes to the restore of the same record: the
/// argument is valid UTF-8, and its text reads back as the ID.
pub proof fn law_restore_frame_round_trip(id: i64)
    ensures
        restore_frame(id).len() > 1,
        valid_utf8(frame_argument(restore_frame(id))),
        command_from(restore_frame(id)[0], decode_utf8(frame_argument(restore_frame(id)))) == Some(
            Command::Restore(id),
        ),
{
    let text = dec_int(id as int);
    let f = restore_frame(id);
    assert(frame_argument(f) =~= encode_utf8(text));
    encode_utf8_valid_utf8(text);
    encode_utf8_decode_utf8(text);
    lemma_parse_dec_int(id as int);
}

/// An argument-less request decodes to the command its byte names.
pub proof fn law_simple_frame_round_trip(code: u8)
    requires
        code == IPC_CMD_EXIT || code == IPC_CMD_STATUS || code == IPC_CMD_PAUSE || code == IPC_CMD_RESUME,
    ensures
        decoded(seq![code, IPC_DELIMITER]) == if code == IPC_CMD_EXIT {
            Some(Command::Exit)
        } else if code == IPC_CMD_STATUS {
            Some(Command::Status)
        } else if code == IPC_CMD_PAUSE {
            Some(Command::Pause)
        } else {
            Some(Command::Resume)
        },
{
}

} // verus!
