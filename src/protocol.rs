//! Wire messages between clients and the server, and their line framing.
//!
//! Each message travels as one line of JSON text ended by a single newline
//! byte; blank lines carry nothing.

use vstd::prelude::*;
use vstd::string::*;

use crate::diff::EditList;
use crate::document::Document;
use crate::text::{bytes_of, chars_of};

verus! {

/// A message of the synchronization protocol.
#[derive(Debug)]
pub enum SyncMessage {
    /// A client asks to join and to receive the current document.
    Connect { client_id: String },
    /// A client's edits since its last round; may be empty, to poll.
    ClientSync { client_id: String, edits: EditList, client_version: u64 },
    /// The server's reply to a `ClientSync`; may be empty.
    ServerSync { edits: EditList, server_version: u64 },
    /// The server accepts a client and hands it the authoritative document.
    ConnectOk { server_version: u64, document: Document },
    /// A non-fatal error report.
    Error { message: String },
    /// A client leaves.
    Disconnect { client_id: String },
    Ping,
    Pong,
}

/// The frame around one message's text: its UTF-8 bytes and a newline.
pub fn frame_message(text: &str) -> (r: Vec<u8>)
    ensures
        r@ == bytes_of(text@).push(10u8),
{
    let mut r = text.as_bytes_vec();
    r.push(10u8);
    r
}

/// Whether `c` is an ASCII blank: space, tab, carriage return or newline.
pub open spec fn is_blank(c: char) -> bool {
    c == ' ' || c == '\t' || c == '\r' || c == '\n'
}

/// `s` without its leading and trailing blanks.
pub open spec fn trim_blanks(s: Seq<char>) -> Seq<char> {
    let start = first_non_blank(s, 0);
    let end = last_non_blank_end(s, s.len());
    if start < end {
        s.subrange(start as int, end as int)
    } else {
        Seq::empty()
    }
}

/// The index of the first non-blank character at or after `i`, or the length.
pub open spec fn first_non_blank(s: Seq<char>, i: nat) -> nat
    decreases s.len() - i,
{
    if i < s.len() && is_blank(s[i as int]) {
        first_non_blank(s, i + 1)
    } else {
        i
    }
}

/// The end of the last non-blank character at or before `j`, or 0.
pub open spec fn last_non_blank_end(s: Seq<char>, j: nat) -> nat
    decreases j,
{
    if 0 < j <= s.len() && is_blank(s[j - 1]) {
        last_non_blank_end(s, (j - 1) as nat)
    } else {
        j
    }
}

/// Relies on std::str::from_utf8: on success, a text whose UTF-8 encoding is
/// exactly the given bytes; a failure, with the error's description, only for
/// bytes that are not the UTF-8 encoding of any text.
#[verifier::external_body]
fn decode_utf8_text(data: &[u8]) -> (r: Result<String, String>)
    ensures
        r matches Ok(s) ==> bytes_of(s@) == data@,
        r is Err ==> forall|s: Seq<char>| #[trigger] bytes_of(s) != data@,
{
    match std::str::from_utf8(data) {
        Ok(s) => Ok(s.to_owned()),
        Err(e) => Err(e.to_string()),
    }
}

/// The text of one framed line: decoded as UTF-8 and stripped of surrounding
/// blanks; `None` for a blank line, an error for bytes that are not UTF-8.
pub fn unframe_line(data: &[u8]) -> (r: Result<Option<String>, String>)
    ensures
        match r {
            Ok(Some(t)) => exists|s: Seq<char>|
                bytes_of(s) == data@ && trim_blanks(s) == t@ && t@.len() > 0,
            Ok(None) => exists|s: Seq<char>|
                bytes_of(s) == data@ && trim_blanks(s).len() == 0,
            Err(_) => forall|s: Seq<char>| #[trigger] bytes_of(s) != data@,
        },
{
    let text = match decode_utf8_text(data) {
        Ok(t) => t,
        Err(e) => {
            return Err(e);
        },
    };
    let cs = chars_of(text.as_str());
    let mut start: usize = 0;
    while start < cs.len() && is_blank_char(cs[start])
        invariant
            start <= cs@.len(),
            cs@ == text@,
            first_non_blank(cs@, start as nat) == first_non_blank(cs@, 0),
        decreases cs@.len() - start,
    {
        start += 1;
    }
    let mut end: usize = cs.len();
    while end > 0 && is_blank_char(cs[end - 1])
        invariant
            end <= cs@.len(),
            cs@ == text@,
            last_non_blank_end(cs@, end as nat) == last_non_blank_end(cs@, cs@.len()),
        decreases end,
    {
        end -= 1;
    }
    if start < end {
        let t = text.as_str().substring_char(start, end).to_owned();
        Ok(Some(t))
    } else {
        Ok(None)
    }
}

fn is_blank_char(c: char) -> (r: bool)
    ensures
        r == is_blank(c),
{
    c == ' ' || c == '\t' || c == '\r' || c == '\n'
}

} // verus!
