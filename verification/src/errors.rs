//! The library's error type, and the messages its errors read as.

use vstd::prelude::*;
use crate::lookup::join_path;
use crate::text::{append_chars, chars_of, join, string_of};

verus! {

/// Errors the documentation tools report; the text is a detail for the
/// reader of the message.
#[derive(Debug, PartialEq, Eq)]
pub enum Error {
    /// No crate or version at the given download location.
    VersionNotFound(String),
    /// A file the crate archive should hold is absent.
    MissingSourceFile(String),
    /// The manifest lacks the package metadata asked for.
    MissingMetadata(String),
    /// A requested resource (file, heading, release) does not exist.
    ResourceNotFound(String),
    /// The rustdoc JSON has a format version this library cannot read.
    UnsupportedRustdocJsonVersion(u32),
    /// No item at the given path.
    ItemNotFound(String),
    /// Anything else, with its message.
    Other(String),
}

/// The decimal digits of `n`.
pub open spec fn decimal(n: nat) -> Seq<char>
    decreases n,
{
    if n < 10 {
        seq![(('0' as nat) + n) as char]
    } else {
        decimal(n / 10) + seq![(('0' as nat) + n % 10) as char]
    }
}

/// The decimal digits of `n`.
pub fn decimal_text(n: u32) -> (r: Vec<char>)
    ensures
        r@ == decimal(n as nat),
    decreases n,
{
    let d = n % 10;
    let c = char_of_digit(d);
    if n < 10 {
        let mut r: Vec<char> = Vec::new();
        r.push(c);
        assert(r@ =~= decimal(n as nat));
        r
    } else {
        let mut r = decimal_text(n / 10);
        r.push(c);
        r
    }
}

fn char_of_digit(d: u32) -> (c: char)
    requires
        d < 10,
    ensures
        c == (('0' as nat) + d) as char,
{
    if d == 0 { '0' } else if d == 1 { '1' } else if d == 2 { '2' } else if d == 3 { '3' } else if d == 4 { '4' }
    else if d == 5 { '5' } else if d == 6 { '6' } else if d == 7 { '7' } else if d == 8 { '8' } else { '9' }
}

/// The message an error reads as.
pub open spec fn message_spec(e: Error) -> Seq<char> {
    match e {
        Error::VersionNotFound(u) => "crate or version not found on "@ + u@,
        Error::MissingSourceFile(f) => "missing source file in crate: "@ + f@,
        Error::MissingMetadata(m) => "missing metadata in crate: "@ + m@,
        Error::ResourceNotFound(_) => "resource not found"@,
        Error::UnsupportedRustdocJsonVersion(v) => "unsupported rustdoc json version: "@ + decimal(v as nat),
        Error::ItemNotFound(p) => "item not found: "@ + p@,
        Error::Other(m) => "other error: "@ + m@,
    }
}

impl Error {
    /// No item at `path`; the message names the path joined with `::`.
    pub fn item_not_found(path: &[String]) -> (e: Error)
        ensures
            e matches Error::ItemNotFound(p) && p@ == join(crate::lookup::seg_views(path@), "::"@),
    {
        Error::ItemNotFound(join_path(path))
    }

    /// The message the error reads as.
    pub fn message(&self) -> (r: String)
        ensures
            r@ == message_spec(*self),
    {
        let (mut head, tail) = match self {
            Error::VersionNotFound(u) => (chars_of("crate or version not found on "), chars_of(u.as_str())),
            Error::MissingSourceFile(f) => (chars_of("missing source file in crate: "), chars_of(f.as_str())),
            Error::MissingMetadata(m) => (chars_of("missing metadata in crate: "), chars_of(m.as_str())),
            Error::ResourceNotFound(_) => (chars_of("resource not found"), Vec::new()),
            Error::UnsupportedRustdocJsonVersion(v) => (chars_of("unsupported rustdoc json version: "), decimal_text(*v)),
            Error::ItemNotFound(p) => (chars_of("item not found: "), chars_of(p.as_str())),
            Error::Other(m) => (chars_of("other error: "), chars_of(m.as_str())),
        };
        append_chars(&mut head, &tail);
        let r = string_of(&head);
        assert(r@ =~= message_spec(*self));
        r
    }
}

/// How a tool answers an error: a resource the request named is missing, or
/// the server failed.
#[derive(Clone, Copy, Debug, PartialEq, Eq, Structural)]
pub enum ReplyKind {
    ResourceNotFound,
    Internal,
}

/// How a tool answers an error, and with which message: failures of the
/// server with their own message, every other error as a missing resource
/// with the error's message.
pub open spec fn reply_spec(e: Error) -> (ReplyKind, Seq<char>) {
    match e {
        Error::Other(m) => (ReplyKind::Internal, m@),
        _ => (ReplyKind::ResourceNotFound, message_spec(e)),
    }
}

/// How a tool answers the error, and with which message.
pub fn reply(e: &Error) -> (r: (ReplyKind, String))
    ensures
        (r.0, r.1@) == reply_spec(*e),
{
    match e {
        Error::Other(m) => (ReplyKind::Internal, String::from_str(m.as_str())),
        _ => (ReplyKind::ResourceNotFound, e.message()),
    }
}

} // verus!
