//! Answers to the endpoints: codes and headers.

use vstd::prelude::*;
use vstd::string::StringSliceAdditionalSpecFns;

use crate::decimal::{decimal, decimal_value, format_usize, law_decimal_is_the_number};

verus! {

/// The operation succeeded.
pub const NGX_OK: isize = 0;

/// The operation failed.
pub const NGX_ERROR: isize = -1;

pub const OK: isize = 200;

pub const NO_CONTENT: isize = 204;

pub const BAD_REQUEST: isize = 400;

pub const NOT_FOUND: isize = 404;

pub const NOT_ALLOWED: isize = 405;

/// How a purge was answered.
#[derive(Clone, Copy, Debug, PartialEq, Eq)]
pub enum Source {
    Index,
    Scan,
}

/// A header of an answer.
#[derive(Clone, Copy, Debug, PartialEq, Eq)]
pub enum ReplyHeader {
    /// The one method that a purge endpoint answers.
    AllowPurge,
    /// The methods that a status endpoint answers.
    AllowRead,
    /// How the answer was reached.
    PurgeSource(Source),
    /// How many entries were invalidated.
    PurgedCount(usize),
    /// How many files a scan visited.
    ScannedFiles(usize),
    /// How many files a scan wrote back into the index.
    IndexedFiles(usize),
    /// The type of a status document.
    JsonContent,
}

impl ReplyHeader {
    pub open spec fn name_text(self) -> Seq<char> {
        match self {
            ReplyHeader::AllowPurge => "allow"@,
            ReplyHeader::AllowRead => "allow"@,
            ReplyHeader::PurgeSource(_) => "x-purge-source"@,
            ReplyHeader::PurgedCount(_) => "x-purged-count"@,
            ReplyHeader::ScannedFiles(_) => "x-scanned-files"@,
            ReplyHeader::IndexedFiles(_) => "x-indexed-files"@,
            ReplyHeader::JsonContent => "content-type"@,
        }
    }

    pub open spec fn value_bytes(self) -> Seq<u8> {
        match self {
            ReplyHeader::AllowPurge => "PURGE".spec_bytes(),
            ReplyHeader::AllowRead => "GET, HEAD".spec_bytes(),
            ReplyHeader::PurgeSource(Source::Index) => "index".spec_bytes(),
            ReplyHeader::PurgeSource(Source::Scan) => "scan".spec_bytes(),
            ReplyHeader::PurgedCount(n) => decimal(n as nat),
            ReplyHeader::ScannedFiles(n) => decimal(n as nat),
            ReplyHeader::IndexedFiles(n) => decimal(n as nat),
            ReplyHeader::JsonContent => "application/json".spec_bytes(),
        }
    }

    /// The header's name.
    pub fn name(&self) -> (name: &'static str)
        ensures
            name@ == self.name_text(),
    {
        match self {
            ReplyHeader::AllowPurge => "allow",
            ReplyHeader::AllowRead => "allow",
            ReplyHeader::PurgeSource(_) => "x-purge-source",
            ReplyHeader::PurgedCount(_) => "x-purged-count",
            ReplyHeader::ScannedFiles(_) => "x-scanned-files",
            ReplyHeader::IndexedFiles(_) => "x-indexed-files",
            ReplyHeader::JsonContent => "content-type",
        }
    }

    /// The header's value.
    pub fn value(&self) -> (value: Vec<u8>)
        ensures
            value@ == self.value_bytes(),
    {
        match self {
            ReplyHeader::AllowPurge => text("PURGE"),
            ReplyHeader::AllowRead => text("GET, HEAD"),
            ReplyHeader::PurgeSource(Source::Index) => text("index"),
            ReplyHeader::PurgeSource(Source::Scan) => text("scan"),
            ReplyHeader::PurgedCount(n) => number(*n),
            ReplyHeader::ScannedFiles(n) => number(*n),
            ReplyHeader::IndexedFiles(n) => number(*n),
            ReplyHeader::JsonContent => text("application/json"),
        }
    }
}

fn text(s: &str) -> (bytes: Vec<u8>)
    ensures
        bytes@ == s.spec_bytes(),
{
    vstd::slice::slice_to_vec(s.as_bytes())
}

fn number(n: usize) -> (bytes: Vec<u8>)
    ensures
        bytes@ == decimal(n as nat),
{
    let mut buf: [u8; 20] = [0;20];
    vstd::slice::slice_to_vec(format_usize(&mut buf, n))
}

/// What a handler returns once the header of its answer has been sent: the
/// result of sending it, if that stopped the answer.
pub open spec fn sent_code(rc: isize) -> isize {
    if rc == NGX_ERROR || rc > NGX_OK {
        rc
    } else {
        NGX_OK
    }
}

/// The codes are those of HTTP, and of NGINX for success and failure.
pub proof fn law_codes()
    ensures
        OK == 200 && NO_CONTENT == 204 && BAD_REQUEST == 400 && NOT_FOUND == 404 && NOT_ALLOWED
            == 405,
        NGX_OK == 0 && NGX_ERROR == -1,
{
}

/// A failure to send the header, a negative one or the code of another answer,
/// is what the handler returns; anything else counts as sent.
pub proof fn law_failure_to_send_is_returned(rc: isize)
    ensures
        rc > 0 || rc == -1 ==> sent_code(rc) == rc,
        rc == 0 || rc < -1 ==> sent_code(rc) == 0,
{
}

/// A header with a number has the name for that number, whatever the number
/// is, and its value reads as the number.
pub proof fn law_numbers_read_as_themselves(n: usize)
    ensures
        ReplyHeader::PurgedCount(n).name_text() == "x-purged-count"@,
        ReplyHeader::ScannedFiles(n).name_text() == "x-scanned-files"@,
        ReplyHeader::IndexedFiles(n).name_text() == "x-indexed-files"@,
        decimal_value(ReplyHeader::PurgedCount(n).value_bytes()) == n,
        decimal_value(ReplyHeader::ScannedFiles(n).value_bytes()) == n,
        decimal_value(ReplyHeader::IndexedFiles(n).value_bytes()) == n,
        forall|i: int|
            0 <= i < ReplyHeader::PurgedCount(n).value_bytes().len() ==> 48
                <= #[trigger] ReplyHeader::PurgedCount(n).value_bytes()[i] <= 57,
        forall|i: int|
            0 <= i < ReplyHeader::ScannedFiles(n).value_bytes().len() ==> 48
                <= #[trigger] ReplyHeader::ScannedFiles(n).value_bytes()[i] <= 57,
        forall|i: int|
            0 <= i < ReplyHeader::IndexedFiles(n).value_bytes().len() ==> 48
                <= #[trigger] ReplyHeader::IndexedFiles(n).value_bytes()[i] <= 57,
        ReplyHeader::PurgedCount(n).value_bytes()[0] == 48 ==> n == 0,
        ReplyHeader::ScannedFiles(n).value_bytes()[0] == 48 ==> n == 0,
        ReplyHeader::IndexedFiles(n).value_bytes()[0] == 48 ==> n == 0,
{
    law_decimal_is_the_number(n as nat);
}

/// The other headers have these names and values.
pub proof fn law_fixed_headers()
    ensures
        ReplyHeader::AllowPurge.name_text() == "allow"@,
        ReplyHeader::AllowPurge.value_bytes() == "PURGE".spec_bytes(),
        ReplyHeader::AllowRead.name_text() == "allow"@,
        ReplyHeader::AllowRead.value_bytes() == "GET, HEAD".spec_bytes(),
        ReplyHeader::PurgeSource(Source::Index).name_text() == "x-purge-source"@,
        ReplyHeader::PurgeSource(Source::Scan).name_text() == "x-purge-source"@,
        ReplyHeader::PurgeSource(Source::Index).value_bytes() == "index".spec_bytes(),
        ReplyHeader::PurgeSource(Source::Scan).value_bytes() == "scan".spec_bytes(),
        ReplyHeader::JsonContent.name_text() == "content-type"@,
        ReplyHeader::JsonContent.value_bytes() == "application/json".spec_bytes(),
{
}

} // verus!
