use vstd::prelude::*;

use crate::maps::string_of;
use crate::text::{chars_of, find_char, lemma_lines_step, lines, strip_cr};
use vstd::utf8::{decode_utf8, valid_utf8};

verus! {

/// The settings that the library and the log server read.
pub struct Config {
    /// Whether logs are sent to the log server.
    pub logging: bool,
    /// The host of the log server.
    pub host: String,
    /// The port of the log server.
    pub port: u16,
    /// The directory where the log server keeps the logs.
    pub log_dir: String,
}

/// The log server serves only where logging is on.
pub fn server_may_run(conf: &Config) -> (r: bool)
    ensures
        r == conf.logging,
{
    conf.logging
}

/// Which process a call of `fork` returned in.
#[derive(Clone, Copy, Debug, PartialEq, Eq, Structural)]
pub enum ForkRole {
    /// `fork` failed.
    Failed,
    /// This is the new process.
    Child,
    /// This is the process that called `fork`.
    Parent,
}

/// The role given by the value that `fork` returned: -1 is a failure, 0
/// the child, any other value the parent.
pub fn fork_role(pid: i32) -> (r: ForkRole)
    ensures
        pid == -1 ==> r == ForkRole::Failed,
        pid == 0 ==> r == ForkRole::Child,
        pid != -1 && pid != 0 ==> r == ForkRole::Parent,
{
    if pid == -1 {
        ForkRole::Failed
    } else if pid == 0 {
        ForkRole::Child
    } else {
        ForkRole::Parent
    }
}

/// What `String::from_utf8_lossy` makes of `bytes`.
pub uninterp spec fn lossy_utf8(bytes: Seq<u8>) -> Seq<char>;

/// Decodes bytes as UTF-8, each invalid sequence becoming U+FFFD.
///
/// Trusted: `String::from_utf8_lossy`.  The contract names the text it
/// gives [`lossy_utf8`], and states what its documentation says of valid
/// UTF-8: it decodes as it is.
#[verifier::external_body]
fn decode_lossy(bytes: &[u8]) -> (s: String)
    ensures
        s@ == lossy_utf8(bytes@),
        valid_utf8(bytes@) ==> s@ == decode_utf8(bytes@),
{
    String::from_utf8_lossy(bytes).into_owned()
}

/// The user that a log names: the first line of its text.
pub open spec fn log_user(buf: Seq<u8>) -> Option<Seq<char>> {
    first_line_of(lossy_utf8(buf))
}

/// The first line of `text`; `None` when it has no line (it is empty).
pub open spec fn first_line_of(text: Seq<char>) -> Option<Seq<char>> {
    let ls = lines(text);
    if ls.len() > 0 {
        Some(ls[0])
    } else {
        None
    }
}

/// The first line of `text`, as `str::lines` gives it; `None` when the
/// text is empty.
pub fn first_line(text: &str) -> (r: Option<String>)
    ensures
        lines(text@).len() > 0 ==> (r matches Some(s) && s@ == lines(text@)[0]),
        lines(text@).len() == 0 ==> r is None,
{
    let chars = chars_of(text);
    let n = chars.len();
    if n == 0 {
        assert(lines(chars@) =~= seq![]);
        return None;
    }
    let e = find_char(&chars, 0, n, '\n');
    proof {
        assert(chars@.subrange(0, n as int) =~= chars@);
        lemma_lines_step(chars@, 0, e as int);
    }
    let end = if e < n && e > 0 && chars[e - 1] == '\r' {
        e - 1
    } else {
        e
    };
    proof {
        if e < n {
            let t = chars@.subrange(0, e as int);
            if end < e {
                assert(t.drop_last() =~= chars@.subrange(0, end as int));
            }
            assert(strip_cr(t) == chars@.subrange(0, end as int));
        }
    }
    Some(string_of(&chars, 0, end))
}

/// The user that the log `buf` names, as [`log_user`] says; `None` when
/// the log is empty.
pub fn log_username(buf: &[u8]) -> (r: Option<String>)
    ensures
        match log_user(buf@) {
            Some(u) => r matches Some(s) && s@ == u,
            None => r is None,
        },
        valid_utf8(buf@) ==> match first_line_of(decode_utf8(buf@)) {
            Some(u) => r matches Some(s) && s@ == u,
            None => r is None,
        },
        buf@.len() == 0 ==> r is None,
{
    let text = decode_lossy(buf);
    first_line(text.as_str())
}

/// The RFC 3339 text of the instant `secs` seconds and `nanos` nanoseconds
/// after the Unix epoch, seen from the time zone `offset_secs` seconds
/// east of UTC, as `chrono` writes it.
pub uninterp spec fn rfc3339_text(secs: i64, nanos: u32, offset_secs: i32) -> Option<Seq<char>>;

/// Writes an instant in RFC 3339 form.
///
/// Trusted: `chrono::FixedOffset::east_opt`, `chrono::DateTime::from_timestamp`,
/// `DateTime::with_timezone` and `DateTime::to_rfc3339`.  The contract
/// names the text [`rfc3339_text`], and states what `east_opt` shows: an
/// offset of a day or more gives none.
#[verifier::external_body]
fn rfc3339(secs: i64, nanos: u32, offset_secs: i32) -> (r: Option<String>)
    ensures
        match rfc3339_text(secs, nanos, offset_secs) {
            Some(t) => r matches Some(s) && s@ == t,
            None => r is None,
        },
        !(-86400 < offset_secs < 86400) ==> r is None,
{
    match (chrono::FixedOffset::east_opt(offset_secs), chrono::DateTime::from_timestamp(secs, nanos)) {
        (Some(offset), Some(t)) => Some(t.with_timezone(&offset).to_rfc3339()),
        _ => None,
    }
}

/// Why no log file can be named.
#[derive(Clone, Copy, Debug, PartialEq, Eq, Structural)]
pub enum LogPathError {
    /// The log is empty, so it names no user.
    NoUsername,
    /// The instant cannot be written.
    BadTime,
}

/// Where the log server keeps the log `buf` that a connection opened at
/// the given instant sent: in the directory named after the user that the
/// log names, in a file named after the instant.
pub fn log_destination(buf: &[u8], secs: i64, nanos: u32, offset_secs: i32) -> (r: Result<
    (String, String),
    LogPathError,
>)
    ensures
        match (log_user(buf@), rfc3339_text(secs, nanos, offset_secs)) {
            (None, _) => r == Err::<(String, String), LogPathError>(LogPathError::NoUsername),
            (Some(_), None) => r == Err::<(String, String), LogPathError>(LogPathError::BadTime),
            (Some(u), Some(t)) => r matches Ok((user, file)) && user@ == u && file@ == t,
        },
        valid_utf8(buf@) ==> match first_line_of(decode_utf8(buf@)) {
            None => r == Err::<(String, String), LogPathError>(LogPathError::NoUsername),
            Some(u) => r is Ok ==> (r matches Ok((user, _)) && user@ == u),
        },
        buf@.len() == 0 ==> r == Err::<(String, String), LogPathError>(LogPathError::NoUsername),
        log_user(buf@) is Some && !(-86400 < offset_secs < 86400) ==> r == Err::<
            (String, String),
            LogPathError,
        >(LogPathError::BadTime),
{
    let user = match log_username(buf) {
        Some(u) => u,
        None => {
            return Err(LogPathError::NoUsername);
        },
    };
    match rfc3339(secs, nanos, offset_secs) {
        Some(t) => Ok((user, t)),
        None => Err(LogPathError::BadTime),
    }
}

} // verus!
