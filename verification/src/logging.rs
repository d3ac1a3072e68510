use vstd::prelude::*;

use crate::text::utf8_text;
use vstd::string::StringSliceAdditionalSpecFns;
use vstd::utf8::{decode_utf8, encode_utf8, encode_utf8_decode_utf8, valid_utf8};

verus! {

// ----------------------------------------------------------------------
// The connection to the log server
// ----------------------------------------------------------------------

/// The state of the connection to the log server: whether the one attempt
/// to connect has been made, and whether it succeeded.
pub struct LogState {
    pub initialized: bool,
    pub connected: bool,
}

impl LogState {
    /// Only an attempt that was made can have succeeded.
    pub open spec fn wf(&self) -> bool {
        self.connected ==> self.initialized
    }

    /// No attempt made yet.
    pub fn new() -> (s: LogState)
        ensures
            !s.initialized,
            !s.connected,
            s.wf(),
    {
        LogState { initialized: false, connected: false }
    }

    /// Whether a connection must be attempted now, as [`wants_connection`]
    /// says.
    pub fn needs_connection(&self, logging: bool) -> (r: bool)
        ensures
            r == wants_connection(*self, logging),
    {
        logging && !self.initialized
    }

    /// Whether the process must stop because it could not reach the log
    /// server although a logger is required: the attempt was made and
    /// failed.
    pub fn logger_missing(&self, require_logger: bool) -> (r: bool)
        ensures
            r == (require_logger && self.initialized && !self.connected),
    {
        require_logger && self.initialized && !self.connected
    }

    /// Records how the attempt to connect ended, as [`recorded`] says.
    pub fn record_connection(&mut self, connected: bool)
        requires
            old(self).wf(),
        ensures
            *final(self) == recorded(*old(self), connected),
            final(self).wf(),
    {
        if !self.initialized {
            self.initialized = true;
            self.connected = connected;
        }
    }
}

/// A connection must be attempted when logging is on in the configuration
/// and no attempt has been made.
pub open spec fn wants_connection(s: LogState, logging: bool) -> bool {
    logging && !s.initialized
}

/// The state once an attempt that ended with `connected` is recorded: only
/// the first attempt counts.
pub open spec fn recorded(s: LogState, connected: bool) -> LogState {
    if s.initialized {
        s
    } else {
        LogState { initialized: true, connected }
    }
}

/// What to send to the log server for `info`: its bytes when there is a
/// connection, nothing when there is none.
pub fn log<'a>(state: &LogState, info: &'a str) -> (r: Option<&'a [u8]>)
    ensures
        r is Some <==> state.connected,
        r matches Some(b) ==> b@ == info.spec_bytes(),
{
    if state.connected {
        Some(info.as_bytes())
    } else {
        None
    }
}

/// The connection is attempted at most once: after an attempt is
/// recorded, none is asked for again, whatever the configuration says, and
/// a later record changes nothing.
pub proof fn law_connect_at_most_once(s: LogState, first: bool, later: bool, logging: bool)
    ensures
        !wants_connection(recorded(s, first), logging),
        recorded(recorded(s, first), later) == recorded(s, first),
{
}

proof fn lemma_encode_utf8_concat(a: Seq<char>, b: Seq<char>)
    ensures
        encode_utf8(a + b) == encode_utf8(a) + encode_utf8(b),
    decreases a.len(),
{
    if a.len() == 0 {
        assert(a + b =~= b);
        assert(encode_utf8(a) =~= seq![]);
        assert(encode_utf8(a) + encode_utf8(b) =~= encode_utf8(b));
    } else {
        lemma_encode_utf8_concat(a.drop_first(), b);
        assert((a + b).drop_first() =~= a.drop_first() + b);
        assert((a + b)[0] == a[0]);
        assert(encode_utf8(a + b) =~= encode_utf8(a) + encode_utf8(b));
    }
}

/// Logging two texts one after the other sends the same bytes as logging
/// the text that joins them: the bytes that [`log`] gives for `a`,
/// followed by those it gives for `b`, are the bytes of `a` + `b`.
pub proof fn law_log_concatenates(a: &str, b: &str, joined: &str)
    requires
        joined@ == a@ + b@,
    ensures
        a.spec_bytes() + b.spec_bytes() == joined.spec_bytes(),
{
    lemma_encode_utf8_concat(a@, b@);
}

// ----------------------------------------------------------------------
// Messages about hooked calls
// ----------------------------------------------------------------------

/// The text logged for `fputs(s, stream)`, where `text` is what `s` holds.
pub open spec fn fputs_message(text: Seq<char>, to_stdout: bool) -> Seq<char> {
    "fputs(s=&\""@ + text + ", stream="@ + (if to_stdout {
        "stdout"@
    } else {
        "unknown"@
    }) + "\")\n"@
}

/// The text logged for `puts(s)`, where `text` is what `s` holds.
pub open spec fn puts_message(text: Seq<char>) -> Seq<char> {
    "puts(s=&\""@ + text + "\")\n"@
}

/// The log line of `fputs` holds the whole text that was written, with
/// nothing removed or added, right after the ten characters of
/// `fputs(s=&"`, and then `, stream=`.
pub proof fn law_fputs_message_holds_text(text: Seq<char>, to_stdout: bool)
    ensures
        fputs_message(text, to_stdout).subrange(10, 10 + text.len() as int) == text,
        fputs_message(text, to_stdout).subrange(10 + text.len() as int, 19 + text.len() as int) == seq![
            ',',
            ' ',
            's',
            't',
            'r',
            'e',
            'a',
            'm',
            '=',
        ],
        fputs_message(text, to_stdout).len() == text.len() + if to_stdout {
            28int
        } else {
            29int
        },
{
    reveal_strlit("fputs(s=&\"");
    reveal_strlit(", stream=");
    reveal_strlit("stdout");
    reveal_strlit("unknown");
    reveal_strlit("\")\n");
    let m = fputs_message(text, to_stdout);
    assert(m.subrange(10, 10 + text.len() as int) =~= text);
    assert(m.subrange(10 + text.len() as int, 19 + text.len() as int) =~= seq![
        ',',
        ' ',
        's',
        't',
        'r',
        'e',
        'a',
        'm',
        '=',
    ]);
}

/// The log line of `puts` holds the whole text that was written, with
/// nothing removed or added, between `puts(s=&"` and `")` and a newline.
pub proof fn law_puts_message_holds_text(text: Seq<char>)
    ensures
        puts_message(text).subrange(9, 9 + text.len() as int) == text,
        puts_message(text).len() == text.len() + 12,
        puts_message(text)[9 + text.len() as int] == '"',
        puts_message(text)[11 + text.len() as int] == '\n',
{
    reveal_strlit("puts(s=&\"");
    reveal_strlit("\")\n");
    let m = puts_message(text);
    assert(m.subrange(9, 9 + text.len() as int) =~= text);
}

/// The log line for a call of `fputs` on the string of bytes `s`, which
/// writes to standard output when `to_stdout`; `None` when `s` is not
/// UTF-8.
pub fn fputs_log_message(s: &[u8], to_stdout: bool) -> (r: Option<String>)
    ensures
        r is Some <==> valid_utf8(s@),
        r matches Some(m) ==> m@ == fputs_message(decode_utf8(s@), to_stdout),
        r matches Some(m) ==> m@ == "fputs(s=&\""@ + decode_utf8(s@) + ", stream="@ + (if to_stdout {
            "stdout"@
        } else {
            "unknown"@
        }) + "\")\n"@,
{
    match utf8_text(s) {
        None => None,
        Some(text) => {
            proof {
                encode_utf8_decode_utf8(text@);
            }
            let mut m = String::new();
            m.append("fputs(s=&\"");
            m.append(text);
            m.append(", stream=");
            if to_stdout {
                m.append("stdout");
            } else {
                m.append("unknown");
            }
            m.append("\")\n");
            Some(m)
        },
    }
}

/// The log line for a call of `puts` on the string of bytes `s`; `None`
/// when `s` is not UTF-8.
pub fn puts_log_message(s: &[u8]) -> (r: Option<String>)
    ensures
        r is Some <==> valid_utf8(s@),
        r matches Some(m) ==> m@ == puts_message(decode_utf8(s@)),
        r matches Some(m) ==> m@ == "puts(s=&\""@ + decode_utf8(s@) + "\")\n"@,
{
    match utf8_text(s) {
        None => None,
        Some(text) => {
            proof {
                encode_utf8_decode_utf8(text@);
            }
            let mut m = String::new();
            m.append("puts(s=&\"");
            m.append(text);
            m.append("\")\n");
            Some(m)
        },
    }
}

} // verus!
