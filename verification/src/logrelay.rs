//! Relaying of the supervised process's structured log output.
//!
//! Each line of the child's standard output is expected to be one compact
//! JSON object with the fields `time`, `latency`, `method`, `uri`, `status`
//! and `error`, in exactly that order and without escape sequences — the
//! shape the supervised server emits.  This is a deliberate narrowing: a
//! line with reordered fields, extra fields, or a `\"` escape inside a
//! value does not match the shape and counts as noise, like any other
//! non-matching line, and is dropped silently.  A record with a non-empty
//! error field is relayed at error severity, any other at informational
//! severity; no other severities are derived.

use vstd::prelude::*;

use crate::text::dec_spec;
use crate::text::find_char;
use crate::text::find_from;
use crate::text::has_prefix_at;
use crate::text::lemma_find_from;
use crate::text::parse_u16;
use crate::text::parse_u16_spec;
use crate::text::prefix_at;

verus! {

/// One parsed line of child output.
pub struct LogRecord {
    pub time: String,
    pub latency: String,
    pub method: String,
    pub uri: String,
    pub status: u16,
    pub error: String,
}

/// The mathematical content of a log record.
#[verifier::ext_equal]
pub ghost struct LogData {
    pub time: Seq<char>,
    pub latency: Seq<char>,
    pub method: Seq<char>,
    pub uri: Seq<char>,
    pub status: u16,
    pub error: Seq<char>,
}

impl View for LogRecord {
    type V = LogData;

    open spec fn view(&self) -> LogData {
        LogData {
            time: self.time@,
            latency: self.latency@,
            method: self.method@,
            uri: self.uri@,
            status: self.status,
            error: self.error@,
        }
    }
}

pub open spec fn j_time() -> Seq<char> {
    "{\"time\":\""@
}

pub open spec fn j_latency() -> Seq<char> {
    "\",\"latency\":\""@
}

pub open spec fn j_method() -> Seq<char> {
    "\",\"method\":\""@
}

pub open spec fn j_uri() -> Seq<char> {
    "\",\"uri\":\""@
}

pub open spec fn j_status() -> Seq<char> {
    "\",\"status\":"@
}

pub open spec fn j_error() -> Seq<char> {
    ",\"error\":\""@
}

pub open spec fn j_end() -> Seq<char> {
    "\"}"@
}

/// What a line of child output denotes: `Some` exactly on lines of the
/// expected shape.
pub open spec fn parse_log_spec(s: Seq<char>) -> Option<LogData> {
    if prefix_at(s, 0, j_time()) {
        let q1 = find_from(s, j_time().len() as int, '"');
        let time = s.subrange(j_time().len() as int, q1);
        if prefix_at(s, q1, j_latency()) {
            let q2 = find_from(s, q1 + j_latency().len(), '"');
            let latency = s.subrange(q1 + j_latency().len(), q2);
            if prefix_at(s, q2, j_method()) {
                let q3 = find_from(s, q2 + j_method().len(), '"');
                let method = s.subrange(q2 + j_method().len(), q3);
                if prefix_at(s, q3, j_uri()) {
                    let q4 = find_from(s, q3 + j_uri().len(), '"');
                    let uri = s.subrange(q3 + j_uri().len(), q4);
                    if prefix_at(s, q4, j_status()) {
                        let c = find_from(s, q4 + j_status().len(), ',');
                        match parse_u16_spec(s.subrange(q4 + j_status().len(), c)) {
                            None => None,
                            Some(status) => {
                                if prefix_at(s, c, j_error()) {
                                    let q5 = find_from(s, c + j_error().len(), '"');
                                    let error = s.subrange(c + j_error().len(), q5);
                                    if prefix_at(s, q5, j_end()) && q5 + j_end().len()
                                        == s.len() {
                                        Some(
                                            LogData { time, latency, method, uri, status, error },
                                        )
                                    } else {
                                        None
                                    }
                                } else {
                                    None
                                }
                            },
                        }
                    } else {
                        None
                    }
                } else {
                    None
                }
            } else {
                None
            }
        } else {
            None
        }
    } else {
        None
    }
}

/// Read a string field: the characters from `pos` up to the next `"`.
fn read_to_quote(s: &str, pos: usize) -> (r: (String, usize))
    requires
        pos <= s@.len(),
    ensures
        r.1 == find_from(s@, pos as int, '"'),
        r.0@ == s@.subrange(pos as int, r.1 as int),
        pos <= r.1 <= s@.len(),
{
    let q = find_char(s, pos, '"');
    proof {
        lemma_find_from(s@, pos as int, '"');
    }
    (s.substring_char(pos, q).to_owned(), q)
}

/// Parse one line of child output; `None` on a line of any other shape.
pub fn parse_log_line(s: &str) -> (r: Option<LogRecord>)
    ensures
        match r {
            None => parse_log_spec(s@) is None,
            Some(rec) => parse_log_spec(s@) == Some(rec@),
        },
{
    let n: usize = s.unicode_len();
    if !has_prefix_at(s, 0, "{\"time\":\"") {
        return None;
    }
    let (time, q1) = read_to_quote(s, "{\"time\":\"".unicode_len());
    if !has_prefix_at(s, q1, "\",\"latency\":\"") {
        return None;
    }
    let (latency, q2) = read_to_quote(s, q1 + "\",\"latency\":\"".unicode_len());
    if !has_prefix_at(s, q2, "\",\"method\":\"") {
        return None;
    }
    let (method, q3) = read_to_quote(s, q2 + "\",\"method\":\"".unicode_len());
    if !has_prefix_at(s, q3, "\",\"uri\":\"") {
        return None;
    }
    let (uri, q4) = read_to_quote(s, q3 + "\",\"uri\":\"".unicode_len());
    if !has_prefix_at(s, q4, "\",\"status\":") {
        return None;
    }
    let p4: usize = q4 + "\",\"status\":".unicode_len();
    let c = find_char(s, p4, ',');
    proof {
        lemma_find_from(s@, p4 as int, ',');
    }
    let status_opt = parse_u16(s.substring_char(p4, c));
    if status_opt.is_none() {
        return None;
    }
    let status: u16 = status_opt.unwrap();
    if !has_prefix_at(s, c, ",\"error\":\"") {
        return None;
    }
    let (error, q5) = read_to_quote(s, c + ",\"error\":\"".unicode_len());
    if !(has_prefix_at(s, q5, "\"}") && q5 + "\"}".unicode_len() == n) {
        return None;
    }
    let rec = LogRecord { time, latency, method, uri, status, error };
    proof {
        assert(parse_log_spec(s@) == Some(rec@));
    }
    Some(rec)
}

/// The informational relay message of a record.
pub open spec fn info_msg_spec(r: LogData) -> Seq<char> {
    "latency="@ + r.latency + ", method="@ + r.method + ", uri="@ + r.uri + ", status="@
        + dec_spec(r.status as int)
}

/// The error relay message of a record.
pub open spec fn err_msg_spec(r: LogData) -> Seq<char> {
    "latency="@ + r.latency + ", method="@ + r.method + ", uri="@ + r.uri + ", "@ + r.error
}

/// What the relay does with one line of child output.
pub struct RelayDecision {
    /// Whether the line is relayed at all.
    pub emit: bool,
    /// Whether the line is relayed at error severity.
    pub error_level: bool,
    /// The relayed message.
    pub message: String,
}

/// Decide how one line of child output is relayed: a line that does not
/// parse, or whose timestamp is empty, is dropped; a record with a
/// non-empty error is relayed at error severity; any other record at
/// informational severity.
pub fn classify_line(s: &str) -> (r: RelayDecision)
    ensures
        match parse_log_spec(s@) {
            None => !r.emit,
            Some(rec) => {
                if rec.time.len() == 0 {
                    !r.emit
                } else if rec.error.len() > 0 {
                    r.emit && r.error_level && r.message@ == err_msg_spec(rec)
                } else {
                    r.emit && !r.error_level && r.message@ == info_msg_spec(rec)
                }
            },
        },
{
    let parsed = parse_log_line(s);
    match parsed {
        None => RelayDecision { emit: false, error_level: false, message: String::new() },
        Some(rec) => {
            if rec.time.as_str().unicode_len() == 0 {
                return RelayDecision { emit: false, error_level: false, message: String::new() };
            }
            let mut msg: String = "latency=".to_owned();
            msg.append(rec.latency.as_str());
            msg.append(", method=");
            msg.append(rec.method.as_str());
            msg.append(", uri=");
            msg.append(rec.uri.as_str());
            if rec.error.as_str().unicode_len() > 0 {
                msg.append(", ");
                msg.append(rec.error.as_str());
                RelayDecision { emit: true, error_level: true, message: msg }
            } else {
                msg.append(", status=");
                let ds = crate::text::u16_to_dec(rec.status);
                msg.append(ds.as_str());
                RelayDecision { emit: true, error_level: false, message: msg }
            }
        },
    }
}

} // verus!
