//! Timestamps and log-line rendering.
//!
//! Every log line has the shape `[stamp] TAG: payload` followed by a
//! newline, where the stamp renders the current UTC time. The rendering
//! of the stamp is delegated to chrono; everything around it is built
//! and specified here.

use vstd::prelude::*;
use vstd::string::StrSliceExecFns;
use vstd::string::StringExecFns;

verus! {

/// The rendering of a Unix timestamp as `YYYY-MM-DD HH:MM:SS` in UTC.
pub uninterp spec fn utc_format_of(secs: u64) -> Seq<char>;

/// The last second of the year 9999, the latest the formatter accepts.
pub const MAX_FORMAT_SECS: u64 = 253402300799;

/// Relies on chrono's `DateTime::from_timestamp` and its strftime-style
/// `format`: for seconds in range the conversion succeeds, and the
/// rendered text is a function of the timestamp alone.
#[verifier::external_body]
pub(crate) fn format_utc_timestamp(secs: u64) -> (r: String)
    requires
        secs <= MAX_FORMAT_SECS,
    ensures
        r@ == utc_format_of(secs),
{
    chrono::DateTime::from_timestamp(secs as i64, 0).unwrap().format("%Y-%m-%d %H:%M:%S").to_string()
}

/// Relies on chrono's `Utc::now`: the current time, of which nothing is
/// assumed.
#[verifier::external_body]
fn now_timestamp() -> (r: i64) {
    chrono::Utc::now().timestamp()
}

/// Seconds since the Unix epoch now, clamped to zero should the clock
/// sit before the epoch. Nothing further can be promised of the time.
pub fn now_utc_seconds() -> (r: u64) {
    let t = now_timestamp();
    if t < 0 {
        0
    } else {
        t as u64
    }
}

/// The decimal digit for a value below ten.
pub open spec fn decimal_digit(d: u64) -> char
    recommends
        d < 10,
{
    "0123456789"@[d as int]
}

/// The decimal rendering of a number, most significant digit first.
pub open spec fn decimal_of(n: u64) -> Seq<char>
    decreases n,
{
    if n < 10 {
        seq![decimal_digit(n)]
    } else {
        decimal_of(n / 10).push(decimal_digit(n % 10))
    }
}

/// Renders a number in decimal.
pub fn fmt_u64(n: u64) -> (s: String)
    ensures
        s@ == decimal_of(n),
    decreases n,
{
    proof {
        reveal_strlit("0123456789");
    }
    let digits: &str = "0123456789";
    let d = (n % 10) as usize;
    let ds = digits.substring_char(d, d + 1);
    proof {
        assert(ds@ =~= seq![decimal_digit(n % 10)]);
    }
    if n < 10 {
        ds.to_owned()
    } else {
        let mut s = fmt_u64(n / 10);
        s.append(ds);
        s
    }
}

/// One log line: `[stamp] TAG: payload` and a newline.
pub open spec fn log_line_spec(stamp: Seq<char>, tag: Seq<char>, payload: Seq<char>) -> Seq<char> {
    "["@ + stamp + "] "@ + tag + ": "@ + payload + "\n"@
}

/// Renders one log line for the given timestamp, tag and payload.
pub fn format_log_line(ts_secs: u64, tag: &str, payload: &str) -> (r: String)
    requires
        ts_secs <= MAX_FORMAT_SECS,
    ensures
        r@ == log_line_spec(utc_format_of(ts_secs), tag@, payload@),
{
    let stamp = format_utc_timestamp(ts_secs);
    let mut s = String::new();
    s.append("[");
    s.append(stamp.as_str());
    s.append("] ");
    s.append(tag);
    s.append(": ");
    s.append(payload);
    s.append("\n");
    proof {
        assert(s@ =~= log_line_spec(utc_format_of(ts_secs), tag@, payload@));
    }
    s
}

/// The tag of a supervisor-generated line: `SYSTEM host:port`.
pub open spec fn system_tag_spec(host: Seq<char>, port: u16) -> Seq<char> {
    "SYSTEM "@ + host + ":"@ + decimal_of(port as u64)
}

/// Renders the SYSTEM tag for this supervisor instance.
pub fn system_tag(host: &str, port: u16) -> (r: String)
    ensures
        r@ == system_tag_spec(host@, port),
{
    let mut s = String::new();
    s.append("SYSTEM ");
    s.append(host);
    s.append(":");
    let p = fmt_u64(port as u64);
    s.append(p.as_str());
    proof {
        assert(s@ =~= system_tag_spec(host@, port));
    }
    s
}

/// The tag of a periodic-run pump line: `RUN#n STDOUT` or `RUN#n STDERR`.
pub open spec fn run_tag_spec(n: u64, stderr: bool) -> Seq<char> {
    "RUN#"@ + decimal_of(n) + (if stderr {
        " STDERR"@
    } else {
        " STDOUT"@
    })
}

/// Renders the tag of a periodic-run pump line.
pub fn run_tag(n: u64, stderr: bool) -> (r: String)
    ensures
        r@ == run_tag_spec(n, stderr),
{
    let mut s = String::new();
    s.append("RUN#");
    let d = fmt_u64(n);
    s.append(d.as_str());
    if stderr {
        s.append(" STDERR");
    } else {
        s.append(" STDOUT");
    }
    proof {
        assert(s@ =~= run_tag_spec(n, stderr));
    }
    s
}

} // verus!
