use vstd::prelude::*;

use crate::observation::{opt_view, Observation};
use crate::time::Timestamp;

verus! {

/// What `url::Url::parse(base)` followed by `join(path)` serializes to,
/// or none where either step fails.
pub uninterp spec fn url_joined(base: Seq<char>, path: Seq<char>) -> Option<Seq<char>>;

/// Relies on `url::Url::parse` and `url::Url::join`: resolves `path`
/// against `base` and gives the serialized result, or none where `base`
/// is no absolute URL or the join fails.
#[verifier::external_body]
pub(crate) fn join_url(base: &str, path: &str) -> (r: Option<String>)
    ensures
        opt_view(r) == url_joined(base@, path@),
{
    let joined = url::Url::parse(base).ok()?.join(path).ok()?;
    Some(joined.to_string())
}

/// Why a probe could not be made.
#[derive(Clone, Copy, Debug, PartialEq, Eq, Structural)]
pub enum ProbeError {
    /// The target is no URL against which the diagnostic path resolves.
    InvalidTarget,
}

/// The diagnostic path that a probe requests.
pub const TRACE_PATH: &'static str = "/cdn-cgi/trace";

/// The address that a probe of `target` requests: the diagnostic path
/// resolved against the target.
pub fn trace_url(target: &str) -> (r: Result<String, ProbeError>)
    ensures
        match url_joined(target@, TRACE_PATH@) {
            Some(u) => r matches Ok(s) && s@ == u,
            None => r == Err::<String, ProbeError>(ProbeError::InvalidTarget),
        },
{
    match join_url(target, TRACE_PATH) {
        Some(u) => Ok(u),
        None => Err(ProbeError::InvalidTarget),
    }
}

/// The number of characters of `s` before its first line feed.
pub open spec fn line_len(s: Seq<char>) -> nat
    decreases s.len(),
{
    if s.len() == 0 || s[0] == '\n' {
        0
    } else {
        1 + line_len(s.drop_first())
    }
}

/// The key that names the routing identifier in a trace, with its `=`.
pub open spec fn colo_key() -> Seq<char> {
    seq!['c', 'o', 'l', 'o', '=']
}

/// The first line of `s` as `str::lines` gives it: up to the first line
/// feed, without a carriage return that stands right before that feed.
pub open spec fn first_line(s: Seq<char>) -> Seq<char> {
    let n = line_len(s);
    if n < s.len() && n > 0 && s[n - 1] == '\r' {
        s.take(n - 1)
    } else {
        s.take(n as int)
    }
}

/// The routing identifier of a trace body: what follows `colo=` on the
/// first line that starts with it.
pub open spec fn colo_in(s: Seq<char>) -> Option<Seq<char>>
    decreases s.len(),
{
    let l = first_line(s);
    if l.len() >= 5 && l.take(5) == colo_key() {
        Some(l.skip(5))
    } else if line_len(s) < s.len() {
        colo_in(s.skip(line_len(s) + 1int))
    } else {
        None
    }
}

proof fn lemma_line_len(s: Seq<char>, end: int)
    requires
        0 <= end <= s.len(),
        forall|k: int| 0 <= k < end ==> s[k] != '\n',
        end == s.len() || s[end] == '\n',
    ensures
        line_len(s) == end,
    decreases end,
{
    if end > 0 {
        lemma_line_len(s.drop_first(), end - 1);
    }
}

/// Whether `body` holds the identifier key at position `at`.
fn key_at(body: &str, at: usize, n: usize) -> (r: bool)
    requires
        at + 5 <= n,
        n == body@.len(),
    ensures
        r == (body@.subrange(at as int, at + 5) == colo_key()),
{
    let r = body.get_char(at) == 'c' && body.get_char(at + 1) == 'o' && body.get_char(at + 2)
        == 'l' && body.get_char(at + 3) == 'o' && body.get_char(at + 4) == '=';
    assert(r ==> body@.subrange(at as int, at + 5) =~= colo_key());
    assert(body@.subrange(at as int, at + 5) =~= colo_key() ==> r) by {
        if body@.subrange(at as int, at + 5) =~= colo_key() {
            assert(body@.subrange(at as int, at + 5)[0] == 'c');
            assert(body@.subrange(at as int, at + 5)[1] == 'o');
            assert(body@.subrange(at as int, at + 5)[2] == 'l');
            assert(body@.subrange(at as int, at + 5)[3] == 'o');
            assert(body@.subrange(at as int, at + 5)[4] == '=');
        }
    }
    r
}

/// The routing identifier that a trace body names (see `colo_in`).
pub fn extract_colo(body: &str) -> (r: Option<String>)
    ensures
        opt_view(r) == colo_in(body@),
{
    let n = body.unicode_len();
    let mut start: usize = 0;
    assert(body@.skip(0) =~= body@);
    loop
        invariant
            n == body@.len(),
            start <= n,
            colo_in(body@) == colo_in(body@.skip(start as int)),
        decreases n - start,
    {
        let ghost s = body@.skip(start as int);
        let mut end: usize = start;
        while end < n && body.get_char(end) != '\n'
            invariant
                start <= end <= n,
                n == body@.len(),
                forall|k: int| start <= k < end ==> body@[k] != '\n',
            decreases n - end,
        {
            end = end + 1;
        }
        proof {
            lemma_line_len(s, end - start);
        }
        let stop: usize = if end < n && end > start && body.get_char(end - 1) == '\r' {
            end - 1
        } else {
            end
        };
        assert(first_line(s) =~= body@.subrange(start as int, stop as int));
        if stop - start >= 5 && key_at(body, start, n) {
            assert(first_line(s).take(5) =~= body@.subrange(start as int, start + 5));
            let v = body.substring_char(start + 5, stop).to_owned();
            assert(first_line(s).skip(5) =~= body@.subrange(start + 5, stop as int));
            return Some(v);
        }
        proof {
            if stop - start >= 5 {
                assert(first_line(s).take(5) =~= body@.subrange(start as int, start + 5));
            }
        }
        if end < n {
            assert(s.skip(line_len(s) + 1int) =~= body@.skip(end + 1));
            start = end + 1;
        } else {
            return None;
        }
    }
}

/// The largest round-trip time an observation records, in milliseconds.
pub open spec fn clamped_millis(ms: u128) -> u64 {
    if ms > u64::MAX {
        u64::MAX
    } else {
        ms as u64
    }
}

/// The observation of a probe of `url` that got `body` back after
/// `elapsed_millis`, at `timestamp`.
pub fn observe_success(url: String, timestamp: Timestamp, elapsed_millis: u128, body: &str) -> (r:
    Observation)
    ensures
        r.url@ == url@,
        r.timestamp == timestamp,
        r.success,
        r.rtt_millis == Some(clamped_millis(elapsed_millis)),
        r.error is None,
        opt_view(r.colo) == colo_in(body@),
{
    let rtt: u64 = if elapsed_millis > u64::MAX as u128 {
        u64::MAX
    } else {
        elapsed_millis as u64
    };
    Observation {
        timestamp,
        url,
        success: true,
        rtt_millis: Some(rtt),
        error: None,
        colo: extract_colo(body),
    }
}

/// The observation of a probe of `url` that failed with `error`, at
/// `timestamp`.
pub fn observe_failure(url: String, timestamp: Timestamp, error: String) -> (r: Observation)
    ensures
        r.url@ == url@,
        r.timestamp == timestamp,
        !r.success,
        r.rtt_millis is None,
        opt_view(r.error) == Some(error@),
        r.colo is None,
{
    Observation { timestamp, url, success: false, rtt_millis: None, error: Some(error), colo: None }
}

} // verus!
