//! Ready-line parsing and readiness-response validation.
//!
//! The sidecar announces readiness with a stdout line that contains
//! `listening at http://127.0.0.1:` followed by the bound port, and its
//! HTTP version endpoint is probed until it answers a `200` response whose
//! body carries the backend's identity fields.
use vstd::prelude::*;
use vstd::string::StringSliceAdditionalSpecFns;

use crate::bytestr::contains_seq;
use crate::bytestr::contains_subslice;
use crate::bytestr::find_sub;
use crate::bytestr::find_subslice;
use crate::bytestr::lemma_find_sub;
use crate::bytestr::match_at;
use crate::bytestr::slice_starts_with;
use crate::bytestr::starts_with;
use crate::numfmt::append_decimal;
use crate::numfmt::dec_str;

verus! {

/// The marker that a ready announcement must contain; the port digits
/// follow it immediately.
pub open spec fn ready_marker() -> Seq<u8> {
    "listening at http://127.0.0.1:".spec_bytes()
}

pub open spec fn is_ascii_digit(b: u8) -> bool {
    ('0' as u8) <= b <= ('9' as u8)
}

/// Length of the run of ASCII digits at the front of `s`.
pub open spec fn digit_run_len(s: Seq<u8>) -> int
    decreases s.len(),
{
    if s.len() == 0 || !is_ascii_digit(s[0]) {
        0
    } else {
        1 + digit_run_len(s.drop_first())
    }
}

/// Value of a run of ASCII decimal digits.
pub open spec fn dec_value(digits: Seq<u8>) -> nat
    decreases digits.len(),
{
    if digits.len() == 0 {
        0
    } else {
        dec_value(digits.drop_last()) * 10 + (digits.last() - ('0' as u8)) as nat
    }
}

/// The port announced by a ready line: the decimal digits directly after
/// the first occurrence of the marker, provided there is at least one and
/// their value fits a port number. A URL elsewhere in the line (a probe
/// target, a health path) does not end in a bare port and therefore does
/// not match.
pub open spec fn spec_listening_port(s: Seq<u8>) -> Option<u16> {
    match find_sub(s, ready_marker()) {
        None => None,
        Some(i) => {
            let after = s.skip(i + ready_marker().len() as int);
            let digits = after.take(digit_run_len(after));
            if digits.len() == 0 {
                None
            } else if dec_value(digits) <= 0xffff {
                Some(dec_value(digits) as u16)
            } else {
                None
            }
        },
    }
}

/// The digit run is exactly the front segment whose bytes are all digits,
/// delimited by the end of the sequence or the first non-digit.
proof fn lemma_digit_run_eq(s: Seq<u8>, m: int)
    requires
        0 <= m <= s.len(),
        forall|k: int| 0 <= k < m ==> is_ascii_digit(s[k]),
        m == s.len() || !is_ascii_digit(s[m]),
    ensures
        digit_run_len(s) == m,
    decreases s.len(),
{
    if s.len() == 0 {
    } else if !is_ascii_digit(s[0]) {
        assert(m == 0);
    } else {
        assert(m >= 1);
        let t = s.drop_first();
        assert(forall|k: int| 0 <= k < m - 1 ==> t[k] == s[k + 1]);
        if m - 1 < t.len() {
            assert(t[m - 1] == s[m]);
        }
        lemma_digit_run_eq(t, m - 1);
    }
}

/// A prefix of a digit run never exceeds the whole run's value.
proof fn lemma_dec_value_prefix(s: Seq<u8>, m: int)
    requires
        0 <= m <= s.len(),
    ensures
        dec_value(s.take(m)) <= dec_value(s),
    decreases s.len() - m,
{
    if m == s.len() {
        assert(s.take(m) =~= s);
    } else {
        assert(s.take(m + 1).drop_last() =~= s.take(m));
        assert(s.take(m + 1).last() == s[m]);
        assert(dec_value(s.take(m)) <= dec_value(s.take(m + 1)));
        lemma_dec_value_prefix(s, m + 1);
    }
}

/// Parses the port announced by a sidecar stdout line, or `None` when the
/// line is not a listening announcement.
pub fn parse_listening_port(line: &str) -> (r: Option<u16>)
    ensures
        r == spec_listening_port(line.spec_bytes()),
{
    let bytes: &[u8] = line.as_bytes();
    let marker: &[u8] = "listening at http://127.0.0.1:".as_bytes();
    let found = find_subslice(bytes, marker);
    let i = match found {
        None => {
            return None;
        },
        Some(i) => i,
    };
    let hlen: usize = bytes.len();
    proof {
        assert(marker@ == ready_marker());
        lemma_find_sub(bytes@, marker@);
        assert(match_at(bytes@, marker@, i as int));
    }
    let start: usize = i + marker.len();
    let ghost after = bytes@.skip(start as int);
    let mut j: usize = start;
    while j < hlen && ('0' as u8) <= bytes[j] && bytes[j] <= ('9' as u8)
        invariant
            start <= j <= hlen,
            hlen == bytes@.len(),
            start <= hlen,
            bytes@ == line.spec_bytes(),
            Some(i as int) == find_sub(bytes@, ready_marker()),
            start == i + ready_marker().len(),
            after == bytes@.skip(start as int),
            forall|k: int| start <= k < j ==> is_ascii_digit(bytes@[k]),
        decreases hlen - j,
    {
        j += 1;
    }
    proof {
        assert(after.len() == hlen - start);
        assert(forall|k: int| 0 <= k < after.len() ==> after[k] == bytes@[start + k]);
        lemma_digit_run_eq(after, j - start);
    }
    if j == start {
        proof {
            assert(after.take(0) =~= Seq::<u8>::empty());
        }
        return None;
    }
    let ghost digits = after.take(j - start);
    let mut acc: u32 = 0;
    let mut p: usize = start;
    while p < j
        invariant
            start <= p <= j <= hlen,
            start < j,
            hlen == bytes@.len(),
            bytes@ == line.spec_bytes(),
            Some(i as int) == find_sub(bytes@, ready_marker()),
            start == i + ready_marker().len(),
            after == bytes@.skip(start as int),
            digits == after.take(j - start),
            digit_run_len(after) == j - start,
            forall|k: int| start <= k < j ==> is_ascii_digit(bytes@[k]),
            acc <= 0xffff,
            acc == dec_value(after.take(p - start)),
        decreases j - p,
    {
        let d: u8 = bytes[p] - ('0' as u8);
        let prev = acc;
        acc = acc * 10 + d as u32;
        proof {
            assert(after.take(p + 1 - start).drop_last() =~= after.take(p - start));
            assert(after.take(p + 1 - start).last() == bytes@[p as int]);
            assert(acc == dec_value(after.take(p + 1 - start)));
        }
        p += 1;
        if acc > 0xffff {
            proof {
                lemma_dec_value_prefix(digits, p - start);
                assert(digits.take(p - start) =~= after.take(p - start));
                assert(dec_value(digits) > 0xffff);
            }
            return None;
        }
    }
    proof {
        assert(after.take(p - start) =~= digits);
        assert(acc == dec_value(digits) <= 0xffff);
    }
    Some(acc as u16)
}

/// Everything after the first header terminator: `\r\n\r\n` when present,
/// else `\n\n`, else no body at all.
pub open spec fn spec_response_body(s: Seq<u8>) -> Option<Seq<u8>> {
    match find_sub(s, "\r\n\r\n".spec_bytes()) {
        Some(i) => Some(s.skip(i + "\r\n\r\n".spec_bytes().len() as int)),
        None => match find_sub(s, "\n\n".spec_bytes()) {
            Some(i) => Some(s.skip(i + "\n\n".spec_bytes().len() as int)),
            None => None,
        },
    }
}

/// The body names all three identity fields of the backend's version
/// endpoint.
pub open spec fn has_identity_fields(body: Seq<u8>) -> bool {
    contains_seq(body, "\"version\"".spec_bytes()) && contains_seq(body, "\"commit\"".spec_bytes())
        && contains_seq(body, "\"build_date\"".spec_bytes())
}

/// A probe response is accepted exactly when its status line reports 200
/// and its body carries the three identity fields; a 200 from some other
/// service on the port is rejected.
pub open spec fn spec_version_response_valid(s: Seq<u8>) -> bool {
    (starts_with(s, "HTTP/1.1 200".spec_bytes()) || starts_with(s, "HTTP/1.0 200".spec_bytes()))
        && match spec_response_body(s) {
        Some(body) => has_identity_fields(body),
        None => false,
    }
}

/// Validates one readiness-probe response.
pub fn version_response_looks_valid(response: &[u8]) -> (r: bool)
    ensures
        r == spec_version_response_valid(response@),
{
    let ok11 = slice_starts_with(response, "HTTP/1.1 200".as_bytes());
    let ok10 = slice_starts_with(response, "HTTP/1.0 200".as_bytes());
    if !ok11 && !ok10 {
        return false;
    }
    let rlen: usize = response.len();
    let crlf: &[u8] = "\r\n\r\n".as_bytes();
    let lf: &[u8] = "\n\n".as_bytes();
    let body_start: usize;
    match find_subslice(response, crlf) {
        Some(idx) => {
            proof {
                lemma_find_sub(response@, crlf@);
                assert(match_at(response@, crlf@, idx as int));
            }
            body_start = idx + crlf.len();
        },
        None => {
            match find_subslice(response, lf) {
                Some(idx) => {
                    proof {
                        lemma_find_sub(response@, lf@);
                        assert(match_at(response@, lf@, idx as int));
                    }
                    body_start = idx + lf.len();
                },
                None => {
                    return false;
                },
            }
        },
    }
    let body: &[u8] = &response[body_start..response.len()];
    proof {
        assert(body@ =~= response@.skip(body_start as int));
    }
    let has_version = contains_subslice(body, "\"version\"".as_bytes());
    let has_commit = contains_subslice(body, "\"commit\"".as_bytes());
    let has_build_date = contains_subslice(body, "\"build_date\"".as_bytes());
    has_version && has_commit && has_build_date
}

/// Decides readiness from one probe exchange: the attempt succeeded only
/// if a response arrived at all and it validates as the backend's version
/// endpoint. A missing or empty response is one more failed poll, never an
/// error.
pub fn backend_endpoint_ready(response: &Option<Vec<u8>>) -> (r: bool)
    ensures
        r == match *response {
            Some(resp) => spec_version_response_valid(resp@),
            None => false,
        },
{
    match response {
        Some(resp) => version_response_looks_valid(resp.as_slice()),
        None => false,
    }
}

/// The request each readiness poll sends: a minimal HTTP/1.1 exchange for
/// the version endpoint that closes the connection after one response.
pub open spec fn spec_probe_request(port: u16) -> Seq<char> {
    "GET /api/v1/version HTTP/1.1\r\nHost: 127.0.0.1:"@ + dec_str(port as nat)
        + "\r\nConnection: close\r\n\r\n"@
}

/// Builds the readiness-probe request for the given port.
pub fn probe_request(port: u16) -> (r: String)
    ensures
        r@ == spec_probe_request(port),
{
    let mut s = String::from_str("GET /api/v1/version HTTP/1.1\r\nHost: 127.0.0.1:");
    append_decimal(&mut s, port);
    s.append("\r\nConnection: close\r\n\r\n");
    s
}

/// The URL the view navigates to once the backend is ready.
pub open spec fn spec_backend_url(port: u16) -> Seq<char> {
    "http://127.0.0.1:"@ + dec_str(port as nat)
}

/// Builds the backend's base URL for the given port.
pub fn backend_url(port: u16) -> (r: String)
    ensures
        r@ == spec_backend_url(port),
{
    let mut s = String::from_str("http://127.0.0.1:");
    append_decimal(&mut s, port);
    s
}

/// Fixed interval between readiness polls, in milliseconds.
pub const READY_POLL_INTERVAL_MS: u64 = 125;

/// Overall startup deadline, in milliseconds.
pub const READY_TIMEOUT_MS: u64 = 30000;

/// Upper bound on any timeout this library accounts in milliseconds: one
/// day, far beyond the fixed deadlines, small enough that the elapsed
/// counter can never overflow.
pub const MAX_TIMEOUT_MS: u64 = 86400000;

/// Accounting for the fixed-interval readiness poll: the loop attempts a
/// probe only while the elapsed time is under the deadline, so the number
/// of attempts — and with it the worst-case startup latency — is bounded.
pub struct ReadinessClock {
    pub elapsed_ms: u64,
    pub timeout_ms: u64,
}

impl ReadinessClock {
    pub open spec fn wf(&self) -> bool {
        self.timeout_ms <= MAX_TIMEOUT_MS && self.elapsed_ms <= self.timeout_ms
            + READY_POLL_INTERVAL_MS
    }

    pub fn new(timeout_ms: u64) -> (c: Self)
        requires
            timeout_ms <= MAX_TIMEOUT_MS,
        ensures
            c.wf(),
            c.elapsed_ms == 0,
            c.timeout_ms == timeout_ms,
    {
        ReadinessClock { elapsed_ms: 0, timeout_ms }
    }

    /// Whether the overall deadline has passed; the poll loop stops probing
    /// and reports failure as soon as this holds.
    pub fn deadline_reached(&self) -> (r: bool)
        ensures
            r == (self.elapsed_ms >= self.timeout_ms),
    {
        self.elapsed_ms >= self.timeout_ms
    }

    /// Accounts one failed probe attempt followed by the fixed poll delay.
    pub fn note_failed_attempt(&mut self)
        requires
            old(self).wf(),
            old(self).elapsed_ms < old(self).timeout_ms,
        ensures
            final(self).wf(),
            final(self).elapsed_ms == old(self).elapsed_ms + READY_POLL_INTERVAL_MS,
            final(self).timeout_ms == old(self).timeout_ms,
    {
        self.elapsed_ms = self.elapsed_ms + READY_POLL_INTERVAL_MS;
    }
}

} // verus!
