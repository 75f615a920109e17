//! Login-shell environment capture.
//!
//! The user's login shell is invoked non-interactively to dump its
//! exported environment in a NUL-delimited format. This module holds the
//! verified parts: choosing the shell, parsing the NUL-delimited byte
//! stream, and the polling state machine that bounds how long the caller
//! can wait for the shell — even when the shell leaks its output pipe to a
//! long-lived descendant.
use vstd::prelude::*;
use vstd::string::StringSliceAdditionalSpecFns;
use vstd::utf8::encode_utf8;

use crate::bytestr::find_byte;
use crate::bytestr::find_byte_in;
use crate::env_merge::pairs_view;
use crate::readiness::MAX_TIMEOUT_MS;

verus! {

/// How long the whole login-shell capture may take, in milliseconds.
pub const LOGIN_SHELL_TIMEOUT_MS: u64 = 3000;

/// Interval between polls of the shell's exit status, in milliseconds.
pub const LOGIN_SHELL_POLL_MS: u64 = 25;

/// How long the caller waits for the background reader to hand over what
/// it captured, in milliseconds.
pub const LOGIN_SHELL_READER_GRACE_MS: u64 = 300;

/// Whether the login shell is probed at all: never on Windows, and not
/// when the explicit skip flag is set in the environment.
pub fn should_probe_login_shell(skip: Option<&Vec<u8>>, is_windows: bool) -> (r: bool)
    ensures
        r == (!is_windows && skip is None),
{
    !is_windows && skip.is_none()
}

/// Whether a byte is whitespace for the purpose of treating a configured
/// shell path as blank.
pub open spec fn is_blank_byte(b: u8) -> bool {
    b == 32 || b == 9 || b == 10 || b == 13 || b == 11 || b == 12
}

/// A value that trims to nothing.
pub open spec fn all_blank(s: Seq<u8>) -> bool {
    forall|i: int| 0 <= i < s.len() ==> is_blank_byte(s[i])
}

/// The shell to probe: the configured one when it is set and non-blank,
/// else the platform default — zsh on macOS, the Bourne shell elsewhere.
pub open spec fn spec_login_shell(configured: Option<Seq<char>>, is_macos: bool) -> Seq<char> {
    let fallback = if is_macos {
        "/bin/zsh"@
    } else {
        "/bin/sh"@
    };
    match configured {
        Some(s) => if all_blank(encode_utf8(s)) {
            fallback
        } else {
            s
        },
        None => fallback,
    }
}

fn is_all_blank(s: &str) -> (r: bool)
    ensures
        r == all_blank(s.spec_bytes()),
{
    let bytes: &[u8] = s.as_bytes();
    let blen: usize = bytes.len();
    let mut i: usize = 0;
    while i < blen
        invariant
            0 <= i <= blen,
            blen == bytes@.len(),
            bytes@ == s.spec_bytes(),
            forall|j: int| 0 <= j < i ==> is_blank_byte(bytes@[j]),
        decreases blen - i,
    {
        let b = bytes[i];
        if !(b == 32 || b == 9 || b == 10 || b == 13 || b == 11 || b == 12) {
            return false;
        }
        i += 1;
    }
    true
}

fn default_shell(is_macos: bool) -> (r: String)
    ensures
        r@ == if is_macos {
            "/bin/zsh"@
        } else {
            "/bin/sh"@
        },
{
    if is_macos {
        String::from_str("/bin/zsh")
    } else {
        String::from_str("/bin/sh")
    }
}

/// Chooses the shell path for the probe from the configured shell
/// variable, falling back to the platform default when it is unset or
/// blank.
pub fn select_login_shell(configured: Option<String>, is_macos: bool) -> (r: String)
    ensures
        r@ == spec_login_shell(configured.deep_view(), is_macos),
{
    match configured {
        Some(s) => {
            let blank = is_all_blank(s.as_str());
            if blank {
                default_shell(is_macos)
            } else {
                s
            }
        },
        None => default_shell(is_macos),
    }
}

/// The entries contributed by one NUL-delimited segment: none when it is
/// empty, has no `=`, or starts with `=` (an empty key); otherwise the
/// bytes before the first `=` as key and everything after it, untouched,
/// as value.
pub open spec fn entry_of_segment(seg: Seq<u8>) -> Seq<(Seq<u8>, Seq<u8>)> {
    if seg.len() == 0 {
        seq![]
    } else {
        match find_byte(seg, '=' as u8) {
            None => seq![],
            Some(eq) => if eq == 0 {
                seq![]
            } else {
                seq![(seg.take(eq), seg.skip(eq + 1))]
            },
        }
    }
}

/// All entries of a NUL-delimited environment dump, in order.
pub open spec fn nul_env_entries(s: Seq<u8>) -> Seq<(Seq<u8>, Seq<u8>)>
    decreases s.len(),
    via nul_env_entries_decreases
{
    if s.len() == 0 {
        seq![]
    } else {
        match find_byte(s, 0u8) {
            None => entry_of_segment(s),
            Some(z) => entry_of_segment(s.take(z)) + nul_env_entries(s.skip(z + 1)),
        }
    }
}

#[via_fn]
proof fn nul_env_entries_decreases(s: Seq<u8>) {
    crate::bytestr::lemma_find_byte(s, 0u8);
}

/// Appends the entry of the segment `content[ls..le]`, if it has one.
fn push_segment_entry(out: &mut Vec<(Vec<u8>, Vec<u8>)>, content: &[u8], ls: usize, le: usize)
    requires
        ls <= le <= content@.len(),
    ensures
        pairs_view(final(out)@) == pairs_view(old(out)@) + entry_of_segment(
            content@.subrange(ls as int, le as int),
        ),
{
    let ghost seg = content@.subrange(ls as int, le as int);
    if ls == le {
        proof {
            assert(pairs_view(out@) + entry_of_segment(seg) =~= pairs_view(out@));
        }
        return ;
    }
    match find_byte_in(content, '=' as u8, ls, le) {
        None => {
            proof {
                assert(pairs_view(out@) + entry_of_segment(seg) =~= pairs_view(out@));
            }
        },
        Some(eq) => {
            if eq == ls {
                proof {
                    assert(pairs_view(out@) + entry_of_segment(seg) =~= pairs_view(out@));
                }
                return ;
            }
            let key = vstd::slice::slice_to_vec(&content[ls..eq]);
            let value = vstd::slice::slice_to_vec(&content[eq + 1..le]);
            proof {
                assert(key@ =~= seg.take(eq - ls));
                assert(value@ =~= seg.skip(eq - ls + 1));
            }
            let ghost before = pairs_view(out@);
            out.push((key, value));
            proof {
                let after = pairs_view(out@);
                assert(after =~= before + seq![(key@, value@)]);
                assert(after =~= before + entry_of_segment(seg));
            }
        },
    }
}

/// Parses a NUL-delimited environment dump: splits on NUL bytes, discards
/// empty segments and segments without a key, and keeps every value
/// byte-for-byte, valid text or not.
pub fn parse_nul_env(content: &[u8]) -> (r: Vec<(Vec<u8>, Vec<u8>)>)
    ensures
        pairs_view(r@) == nul_env_entries(content@),
{
    let clen: usize = content.len();
    let mut out: Vec<(Vec<u8>, Vec<u8>)> = Vec::new();
    let mut start: usize = 0;
    proof {
        assert(pairs_view(out@) + nul_env_entries(content@) =~= nul_env_entries(content@));
        assert(content@.skip(0) =~= content@);
    }
    while start < clen
        invariant
            0 <= start <= clen,
            clen == content@.len(),
            nul_env_entries(content@) == pairs_view(out@) + nul_env_entries(
                content@.skip(start as int),
            ),
        decreases clen - start,
    {
        let ghost rest = content@.skip(start as int);
        let ghost before = pairs_view(out@);
        match find_byte_in(content, 0u8, start, clen) {
            Some(z) => {
                proof {
                    assert(content@.subrange(start as int, clen as int) =~= rest);
                    assert(find_byte(rest, 0u8) == Some(z - start as int));
                    assert(rest.take(z - start as int) =~= content@.subrange(
                        start as int,
                        z as int,
                    ));
                }
                push_segment_entry(&mut out, content, start, z);
                proof {
                    assert(rest.skip(z - start + 1) =~= content@.skip(z + 1));
                    assert(nul_env_entries(rest) == entry_of_segment(
                        content@.subrange(start as int, z as int),
                    ) + nul_env_entries(content@.skip(z + 1)));
                    assert(pairs_view(out@) + nul_env_entries(content@.skip(z + 1)) =~= before
                        + nul_env_entries(rest));
                }
                start = z + 1;
            },
            None => {
                proof {
                    assert(content@.subrange(start as int, clen as int) =~= rest);
                    assert(find_byte(rest, 0u8) is None);
                    assert(nul_env_entries(rest) == entry_of_segment(rest));
                }
                push_segment_entry(&mut out, content, start, clen);
                proof {
                    assert(content@.skip(clen as int) =~= Seq::<u8>::empty());
                    assert(pairs_view(out@) + nul_env_entries(content@.skip(clen as int))
                        =~= before + nul_env_entries(rest));
                }
                start = clen;
            },
        }
    }
    proof {
        assert(content@.skip(start as int) =~= Seq::<u8>::empty());
        assert(pairs_view(out@) =~= nul_env_entries(content@));
    }
    out
}

/// What polling the shell's exit status reported.
pub enum ShellPoll {
    /// The shell is still running.
    Running,
    /// The shell exited; `success` is whether its status was zero.
    Exited { success: bool },
    /// The exit status could not be queried.
    PollFailed,
}

/// What the capture loop must do next.
#[derive(Debug, PartialEq, Eq)]
pub enum ShellProbeAction {
    /// Give the probe up with no result.
    Abort,
    /// Sleep one poll interval, then poll again.
    SleepAndPoll,
    /// The deadline passed with the shell still running: kill it, reap
    /// it, wait at most the reader grace for partial output, then fail.
    KillAndAbandon,
    /// The shell exited non-zero: wait at most the reader grace so the
    /// background reader is not leaked, then fail.
    DrainAfterFailure,
    /// The shell exited cleanly: wait at most the reader grace for the
    /// captured output and use it.
    DrainAndCollect,
}

/// Elapsed-time accounting for the capture loop. It only ever sleeps
/// while under the deadline, so the total slept time stays below the
/// timeout plus one poll interval.
pub struct ProbeClock {
    pub elapsed_ms: u64,
    pub timeout_ms: u64,
}

/// The action owed for one poll of the shell's status.
pub open spec fn spec_probe_action(c: ProbeClock, poll: ShellPoll) -> ShellProbeAction {
    match poll {
        ShellPoll::PollFailed => ShellProbeAction::Abort,
        ShellPoll::Exited { success } => if success {
            ShellProbeAction::DrainAndCollect
        } else {
            ShellProbeAction::DrainAfterFailure
        },
        ShellPoll::Running => if c.elapsed_ms >= c.timeout_ms {
            ShellProbeAction::KillAndAbandon
        } else {
            ShellProbeAction::SleepAndPoll
        },
    }
}

impl ProbeClock {
    pub open spec fn wf(&self) -> bool {
        self.timeout_ms <= MAX_TIMEOUT_MS && self.elapsed_ms <= self.timeout_ms
            + LOGIN_SHELL_POLL_MS
    }

    pub fn new(timeout_ms: u64) -> (c: Self)
        requires
            timeout_ms <= MAX_TIMEOUT_MS,
        ensures
            c.wf(),
            c.elapsed_ms == 0,
            c.timeout_ms == timeout_ms,
    {
        ProbeClock { elapsed_ms: 0, timeout_ms }
    }
}

/// One turn of the capture loop: decides the next action from the poll
/// result and accounts the sleep it prescribes.
pub fn login_probe_step(clock: &mut ProbeClock, poll: &ShellPoll) -> (a: ShellProbeAction)
    requires
        old(clock).wf(),
    ensures
        final(clock).wf(),
        final(clock).timeout_ms == old(clock).timeout_ms,
        a == spec_probe_action(*old(clock), *poll),
        final(clock).elapsed_ms == if a is SleepAndPoll {
            old(clock).elapsed_ms + LOGIN_SHELL_POLL_MS
        } else {
            old(clock).elapsed_ms as int
        },
{
    match poll {
        ShellPoll::PollFailed => ShellProbeAction::Abort,
        ShellPoll::Exited { success } => {
            if *success {
                ShellProbeAction::DrainAndCollect
            } else {
                ShellProbeAction::DrainAfterFailure
            }
        },
        ShellPoll::Running => {
            if clock.elapsed_ms >= clock.timeout_ms {
                ShellProbeAction::KillAndAbandon
            } else {
                clock.elapsed_ms = clock.elapsed_ms + LOGIN_SHELL_POLL_MS;
                ShellProbeAction::SleepAndPoll
            }
        },
    }
}

/// Law: the capture returns within its timeout plus a fixed bound, never
/// within the descendant's lifetime. At any reachable clock the total
/// slept time is under timeout + one poll interval; once the deadline has
/// passed, a still-running shell is killed rather than waited on; and
/// every terminal action waits at most the fixed reader grace on top of
/// the time already slept.
pub proof fn lemma_probe_return_bounded(c: ProbeClock, poll: ShellPoll)
    requires
        c.wf(),
    ensures
        c.elapsed_ms <= c.timeout_ms + LOGIN_SHELL_POLL_MS,
        poll is Running && c.elapsed_ms >= c.timeout_ms ==> spec_probe_action(c, poll)
            == ShellProbeAction::KillAndAbandon,
        !(spec_probe_action(c, poll) is SleepAndPoll) ==> c.elapsed_ms
            + LOGIN_SHELL_READER_GRACE_MS <= c.timeout_ms + LOGIN_SHELL_POLL_MS
            + LOGIN_SHELL_READER_GRACE_MS,
{
}

} // verus!
