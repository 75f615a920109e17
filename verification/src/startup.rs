//! Startup-outcome arbitration.
//!
//! Three reporters race while the sidecar starts: the log forwarder may
//! detect the ready line, it may see the process terminate early, and a
//! timeout guard fires after the startup deadline. A single set-at-most-once
//! flag decides which of them reports: whoever finds it clear sets it and
//! notifies, everyone after is suppressed.
use vstd::prelude::*;
use vstd::utf8::encode_utf8;

use crate::readiness::parse_listening_port;
use crate::readiness::spec_listening_port;

verus! {

/// The set-at-most-once "startup handled" flag. Created clear at spawn
/// time, set by whichever of ready detection, early exit or the timeout
/// guard comes first, and never cleared again.
pub struct StartupState {
    handled: bool,
}

impl StartupState {
    pub closed spec fn is_handled(&self) -> bool {
        self.handled
    }

    pub fn new() -> (s: Self)
        ensures
            !s.is_handled(),
    {
        StartupState { handled: false }
    }

    /// Whether some reporter already claimed the startup outcome.
    pub fn handled(&self) -> (r: bool)
        ensures
            r == self.is_handled(),
    {
        self.handled
    }

    /// Test-and-set: claims the startup outcome, and says whether this
    /// caller was the one to claim it.
    pub fn try_mark_handled(&mut self) -> (won: bool)
        ensures
            final(self).is_handled(),
            won == !old(self).is_handled(),
    {
        let won = !self.handled;
        self.handled = true;
        won
    }
}

/// One event read from the supervised process's interleaved output stream.
pub enum SidecarEvent {
    StdoutLine(String),
    StderrLine(String),
    Terminated { code: Option<i32>, signal: Option<i32> },
    StreamError(String),
}

/// The one user-visible startup report.
#[derive(Debug, PartialEq, Eq)]
pub enum StartupNotice {
    /// The ready line announced this port; the readiness probe should
    /// confirm it and the view should navigate there.
    Ready { port: u16 },
    /// The process terminated before becoming ready.
    EarlyExit,
    /// The startup deadline elapsed with no ready line.
    TimedOut,
}

/// What the log-forwarding loop must do after one event.
pub struct EventOutcome {
    /// The report to surface, if this event won the arbitration.
    pub notice: Option<StartupNotice>,
    /// Whether the stream is exhausted and forwarding stops.
    pub stop: bool,
}

/// The port announced by a stdout line, if it is a ready announcement.
pub open spec fn spec_line_port(line: Seq<char>) -> Option<u16> {
    spec_listening_port(encode_utf8(line))
}

/// The report owed for one event, given the flag seen before it: a ready
/// announcement or an early exit claims the outcome only while the flag is
/// still clear; stderr and stream errors never report.
pub open spec fn spec_event_notice(handled: bool, event: SidecarEvent) -> Option<StartupNotice> {
    if handled {
        None
    } else {
        match event {
            SidecarEvent::StdoutLine(line) => match spec_line_port(line@) {
                Some(p) => Some(StartupNotice::Ready { port: p }),
                None => None,
            },
            SidecarEvent::Terminated { .. } => Some(StartupNotice::EarlyExit),
            _ => None,
        }
    }
}

/// The flag after one event: a termination always sets it, a parsed ready
/// line sets it, nothing ever clears it.
pub open spec fn spec_handled_after(handled: bool, event: SidecarEvent) -> bool {
    handled || (event is Terminated) || (match event {
        SidecarEvent::StdoutLine(line) => spec_line_port(line@) is Some,
        _ => false,
    })
}

/// Digests one event from the sidecar's output stream: decides whether a
/// report is owed, updates the startup flag, and says whether forwarding
/// stops. Every line is still forwarded to diagnostics by the caller,
/// whatever is decided here.
pub fn handle_sidecar_event(state: &mut StartupState, event: &SidecarEvent) -> (out: EventOutcome)
    ensures
        out.stop == (*event is Terminated),
        out.notice == spec_event_notice(old(state).is_handled(), *event),
        final(state).is_handled() == spec_handled_after(old(state).is_handled(), *event),
{
    match event {
        SidecarEvent::StdoutLine(line) => {
            let mut notice: Option<StartupNotice> = None;
            if !state.handled() {
                if let Some(port) = parse_listening_port(line.as_str()) {
                    let _ = state.try_mark_handled();
                    notice = Some(StartupNotice::Ready { port });
                }
            }
            EventOutcome { notice, stop: false }
        },
        SidecarEvent::StderrLine(_) => EventOutcome { notice: None, stop: false },
        SidecarEvent::Terminated { .. } => {
            let won = state.try_mark_handled();
            let notice: Option<StartupNotice> = if won {
                Some(StartupNotice::EarlyExit)
            } else {
                None
            };
            EventOutcome { notice, stop: true }
        },
        SidecarEvent::StreamError(_) => EventOutcome { notice: None, stop: false },
    }
}

/// The timeout guard's check, run once when the startup deadline elapses:
/// it reports a timeout exactly when no other reporter came first, and
/// claims the outcome so a late ready line or exit stays silent.
pub fn handle_startup_timeout(state: &mut StartupState) -> (notice: Option<StartupNotice>)
    ensures
        notice == if old(state).is_handled() {
            None::<StartupNotice>
        } else {
            Some(StartupNotice::TimedOut)
        },
        final(state).is_handled(),
{
    if state.try_mark_handled() {
        Some(StartupNotice::TimedOut)
    } else {
        None
    }
}

/// Law: exactly one report. However the three reporters interleave, each
/// one sees the flag its predecessors left (`flags`), reports exactly when
/// it found the flag clear (`wins`, the contract of `try_mark_handled` and
/// of everything built on it), and leaves the flag set. Starting from the
/// clear flag that `StartupState::new` creates, the first reporter wins
/// and every later one is suppressed.
pub proof fn lemma_exactly_one_report(flags: Seq<bool>, wins: Seq<bool>)
    requires
        flags.len() == wins.len() + 1,
        wins.len() >= 1,
        !flags[0],
        forall|i: int| 0 <= i < wins.len() ==> wins[i] == !flags[i],
        forall|i: int| 0 <= i < wins.len() ==> #[trigger] flags[i + 1],
    ensures
        wins[0],
        forall|i: int| 1 <= i < wins.len() ==> !wins[i],
{
    assert(wins[0] == !flags[0]);
    assert forall|i: int| 1 <= i < wins.len() implies !wins[i] by {
        assert(flags[(i - 1) + 1]);
    }
}

} // verus!
