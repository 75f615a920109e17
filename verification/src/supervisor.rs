//! Ownership of the live sidecar process.
//!
//! Exactly one child handle exists at a time. It is stored once on a
//! successful spawn and taken exactly once on shutdown; taking it from an
//! empty slot yields nothing, so shutting down without a live child — or
//! twice — is a harmless no-op. The argument list the child is spawned
//! with is built here too.
use vstd::prelude::*;

use crate::numfmt::dec_str;
use crate::numfmt::port_string;

verus! {

/// The loopback host the sidecar binds and announces.
pub open spec fn spec_host() -> Seq<char> {
    "127.0.0.1"@
}

/// The port preferred when no free port is reserved dynamically.
pub const PREFERRED_PORT: u16 = 8080;

/// The argument list the sidecar is spawned with.
pub open spec fn spec_sidecar_args(port: u16) -> Seq<Seq<char>> {
    seq!["serve"@, "-no-browser"@, "-host"@, spec_host(), "-port"@, dec_str(port as nat)]
}

/// Builds the sidecar's argument list: serve on the loopback host at the
/// given port, without opening a browser.
pub fn sidecar_args(port: u16) -> (r: Vec<String>)
    ensures
        r.deep_view() == spec_sidecar_args(port),
{
    let mut args: Vec<String> = Vec::new();
    args.push(String::from_str("serve"));
    args.push(String::from_str("-no-browser"));
    args.push(String::from_str("-host"));
    args.push(String::from_str("127.0.0.1"));
    args.push(String::from_str("-port"));
    args.push(port_string(port));
    proof {
        assert(args.deep_view() =~= spec_sidecar_args(port));
    }
    args
}

/// What a take does: it hands out exactly what was stored and leaves the
/// slot empty.
pub open spec fn take_transition<T>(before: Option<T>, after: Option<T>, out: Option<T>) -> bool {
    out == before && after is None
}

/// The one slot that owns the live child process handle. Created empty at
/// shell start, filled on a successful spawn, emptied by the shutdown
/// path; the caller guards it with its lock, and a poisoned lock is
/// treated as "no handle" rather than an error.
pub struct SidecarSlot<T> {
    child: Option<T>,
}

impl<T> SidecarSlot<T> {
    /// What the slot holds.
    pub closed spec fn stored(&self) -> Option<T> {
        self.child
    }

    pub fn empty() -> (s: Self)
        ensures
            s.stored() is None,
    {
        SidecarSlot { child: None }
    }

    /// Stores the handle of a freshly spawned child. Any previous handle
    /// must already have been taken.
    pub fn store(&mut self, child: T)
        requires
            old(self).stored() is None,
        ensures
            final(self).stored() == Some(child),
    {
        self.child = Some(child);
    }

    /// Takes the handle for shutdown, leaving the slot empty. On an empty
    /// slot this yields nothing and changes nothing.
    pub fn take(&mut self) -> (r: Option<T>)
        ensures
            take_transition(old(self).stored(), final(self).stored(), r),
    {
        self.child.take()
    }

    /// Whether a child handle is currently stored.
    pub fn is_stored(&self) -> (r: bool)
        ensures
            r == (self.stored() is Some),
    {
        self.child.is_some()
    }
}

/// Law: shutdown with no live child is a no-op and cannot fail. A take
/// from a slot that was never filled, or was already emptied, hands out
/// no handle — so no kill is attempted — and leaves the slot empty.
pub proof fn lemma_empty_shutdown_noop<T>(before: Option<T>, after: Option<T>, out: Option<T>)
    requires
        take_transition(before, after, out),
        before is None,
    ensures
        out is None,
        after is None,
{
}

/// Law: a second shutdown is a no-op. Whatever the first take returned,
/// it left the slot empty, so the take of a repeated shutdown hands out
/// nothing.
pub proof fn lemma_second_shutdown_noop<T>(
    s0: Option<T>,
    s1: Option<T>,
    o1: Option<T>,
    s2: Option<T>,
    o2: Option<T>,
)
    requires
        take_transition(s0, s1, o1),
        take_transition(s1, s2, o2),
    ensures
        o2 is None,
        s2 is None,
{
}

} // verus!
