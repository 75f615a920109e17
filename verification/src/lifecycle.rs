//! The orchestrator's phase machine.
//!
//! Startup walks Idle → Resolving → Spawning → Running (unready) →
//! Running (ready); a spawn failure, an early exit or a startup timeout
//! ends in a failed stop, and a shutdown request stops the machine from
//! any phase. Once stopped, no event moves it again.
use vstd::prelude::*;

verus! {

/// Where the lifecycle stands.
#[derive(Debug, Clone, Copy, PartialEq, Eq, Structural)]
pub enum LifecyclePhase {
    /// Nothing started yet.
    Idle,
    /// The environment is being resolved.
    Resolving,
    /// The child process is being spawned.
    Spawning,
    /// The child runs but has not announced readiness.
    RunningUnready,
    /// The child answered the readiness probe; the view was redirected.
    RunningReady,
    /// The machine is finished; `failed` says whether startup succeeded.
    Stopped { failed: bool },
}

/// What drives the lifecycle forward.
#[derive(Debug, Clone, Copy, PartialEq, Eq, Structural)]
pub enum LifecycleEvent {
    StartRequested,
    EnvResolved,
    SpawnSucceeded,
    SpawnFailed,
    ReadyConfirmed,
    EarlyExit,
    StartupTimedOut,
    ShutdownRequested,
}

/// The phase after one event: the startup chain in order, the three
/// failure events into a failed stop, shutdown from anywhere, and every
/// other event ignored. A stopped machine never moves again.
pub open spec fn spec_next_phase(phase: LifecyclePhase, event: LifecycleEvent) -> LifecyclePhase {
    match (phase, event) {
        (LifecyclePhase::Stopped { failed }, _) => LifecyclePhase::Stopped { failed },
        (_, LifecycleEvent::ShutdownRequested) => LifecyclePhase::Stopped { failed: false },
        (LifecyclePhase::Idle, LifecycleEvent::StartRequested) => LifecyclePhase::Resolving,
        (LifecyclePhase::Resolving, LifecycleEvent::EnvResolved) => LifecyclePhase::Spawning,
        (LifecyclePhase::Spawning, LifecycleEvent::SpawnSucceeded) => LifecyclePhase::RunningUnready,
        (LifecyclePhase::Spawning, LifecycleEvent::SpawnFailed) => LifecyclePhase::Stopped {
            failed: true,
        },
        (LifecyclePhase::RunningUnready, LifecycleEvent::ReadyConfirmed) => LifecyclePhase::RunningReady,
        (LifecyclePhase::RunningUnready, LifecycleEvent::EarlyExit) => LifecyclePhase::Stopped {
            failed: true,
        },
        (LifecyclePhase::RunningUnready, LifecycleEvent::StartupTimedOut) => LifecyclePhase::Stopped {
            failed: true,
        },
        (p, _) => p,
    }
}

/// Advances the lifecycle by one event.
pub fn next_phase(phase: LifecyclePhase, event: LifecycleEvent) -> (next: LifecyclePhase)
    ensures
        next == spec_next_phase(phase, event),
{
    match (phase, event) {
        (LifecyclePhase::Stopped { failed }, _) => LifecyclePhase::Stopped { failed },
        (_, LifecycleEvent::ShutdownRequested) => LifecyclePhase::Stopped { failed: false },
        (LifecyclePhase::Idle, LifecycleEvent::StartRequested) => LifecyclePhase::Resolving,
        (LifecyclePhase::Resolving, LifecycleEvent::EnvResolved) => LifecyclePhase::Spawning,
        (LifecyclePhase::Spawning, LifecycleEvent::SpawnSucceeded) => LifecyclePhase::RunningUnready,
        (LifecyclePhase::Spawning, LifecycleEvent::SpawnFailed) => LifecyclePhase::Stopped {
            failed: true,
        },
        (LifecyclePhase::RunningUnready, LifecycleEvent::ReadyConfirmed) => LifecyclePhase::RunningReady,
        (LifecyclePhase::RunningUnready, LifecycleEvent::EarlyExit) => LifecyclePhase::Stopped {
            failed: true,
        },
        (LifecyclePhase::RunningUnready, LifecycleEvent::StartupTimedOut) => LifecyclePhase::Stopped {
            failed: true,
        },
        (p, _) => p,
    }
}

/// Law: a stopped lifecycle is terminal — no event moves it, and its
/// failure flag never changes.
pub proof fn lemma_stopped_is_terminal(failed: bool, event: LifecycleEvent)
    ensures
        (spec_next_phase(LifecyclePhase::Stopped { failed }, event) == (LifecyclePhase::Stopped {
            failed,
        })),
{
}

} // verus!
