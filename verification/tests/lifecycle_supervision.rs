use agentsview_desktop::lifecycle::next_phase;
use agentsview_desktop::lifecycle::LifecycleEvent;
use agentsview_desktop::lifecycle::LifecyclePhase;
use agentsview_desktop::login_shell::login_probe_step;
use agentsview_desktop::login_shell::ProbeClock;
use agentsview_desktop::login_shell::ShellPoll;
use agentsview_desktop::login_shell::ShellProbeAction;
use agentsview_desktop::login_shell::LOGIN_SHELL_POLL_MS;
use agentsview_desktop::login_shell::LOGIN_SHELL_TIMEOUT_MS;
use agentsview_desktop::startup::handle_sidecar_event;
use agentsview_desktop::startup::handle_startup_timeout;
use agentsview_desktop::startup::SidecarEvent;
use agentsview_desktop::startup::StartupNotice;
use agentsview_desktop::startup::StartupState;
use agentsview_desktop::supervisor::sidecar_args;
use agentsview_desktop::supervisor::SidecarSlot;

#[test]
fn ready_line_wins_and_later_reporters_are_suppressed() {
    let mut state = StartupState::new();
    let ready = SidecarEvent::StdoutLine(
        "agentsview dev listening at http://127.0.0.1:18080 (started in 1.2s)".to_string(),
    );
    let out = handle_sidecar_event(&mut state, &ready);
    assert_eq!(out.notice, Some(StartupNotice::Ready { port: 18080 }));
    assert!(!out.stop);

    let term = SidecarEvent::Terminated {
        code: Some(1),
        signal: None,
    };
    let out = handle_sidecar_event(&mut state, &term);
    assert_eq!(out.notice, None);
    assert!(out.stop);

    assert_eq!(handle_startup_timeout(&mut state), None);
}

#[test]
fn early_exit_wins_when_no_ready_line_came() {
    let mut state = StartupState::new();
    let noise = SidecarEvent::StdoutLine("booting...".to_string());
    let out = handle_sidecar_event(&mut state, &noise);
    assert_eq!(out.notice, None);
    assert!(!state.handled());

    let term = SidecarEvent::Terminated {
        code: None,
        signal: Some(9),
    };
    let out = handle_sidecar_event(&mut state, &term);
    assert_eq!(out.notice, Some(StartupNotice::EarlyExit));
    assert!(out.stop);

    assert_eq!(handle_startup_timeout(&mut state), None);
}

#[test]
fn timeout_wins_once_and_silences_late_events() {
    let mut state = StartupState::new();
    assert_eq!(
        handle_startup_timeout(&mut state),
        Some(StartupNotice::TimedOut)
    );
    assert_eq!(handle_startup_timeout(&mut state), None);

    let late_ready = SidecarEvent::StdoutLine(
        "agentsview dev listening at http://127.0.0.1:18080".to_string(),
    );
    let out = handle_sidecar_event(&mut state, &late_ready);
    assert_eq!(out.notice, None);

    let term = SidecarEvent::Terminated {
        code: Some(0),
        signal: None,
    };
    let out = handle_sidecar_event(&mut state, &term);
    assert_eq!(out.notice, None);
    assert!(out.stop);
}

#[test]
fn stderr_and_stream_errors_never_report() {
    let mut state = StartupState::new();
    let err_line = SidecarEvent::StderrLine("warning: something".to_string());
    let out = handle_sidecar_event(&mut state, &err_line);
    assert_eq!(out.notice, None);
    assert!(!out.stop);

    let stream_err = SidecarEvent::StreamError("pipe broke".to_string());
    let out = handle_sidecar_event(&mut state, &stream_err);
    assert_eq!(out.notice, None);
    assert!(!out.stop);
    assert!(!state.handled());
}

#[test]
fn kill_on_an_empty_slot_is_a_no_op() {
    let mut slot: SidecarSlot<u32> = SidecarSlot::empty();
    assert!(!slot.is_stored());
    assert_eq!(slot.take(), None);

    slot.store(7);
    assert!(slot.is_stored());
    assert_eq!(slot.take(), Some(7));
    assert_eq!(slot.take(), None);
    assert!(!slot.is_stored());
}

#[test]
fn sidecar_args_name_serve_host_and_port() {
    let args = sidecar_args(8080);
    let expected: Vec<String> = vec![
        "serve".to_string(),
        "-no-browser".to_string(),
        "-host".to_string(),
        "127.0.0.1".to_string(),
        "-port".to_string(),
        "8080".to_string(),
    ];
    assert_eq!(args, expected);
}

#[test]
fn login_probe_sleeps_only_under_the_deadline() {
    let mut clock = ProbeClock::new(LOGIN_SHELL_TIMEOUT_MS);
    let mut slept: u64 = 0;
    loop {
        match login_probe_step(&mut clock, &ShellPoll::Running) {
            ShellProbeAction::SleepAndPoll => {
                slept += LOGIN_SHELL_POLL_MS;
            }
            action => {
                assert_eq!(action, ShellProbeAction::KillAndAbandon);
                break;
            }
        }
    }
    assert_eq!(slept, LOGIN_SHELL_TIMEOUT_MS);
    assert_eq!(
        login_probe_step(&mut clock, &ShellPoll::Running),
        ShellProbeAction::KillAndAbandon
    );
}

#[test]
fn login_probe_drains_the_reader_on_exit() {
    let mut clock = ProbeClock::new(LOGIN_SHELL_TIMEOUT_MS);
    assert_eq!(
        login_probe_step(&mut clock, &ShellPoll::Exited { success: true }),
        ShellProbeAction::DrainAndCollect
    );
    assert_eq!(
        login_probe_step(&mut clock, &ShellPoll::Exited { success: false }),
        ShellProbeAction::DrainAfterFailure
    );
    assert_eq!(
        login_probe_step(&mut clock, &ShellPoll::PollFailed),
        ShellProbeAction::Abort
    );
}

#[test]
fn lifecycle_walks_the_startup_chain_and_stops_for_good() {
    let mut phase = LifecyclePhase::Idle;
    phase = next_phase(phase, LifecycleEvent::StartRequested);
    assert_eq!(phase, LifecyclePhase::Resolving);
    phase = next_phase(phase, LifecycleEvent::EnvResolved);
    assert_eq!(phase, LifecyclePhase::Spawning);
    phase = next_phase(phase, LifecycleEvent::SpawnSucceeded);
    assert_eq!(phase, LifecyclePhase::RunningUnready);
    phase = next_phase(phase, LifecycleEvent::ReadyConfirmed);
    assert_eq!(phase, LifecyclePhase::RunningReady);
    phase = next_phase(phase, LifecycleEvent::ShutdownRequested);
    assert_eq!(phase, LifecyclePhase::Stopped { failed: false });
    phase = next_phase(phase, LifecycleEvent::StartRequested);
    assert_eq!(phase, LifecyclePhase::Stopped { failed: false });
}

#[test]
fn lifecycle_fails_on_spawn_failure_early_exit_or_timeout() {
    let spawning = next_phase(
        next_phase(LifecyclePhase::Idle, LifecycleEvent::StartRequested),
        LifecycleEvent::EnvResolved,
    );
    assert_eq!(
        next_phase(spawning, LifecycleEvent::SpawnFailed),
        LifecyclePhase::Stopped { failed: true }
    );
    assert_eq!(
        next_phase(LifecyclePhase::RunningUnready, LifecycleEvent::EarlyExit),
        LifecyclePhase::Stopped { failed: true }
    );
    assert_eq!(
        next_phase(
            LifecyclePhase::RunningUnready,
            LifecycleEvent::StartupTimedOut
        ),
        LifecyclePhase::Stopped { failed: true }
    );
}
