use cargo_limit::diagnostic::{CompilerMessage, Diagnostic, Level, Span};
use cargo_limit::messages::{Messages, ParsedMessage};
use cargo_limit::process::{failed_to_execute_error_text, State};

fn record(level: Level, text: &str) -> ParsedMessage {
    ParsedMessage::CompilerMessage(CompilerMessage {
        message: Diagnostic {
            level,
            message: text.to_string(),
            rendered: None,
            spans: vec![Span {
                file_name: "src/lib.rs".to_string(),
                line_start: 1,
                column_start: 1,
                is_primary: true,
                text: vec![],
                expansion: None,
            }],
        },
        target_src_path: "/proj/src/lib.rs".to_string(),
    })
}

#[test]
fn classification_partitions_by_severity() {
    let stream = vec![
        record(Level::Warning, "w1"),
        record(Level::Error, "e1"),
        record(Level::Ice, "i1"),
        record(Level::Error, "e2"),
        record(Level::Note, "n1"),
    ];
    let result = Messages::classify_stream(stream);
    assert_eq!(result.internal_compiler_errors.len(), 1);
    assert_eq!(result.errors.len(), 2);
    assert_eq!(result.non_errors.len(), 2);
    assert!(!result.child_killed);
    // order within each bucket is stream order
    assert_eq!(result.errors[0].message.message, "e1");
    assert_eq!(result.errors[1].message.message, "e2");
    assert_eq!(result.non_errors[0].message.message, "w1");
    assert_eq!(result.non_errors[1].message.message, "n1");
}

#[test]
fn empty_stream_classifies_to_nothing() {
    let result = Messages::classify_stream(Vec::new());
    assert_eq!(result.internal_compiler_errors.len(), 0);
    assert_eq!(result.errors.len(), 0);
    assert_eq!(result.non_errors.len(), 0);
    assert!(!result.child_killed);
    assert!(!result.should_arm_kill_timer(1));
}

#[test]
fn classification_stops_at_build_finished() {
    let stream = vec![
        record(Level::Error, "before"),
        ParsedMessage::BuildFinished,
        record(Level::Error, "after"),
    ];
    let result = Messages::classify_stream(stream);
    assert_eq!(result.errors.len(), 1);
    assert_eq!(result.errors[0].message.message, "before");
}

#[test]
fn other_lines_are_ignored() {
    let stream = vec![
        ParsedMessage::Other,
        record(Level::Warning, "w"),
        ParsedMessage::Other,
    ];
    let result = Messages::classify_stream(stream);
    assert_eq!(result.non_errors.len(), 1);
    assert_eq!(result.errors.len(), 0);
    assert_eq!(result.internal_compiler_errors.len(), 0);
}

#[test]
fn kill_timer_armed_only_with_errors_and_limit() {
    let mut messages = Messages::default();
    let stop = messages.classify(record(Level::Warning, "w"));
    assert!(!stop);
    assert!(!messages.should_arm_kill_timer(1));

    let stop = messages.classify(record(Level::Error, "e"));
    assert!(!stop);
    assert!(messages.should_arm_kill_timer(1));
    // a zero time limit means "never kill"
    assert!(!messages.should_arm_kill_timer(0));

    let stop = messages.classify(ParsedMessage::BuildFinished);
    assert!(stop);
}

#[test]
fn merge_concatenates_passes_in_order() {
    let mut first = Messages::classify_stream(vec![
        record(Level::Error, "pass1"),
        record(Level::Warning, "warn1"),
    ]);
    first.child_killed = true;
    let second = Messages::classify_stream(vec![record(Level::Error, "pass2")]);
    first.merge(second);
    assert_eq!(first.errors.len(), 2);
    assert_eq!(first.errors[0].message.message, "pass1");
    assert_eq!(first.errors[1].message.message, "pass2");
    assert_eq!(first.non_errors.len(), 1);
    assert!(first.child_killed);
}

#[test]
fn wait_outcome_sets_killed_flag() {
    let mut messages = Messages::default();
    messages.record_wait_outcome(State::NotRunning);
    assert!(messages.child_killed);
    let mut messages = Messages::default();
    messages.record_wait_outcome(State::FailedToKill);
    assert!(!messages.child_killed);
    let mut messages = Messages::default();
    messages.record_wait_outcome(State::Running);
    assert!(!messages.child_killed);
}

#[test]
fn kill_state_transitions_are_single_swaps() {
    // the timer can be armed only from Running
    assert_eq!(State::Running.try_set_start_kill_timer(), (State::KillTimerStarted, true));
    assert_eq!(State::Killing.try_set_start_kill_timer(), (State::Killing, false));

    // both kill paths win from Running or KillTimerStarted, never twice
    assert_eq!(State::Running.try_set_killing(), (State::Killing, true));
    assert_eq!(State::KillTimerStarted.try_set_killing(), (State::Killing, true));
    assert_eq!(State::Killing.try_set_killing(), (State::Killing, false));
    assert_eq!(State::NotRunning.try_set_killing(), (State::NotRunning, false));
    assert_eq!(State::FailedToKill.try_set_killing(), (State::FailedToKill, false));

    // the terminal marks move only out of Killing
    assert_eq!(State::Killing.set_not_running(), State::NotRunning);
    assert_eq!(State::Running.set_not_running(), State::Running);
    assert_eq!(State::Killing.set_failed_to_kill(), State::FailedToKill);
    assert_eq!(State::Running.force_set_not_running(), State::NotRunning);

    // the cooperative wait blocks only while killing
    assert!(!State::Killing.is_settled());
    assert!(State::NotRunning.is_settled());
    assert!(State::Running.is_settled());
}

#[test]
fn racing_kill_requests_interrupt_once() {
    // a timer expiry and a cancellation signal race: whichever CAS
    // wins sends the one interrupt, the other is a no-op
    let state = State::Running;
    let (state, timer_armed) = state.try_set_start_kill_timer();
    assert!(timer_armed);
    let (state, signal_wins) = state.try_set_killing();
    assert!(signal_wins);
    let (state, timer_wins) = state.try_set_killing();
    assert!(!timer_wins);
    let state = state.set_not_running();
    assert_eq!(state, State::NotRunning);
    // a late kill request after the child is gone changes nothing
    let (state, late) = state.try_set_killing();
    assert!(!late);
    assert_eq!(state, State::NotRunning);
}

#[test]
fn failed_signal_is_terminal_but_not_killed() {
    let state = State::Running;
    let (state, wins) = state.try_set_killing();
    assert!(wins);
    let state = state.set_failed_to_kill();
    assert_eq!(state, State::FailedToKill);
    assert!(state.is_settled());
}

#[test]
fn error_text_names_the_executable() {
    assert_eq!(
        failed_to_execute_error_text("cargo"),
        "failed to execute \"cargo\""
    );
}
