//! Tests for the read-loop decisions and message collection.

use spectra::utilities::commands::{
    collect_until, read_step, Channel, ProcessNotification, ProcessStatus, ReadStep,
};

fn msg(ch: Channel, line: &str) -> ProcessNotification {
    ProcessNotification::Message(ch, line.to_string())
}

#[test]
fn marker_line_stops_the_read_and_is_excluded() {
    let notifs = vec![
        msg(Channel::Stdout, "one"),
        msg(Channel::Stderr, "two"),
        msg(Channel::Stdout, "end"),
        msg(Channel::Stdout, "late"),
    ];
    let (messages, outcome) = collect_until(notifs, Some("end"));
    assert_eq!(outcome, Some(ProcessStatus::Continuing));
    assert_eq!(
        messages,
        vec![
            (Channel::Stdout, "one".to_string()),
            (Channel::Stderr, "two".to_string()),
        ]
    );
}

#[test]
fn marker_is_honoured_on_either_channel() {
    let notifs = vec![msg(Channel::Stderr, "end")];
    let (messages, outcome) = collect_until(notifs, Some("end"));
    assert_eq!(outcome, Some(ProcessStatus::Continuing));
    assert!(messages.is_empty());
}

#[test]
fn completion_stops_the_read() {
    let notifs = vec![
        msg(Channel::Stdout, "a"),
        ProcessNotification::Completed,
        msg(Channel::Stdout, "never"),
    ];
    let (messages, outcome) = collect_until(notifs, Some("end"));
    assert_eq!(outcome, Some(ProcessStatus::Finished));
    assert_eq!(messages, vec![(Channel::Stdout, "a".to_string())]);
}

#[test]
fn per_stream_order_is_preserved() {
    let notifs = vec![
        msg(Channel::Stdout, "1"),
        msg(Channel::Stderr, "a"),
        msg(Channel::Stdout, "2"),
        msg(Channel::Stderr, "b"),
        msg(Channel::Stdout, "3"),
    ];
    let (messages, outcome) = collect_until(notifs, None);
    assert_eq!(outcome, None);
    let stdout_lines: Vec<&str> = messages
        .iter()
        .filter(|(ch, _)| *ch == Channel::Stdout)
        .map(|(_, line)| line.as_str())
        .collect();
    let stderr_lines: Vec<&str> = messages
        .iter()
        .filter(|(ch, _)| *ch == Channel::Stderr)
        .map(|(_, line)| line.as_str())
        .collect();
    assert_eq!(stdout_lines, vec!["1", "2", "3"]);
    assert_eq!(stderr_lines, vec!["a", "b"]);
}

#[test]
fn read_step_classifies_each_notification() {
    assert!(matches!(
        read_step(msg(Channel::Stdout, "line"), Some("end")),
        ReadStep::Keep(Channel::Stdout, l) if l == "line"
    ));
    assert!(matches!(
        read_step(msg(Channel::Stderr, "end"), Some("end")),
        ReadStep::EndMarker
    ));
    assert!(matches!(
        read_step(msg(Channel::Stdout, "end"), None),
        ReadStep::Keep(Channel::Stdout, l) if l == "end"
    ));
    assert!(matches!(
        read_step(ProcessNotification::Completed, Some("end")),
        ReadStep::Completed
    ));
}
