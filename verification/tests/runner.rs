//! Tests for command parsing and turn rendering.

use spectra::runners::program::{
    build_one_shot_arguments, one_shot_result, render_outputs, rpc_turn, Command, CommandError,
    Commands, ReadOutcome,
};
use spectra::utilities::commands::Channel;

#[test]
fn command_parsing_strips_directives() {
    let c = Command::new("prog a --rpc b --ignore-exit-code --timeout 1500 c").unwrap();
    assert_eq!(c.name, "prog");
    assert_eq!(c.arguments, vec!["a", "b", "c"]);
    assert!(c.rpc);
    assert!(c.ignore_exit_code);
    assert_eq!(c.timeout_ms, Some(1500));
}

#[test]
fn stdin_stdout_flag_selects_rpc() {
    let c = Command::new("prog --stdin-stdout-communication").unwrap();
    assert!(c.rpc);
    assert!(c.arguments.is_empty());
    let plain = Command::new("prog x y").unwrap();
    assert!(!plain.rpc);
    assert_eq!(plain.timeout_ms, None);
}

#[test]
fn command_parsing_reports_each_error() {
    assert_eq!(Command::new("").unwrap_err(), CommandError::NoCommandName);
    assert_eq!(
        Command::new("prog 'unterminated").unwrap_err(),
        CommandError::UnterminatedQuote
    );
    assert_eq!(
        Command::new("prog --timeout ten").unwrap_err(),
        CommandError::InvalidTimeout
    );
    assert_eq!(
        Command::new("prog --timeout").unwrap_err(),
        CommandError::InvalidTimeout
    );
}

#[test]
fn quoted_arguments_survive_parsing() {
    let c = Command::new("bun run \"my file.js\" {content}").unwrap();
    assert_eq!(c.name, "bun");
    assert_eq!(c.arguments, vec!["run", "my file.js", "{content}"]);
}

#[test]
fn content_placeholder_is_replaced() {
    let arguments = vec!["run".to_string(), "{content}".to_string(), "-x".to_string()];
    let argv = build_one_shot_arguments(&arguments, "hello\n \t").unwrap();
    assert_eq!(argv, vec!["run", "hello", "-x"]);
}

#[test]
fn file_placeholder_is_refused() {
    let arguments = vec!["run".to_string(), "{file}".to_string()];
    let err = build_one_shot_arguments(&arguments, "x").unwrap_err();
    assert_eq!(err, "the {file} placeholder is not supported");
}

#[test]
fn merge_stderr_wraps_lines_in_brackets() {
    let messages = vec![
        (Channel::Stdout, "out".to_string()),
        (Channel::Stderr, "warn".to_string()),
    ];
    let (stdout_text, stderr_text) = render_outputs(&messages, true, false, false);
    assert_eq!(stdout_text, "out\n[warn]");
    assert_eq!(stderr_text, "");
}

#[test]
fn dead_child_sends_stderr_into_stdout_with_stars() {
    let messages = vec![
        (Channel::Stdout, "partial".to_string()),
        (Channel::Stderr, "panicked at 'boom'".to_string()),
    ];
    let (stdout_text, stderr_text) = render_outputs(&messages, false, true, false);
    assert_eq!(stdout_text, "partial\n* panicked at 'boom'");
    assert_eq!(stderr_text, "");
}

#[test]
fn rpc_turn_success_keeps_channels_apart() {
    let messages = vec![
        (Channel::Stdout, "HI".to_string()),
        (Channel::Stderr, "note".to_string()),
    ];
    let turn = rpc_turn(&messages, ReadOutcome::Continuing, false);
    assert!(!turn.respawn);
    assert_eq!(turn.output, Ok(("HI".to_string(), "note".to_string())));
}

#[test]
fn rpc_turn_timeout_records_the_marker_and_respawns() {
    let messages: Vec<(Channel, String)> = Vec::new();
    let turn = rpc_turn(&messages, ReadOutcome::TimedOut, false);
    assert!(turn.respawn);
    assert_eq!(turn.output, Err("PROCESS TIMED OUT".to_string()));

    // lines captured before the deadline follow the marker
    let messages = vec![(Channel::Stderr, "late".to_string())];
    let turn = rpc_turn(&messages, ReadOutcome::TimedOut, false);
    assert_eq!(turn.output, Err("PROCESS TIMED OUT\n* late".to_string()));
}

#[test]
fn rpc_turn_after_exit_fails_and_respawns() {
    // the crash context reaches the failure text: stderr lines prefixed
    // `* `, together with the normal output that came before
    let messages = vec![
        (Channel::Stdout, "partial".to_string()),
        (Channel::Stderr, "crash log".to_string()),
    ];
    let turn = rpc_turn(&messages, ReadOutcome::Finished, false);
    assert!(turn.respawn);
    assert_eq!(turn.output, Err("partial\n* crash log".to_string()));

    // a healthy turn keeps the session
    let ok = rpc_turn(&Vec::new(), ReadOutcome::Continuing, false);
    assert!(!ok.respawn);
}

#[test]
fn one_shot_times_out_with_a_description() {
    let messages: Vec<(Channel, String)> = Vec::new();
    let r = one_shot_result(&messages, ReadOutcome::TimedOut);
    assert_eq!(r, Err("the command timed out before completing".to_string()));

    // the messages collected before the deadline follow the description
    let messages = vec![
        (Channel::Stdout, "partial".to_string()),
        (Channel::Stderr, "warn".to_string()),
    ];
    let r = one_shot_result(&messages, ReadOutcome::TimedOut);
    assert_eq!(
        r,
        Err("the command timed out before completing\npartial\n* warn".to_string())
    );
}

#[test]
fn one_shot_success_renders_both_channels() {
    let messages = vec![
        (Channel::Stdout, "a".to_string()),
        (Channel::Stdout, "b".to_string()),
        (Channel::Stderr, "log".to_string()),
    ];
    let r = one_shot_result(&messages, ReadOutcome::Finished);
    assert_eq!(r, Ok(("a\nb".to_string(), "log".to_string())));
}

#[test]
fn command_list_parses_each_piece() {
    let cs = Commands::new("a one,b two").unwrap();
    assert_eq!(cs.commands.len(), 2);
    assert_eq!(cs.commands[0].0, "a one");
    assert_eq!(cs.commands[0].1.name, "a");
    assert_eq!(cs.commands[1].1.arguments, vec!["two"]);

    assert_eq!(
        Commands::new("good,'bad").unwrap_err(),
        CommandError::UnterminatedQuote
    );
}
