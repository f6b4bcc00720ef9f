//! Driving a program under test through its command line.
//!
//! A command string is tokenized into a program name and arguments, with
//! the runner directives `--rpc` (or `--stdin-stdout-communication`),
//! `--ignore-exit-code` and `--timeout <ms>` stripped before launch. The
//! functions here decide everything about a run that is not the process
//! I/O itself: how the argument list is built for a one-shot run, how the
//! captured messages of an RPC turn are rendered into the two output
//! buffers, when a turn counts as a failure, and when the session must be
//! respawned.

use vstd::prelude::*;
use vstd::string::{StrSliceExecFns, StringExecFns};

use crate::text::{all_digits, dec_value, parse_u64, split_at_char, split_on, str_eq, trim_end_spec, trim_end_ws};
use crate::utilities::commands::{msgs_view, Channel};
use crate::utilities::{arguments_spec, split_arguments};

verus! {

/// Why a command string was rejected.
#[derive(Debug, PartialEq, Eq, Structural, Clone, Copy)]
pub enum CommandError {
    /// A quoted token has no terminating quote.
    UnterminatedQuote,
    /// The command string holds no token at all.
    NoCommandName,
    /// `--timeout` is not followed by a number of milliseconds that fits.
    InvalidTimeout,
}

/// The mathematical value of a parsed [`Command`].
pub ghost struct CommandView {
    pub name: Seq<char>,
    pub arguments: Seq<Seq<char>>,
    pub ignore_exit_code: bool,
    pub rpc: bool,
    pub timeout_ms: Option<u64>,
}

/// What parsing a command string yields.
pub ghost enum CommandParse {
    Parsed(CommandView),
    NoName,
    BadTimeout,
    Unterminated,
}

/// First argument equal to `a` or `b` at or after `from`, or the length.
pub open spec fn find_flag_spec(args: Seq<Seq<char>>, a: Seq<char>, b: Seq<char>, from: int) -> int
    decreases args.len() - from,
{
    if from < 0 || from >= args.len() {
        args.len() as int
    } else if args[from] == a || args[from] == b {
        from
    } else {
        find_flag_spec(args, a, b, from + 1)
    }
}

/// What a command string means: the first token names the program; the
/// first `--rpc` or `--stdin-stdout-communication` selects RPC mode, the
/// first `--ignore-exit-code` suppresses exit-code failures, and the first
/// `--timeout` with the following token sets the read deadline in
/// milliseconds; each directive is removed from the argument list.
pub open spec fn parse_command_spec(s: Seq<char>) -> CommandParse {
    match arguments_spec(s) {
        Option::None => CommandParse::Unterminated,
        Option::Some(toks) => if toks.len() == 0 {
            CommandParse::NoName
        } else {
            let name = toks[0];
            let args0 = toks.drop_first();
            let i = find_flag_spec(args0, "--stdin-stdout-communication"@, "--rpc"@, 0);
            let rpc = i < args0.len();
            let args1 = if rpc {
                args0.remove(i)
            } else {
                args0
            };
            let j = find_flag_spec(args1, "--ignore-exit-code"@, "--ignore-exit-code"@, 0);
            let ignore = j < args1.len();
            let args2 = if ignore {
                args1.remove(j)
            } else {
                args1
            };
            let k = find_flag_spec(args2, "--timeout"@, "--timeout"@, 0);
            if k < args2.len() {
                if k + 1 < args2.len() {
                    let v = args2[k + 1];
                    if v.len() > 0 && all_digits(v) && dec_value(v) <= u64::MAX {
                        CommandParse::Parsed(
                            CommandView {
                                name,
                                arguments: args2.remove(k + 1).remove(k),
                                ignore_exit_code: ignore,
                                rpc,
                                timeout_ms: Option::Some(dec_value(v) as u64),
                            },
                        )
                    } else {
                        CommandParse::BadTimeout
                    }
                } else {
                    CommandParse::BadTimeout
                }
            } else {
                CommandParse::Parsed(
                    CommandView {
                        name,
                        arguments: args2,
                        ignore_exit_code: ignore,
                        rpc,
                        timeout_ms: Option::None,
                    },
                )
            }
        },
    }
}

/// The condition reported for each way parsing can fail.
pub open spec fn parse_error_of(p: CommandParse) -> CommandError {
    match p {
        CommandParse::Unterminated => CommandError::UnterminatedQuote,
        CommandParse::NoName => CommandError::NoCommandName,
        _ => CommandError::InvalidTimeout,
    }
}

/// A parsed command: the program name, its arguments with the runner
/// directives stripped, and the directives themselves.
#[derive(Debug)]
pub struct Command {
    pub name: String,
    pub arguments: Vec<String>,
    pub ignore_exit_code: bool,
    pub rpc: bool,
    pub timeout_ms: Option<u64>,
}

impl View for Command {
    type V = CommandView;

    open spec fn view(&self) -> CommandView {
        CommandView {
            name: self.name@,
            arguments: self.arguments.deep_view(),
            ignore_exit_code: self.ignore_exit_code,
            rpc: self.rpc,
            timeout_ms: self.timeout_ms,
        }
    }
}

/// First argument equal to `a` or `b`, or the argument count.
fn find_flag(args: &Vec<String>, a: &str, b: &str) -> (i: usize)
    ensures
        i == find_flag_spec(args.deep_view(), a@, b@, 0),
        i <= args@.len(),
{
    let ghost deep = args.deep_view();
    let mut i: usize = 0;
    let len = args.len();
    proof {
        assert(deep.len() == args@.len());
    }
    while i < len
        invariant
            i <= len,
            len == deep.len(),
            deep == args.deep_view(),
            forall|k: int| 0 <= k < i ==> deep[k] != a@ && deep[k] != b@,
        decreases len - i,
    {
        proof {
            assert(deep[i as int] == args@[i as int]@);
        }
        if str_eq(args[i].as_str(), a) || str_eq(args[i].as_str(), b) {
            proof {
                lemma_find_flag_at(deep, a@, b@, 0, i as int);
            }
            return i;
        }
        i += 1;
    }
    proof {
        lemma_find_flag_at(deep, a@, b@, 0, len as int);
    }
    len
}

/// `find_flag_spec` is pinned down by the facts the scan establishes.
proof fn lemma_find_flag_at(args: Seq<Seq<char>>, a: Seq<char>, b: Seq<char>, from: int, i: int)
    requires
        0 <= from <= i <= args.len(),
        forall|k: int| from <= k < i ==> args[k] != a && args[k] != b,
        i < args.len() ==> args[i] == a || args[i] == b,
    ensures
        find_flag_spec(args, a, b, from) == i,
    decreases i - from,
{
    if from < i {
        lemma_find_flag_at(args, a, b, from + 1, i);
    }
}

impl Command {
    /// Parses a command string, as [`parse_command_spec`] describes:
    /// rejected exactly when a quote is unterminated, no token names a
    /// program, or `--timeout` lacks a usable millisecond count.
    #[verifier::rlimit(60)]
    pub fn new(argument: &str) -> (r: Result<Command, CommandError>)
        ensures
            match parse_command_spec(argument@) {
                CommandParse::Parsed(cv) => r matches Result::Ok(c) && c@ == cv,
                CommandParse::NoName => r matches Result::Err(CommandError::NoCommandName),
                CommandParse::BadTimeout => r matches Result::Err(CommandError::InvalidTimeout),
                CommandParse::Unterminated => r matches Result::Err(
                    CommandError::UnterminatedQuote,
                ),
            },
    {
        let mut args = match split_arguments(argument) {
            Err(_) => {
                return Err(CommandError::UnterminatedQuote);
            },
            Ok(t) => t,
        };
        if args.len() == 0 {
            return Err(CommandError::NoCommandName);
        }
        let ghost toks = args.deep_view();
        let name = args.remove(0);
        proof {
            assert(args.deep_view() =~= toks.drop_first());
        }
        let ghost args0 = args.deep_view();
        let i = find_flag(&args, "--stdin-stdout-communication", "--rpc");
        let rpc = i < args.len();
        if rpc {
            args.remove(i);
            proof {
                assert(args.deep_view() =~= args0.remove(i as int));
            }
        }
        let ghost args1 = args.deep_view();
        let j = find_flag(&args, "--ignore-exit-code", "--ignore-exit-code");
        let ignore_exit_code = j < args.len();
        if ignore_exit_code {
            args.remove(j);
            proof {
                assert(args.deep_view() =~= args1.remove(j as int));
            }
        }
        let ghost args2 = args.deep_view();
        let k = find_flag(&args, "--timeout", "--timeout");
        let timeout_ms: Option<u64> = if k < args.len() {
            if k + 1 < args.len() {
                proof {
                    assert(args2[k + 1] == args@[k as int + 1]@);
                }
                let v = match parse_u64(args[k + 1].as_str()) {
                    None => {
                        return Err(CommandError::InvalidTimeout);
                    },
                    Some(v) => v,
                };
                args.remove(k + 1);
                proof {
                    assert(args.deep_view() =~= args2.remove(k as int + 1));
                }
                args.remove(k);
                proof {
                    assert(args.deep_view() =~= args2.remove(k as int + 1).remove(k as int));
                }
                Some(v)
            } else {
                return Err(CommandError::InvalidTimeout);
            }
        } else {
            None
        };
        let c = Command { name, arguments: args, ignore_exit_code, rpc, timeout_ms };
        proof {
            match parse_command_spec(argument@) {
                CommandParse::Parsed(cv) => {
                    assert(c@ =~~= cv);
                },
                _ => {},
            }
        }
        Ok(c)
    }
}

/// The argument list of a one-shot run: each `{content}` token becomes the
/// test case with trailing whitespace removed, every other token stands
/// unchanged.
pub open spec fn one_shot_args_spec(args: Seq<Seq<char>>, case: Seq<char>) -> Seq<Seq<char>> {
    args.map_values(
        |a: Seq<char>|
            if a == ("{content}"@) {
                trim_end_spec(case)
            } else {
                a
            },
    )
}

/// Whether an argument list asks for the `{file}` placeholder, which this
/// runner does not serve.
pub open spec fn wants_file_placeholder(args: Seq<Seq<char>>) -> bool {
    exists|i: int|
        0 <= i < args.len() && args[i] != ("{content}"@) && #[trigger] args[i] == ("{file}"@)
}

/// Builds the argument list for a one-shot run, as [`one_shot_args_spec`]
/// describes; fails exactly when an argument is the `{file}` placeholder.
pub fn build_one_shot_arguments(arguments: &Vec<String>, case: &str) -> (r: Result<
    Vec<String>,
    String,
>)
    ensures
        match r {
            Result::Ok(v) => !wants_file_placeholder(arguments.deep_view()) && v.deep_view()
                == one_shot_args_spec(arguments.deep_view(), case@),
            Result::Err(e) => wants_file_placeholder(arguments.deep_view()) && e@ == (
            "the {file} placeholder is not supported"@),
        },
{
    let ghost deep = arguments.deep_view();
    let mut out: Vec<String> = Vec::new();
    let mut i: usize = 0;
    let len = arguments.len();
    proof {
        assert(deep.len() == arguments@.len());
    }
    while i < len
        invariant
            i <= len,
            len == deep.len(),
            deep == arguments.deep_view(),
            out.deep_view() =~= one_shot_args_spec(deep.take(i as int), case@),
            forall|k: int|
                0 <= k < i ==> !(deep[k] != ("{content}"@) && #[trigger] deep[k] == ("{file}"@)),
        decreases len - i,
    {
        let ghost prev = out.deep_view();
        proof {
            assert(deep[i as int] == arguments@[i as int]@);
        }
        if str_eq(arguments[i].as_str(), "{content}") {
            out.push(trim_end_ws(case));
            proof {
                assert(out.deep_view() =~= prev.push(trim_end_spec(case@)));
            }
        } else if str_eq(arguments[i].as_str(), "{file}") {
            return Err(String::from_str("the {file} placeholder is not supported"));
        } else {
            out.push(arguments[i].clone());
            proof {
                assert(out.deep_view() =~= prev.push(deep[i as int]));
            }
        }
        i += 1;
        proof {
            assert(out.deep_view() =~= one_shot_args_spec(deep.take(i as int), case@));
        }
    }
    proof {
        assert(deep.take(len as int) =~= deep);
    }
    Ok(out)
}

/// How a read over a turn ended: the end marker arrived and the child is
/// still running, the child's stdout ended, or the deadline passed.
#[derive(Debug, PartialEq, Eq, Structural, Clone, Copy)]
pub enum ReadOutcome {
    Continuing,
    Finished,
    TimedOut,
}

/// Whether an outcome means the child is no longer running the session:
/// it exited during the test, or it timed out and was killed.
pub open spec fn outcome_dead(o: ReadOutcome) -> bool {
    o is Finished || o is TimedOut
}

/// Whether the runner respawns the session after a turn: exactly when the
/// child is no longer running.
pub open spec fn turn_respawns(o: ReadOutcome) -> bool {
    outcome_dead(o)
}

/// The RPC session as the runner sees it between tests: freshly
/// handshaken, or carried over from earlier tests.
pub ghost enum SessionModel {
    /// A child that was just spawned and passed its `start` handshake.
    FreshlyHandshaken,
    /// The child that already served earlier tests.
    CarriedOver,
}

/// The session the next test begins against, after a turn with the given
/// outcome: respawning hands over a freshly handshaken child, otherwise
/// the session is kept.
pub open spec fn session_after_turn(session: SessionModel, o: ReadOutcome) -> SessionModel {
    if turn_respawns(o) {
        SessionModel::FreshlyHandshaken
    } else {
        session
    }
}

/// After any turn on which the child is no longer running — it exited
/// mid-test or timed out — the next test begins against a freshly
/// handshaken session, whatever the session's history was.
pub proof fn lemma_fresh_session_after_failure(session: SessionModel, o: ReadOutcome)
    ensures
        outcome_dead(o) ==> session_after_turn(session, o) is FreshlyHandshaken,
{
}

/// The stdout buffer of a turn: stdout lines in order, each on its own
/// line; stderr lines appear here wrapped in brackets when stderr is
/// merged, or prefixed `* ` when the child died this turn. On a dead turn
/// this buffer, holding the crash context together with the normal
/// output, becomes the reported failure text.
pub open spec fn render_stdout_spec(msgs: Seq<(Channel, Seq<char>)>, merge: bool, dead: bool)
    -> Seq<char>
    decreases msgs.len(),
{
    if msgs.len() == 0 {
        Seq::empty()
    } else {
        let line = msgs[0].1;
        let rest = render_stdout_spec(msgs.drop_first(), merge, dead);
        match msgs[0].0 {
            Channel::Stdout => line + ("\n"@) + rest,
            Channel::Stderr => if merge {
                ("["@) + line + ("]\n"@) + rest
            } else if dead {
                ("* "@) + line + ("\n"@) + rest
            } else {
                rest
            },
        }
    }
}

/// The stderr buffer of a turn: the stderr lines that were not redirected
/// into the stdout buffer.
pub open spec fn render_stderr_spec(msgs: Seq<(Channel, Seq<char>)>, merge: bool, dead: bool)
    -> Seq<char>
    decreases msgs.len(),
{
    if msgs.len() == 0 {
        Seq::empty()
    } else {
        let line = msgs[0].1;
        let rest = render_stderr_spec(msgs.drop_first(), merge, dead);
        match msgs[0].0 {
            Channel::Stdout => rest,
            Channel::Stderr => if merge || dead {
                rest
            } else {
                line + ("\n"@) + rest
            },
        }
    }
}

/// What a timed-out turn prepends to its reported output.
pub open spec fn timeout_prefix(timed_out: bool) -> Seq<char> {
    if timed_out {
        ("PROCESS TIMED OUT\n"@)
    } else {
        Seq::empty()
    }
}

/// Renders the two untrimmed buffers, as [`render_stdout_spec`] and
/// [`render_stderr_spec`] describe.
fn render_buffers(messages: &Vec<(Channel, String)>, merge: bool, dead: bool) -> (r: (
    String,
    String,
))
    ensures
        r.0@ == render_stdout_spec(msgs_view(messages@), merge, dead),
        r.1@ == render_stderr_spec(msgs_view(messages@), merge, dead),
{
    let ghost all = msgs_view(messages@);
    let mut out = String::new();
    let mut err = String::new();
    let mut i: usize = 0;
    let len = messages.len();
    proof {
        assert(all.len() == messages@.len());
        assert(all.skip(0) =~= all);
        assert(out@ + render_stdout_spec(all.skip(0), merge, dead) =~= render_stdout_spec(
            all,
            merge,
            dead,
        ));
        assert(err@ + render_stderr_spec(all.skip(0), merge, dead) =~= render_stderr_spec(
            all,
            merge,
            dead,
        ));
    }
    while i < len
        invariant
            i <= len,
            len == all.len(),
            all == msgs_view(messages@),
            out@ + render_stdout_spec(all.skip(i as int), merge, dead) =~= render_stdout_spec(
                all,
                merge,
                dead,
            ),
            err@ + render_stderr_spec(all.skip(i as int), merge, dead) =~= render_stderr_spec(
                all,
                merge,
                dead,
            ),
        decreases len - i,
    {
        let ghost rest = all.skip(i as int);
        proof {
            assert(rest[0] == all[i as int]);
            assert(all[i as int] == (messages@[i as int].0, messages@[i as int].1@));
            assert(rest.drop_first() =~= all.skip(i + 1));
        }
        let line = messages[i].1.as_str();
        match messages[i].0 {
            Channel::Stdout => {
                out.append(line);
                out.append("\n");
            },
            Channel::Stderr => {
                if merge {
                    out.append("[");
                    out.append(line);
                    out.append("]\n");
                } else if dead {
                    out.append("* ");
                    out.append(line);
                    out.append("\n");
                } else {
                    err.append(line);
                    err.append("\n");
                }
            },
        }
        i += 1;
        proof {
            assert(out@ + render_stdout_spec(all.skip(i as int), merge, dead) =~= (
            render_stdout_spec(all, merge, dead)));
            assert(err@ + render_stderr_spec(all.skip(i as int), merge, dead) =~= (
            render_stderr_spec(all, merge, dead)));
        }
    }
    proof {
        assert(all.skip(len as int) =~= Seq::<(Channel, Seq<char>)>::empty());
        assert(out@ =~= render_stdout_spec(all, merge, dead));
        assert(err@ =~= render_stderr_spec(all, merge, dead));
    }
    (out, err)
}

/// Renders captured messages into the two output buffers, both with
/// trailing whitespace removed: the stdout buffer carries the timeout
/// marker and, on a dead or merged turn, the redirected stderr lines, as
/// [`render_stdout_spec`], [`render_stderr_spec`] and [`timeout_prefix`]
/// describe.
pub fn render_outputs(messages: &Vec<(Channel, String)>, merge: bool, dead: bool, timed_out: bool)
    -> (r: (String, String))
    ensures
        r.0@ == trim_end_spec(
            timeout_prefix(timed_out) + render_stdout_spec(msgs_view(messages@), merge, dead),
        ),
        r.1@ == trim_end_spec(render_stderr_spec(msgs_view(messages@), merge, dead)),
{
    let (body_out, body_err) = render_buffers(messages, merge, dead);
    let mut out = if timed_out {
        String::from_str("PROCESS TIMED OUT\n")
    } else {
        String::new()
    };
    proof {
        assert(out@ =~= timeout_prefix(timed_out));
    }
    out.append(body_out.as_str());
    (trim_end_ws(out.as_str()), trim_end_ws(body_err.as_str()))
}

/// The value of one RPC turn: its outputs or its failure, and whether the
/// session must be respawned before the next test.
pub struct RpcTurn {
    pub output: Result<(String, String), String>,
    pub respawn: bool,
}

/// Classifies and renders one RPC turn. The child is no longer running
/// exactly when the read finished or timed out; then the turn fails and
/// the error text is the stdout buffer, which carries the child's stderr
/// lines prefixed `* ` (bracketed when stderr is merged) together with any
/// normal output, a timeout prepending the literal `PROCESS TIMED OUT`;
/// the session is respawned for the next test. On a live turn the two
/// buffers are returned apart.
pub fn rpc_turn(messages: &Vec<(Channel, String)>, outcome: ReadOutcome, merge_stderr: bool) -> (r:
    RpcTurn)
    ensures
        r.respawn == turn_respawns(outcome),
        ({
            let dead = outcome_dead(outcome);
            let stdout_text = trim_end_spec(
                timeout_prefix(outcome is TimedOut) + render_stdout_spec(
                    msgs_view(messages@),
                    merge_stderr,
                    dead,
                ),
            );
            let stderr_text = trim_end_spec(
                render_stderr_spec(msgs_view(messages@), merge_stderr, dead),
            );
            if dead {
                r.output matches Result::Err(e) && e@ == stdout_text
            } else {
                r.output matches Result::Ok((o, d)) && o@ == stdout_text && d@ == stderr_text
            }
        }),
{
    let dead = match outcome {
        ReadOutcome::Continuing => false,
        ReadOutcome::Finished => true,
        ReadOutcome::TimedOut => true,
    };
    let timed_out = match outcome {
        ReadOutcome::TimedOut => true,
        _ => false,
    };
    let (stdout_text, stderr_text) = render_outputs(messages, merge_stderr, dead, timed_out);
    if dead {
        RpcTurn { output: Err(stdout_text), respawn: true }
    } else {
        RpcTurn { output: Ok((stdout_text, stderr_text)), respawn: false }
    }
}

/// Renders a one-shot run: on a timeout the run fails with the deadline
/// description followed by every message collected before it, stderr
/// lines prefixed `* `; otherwise the captured stdout and stderr are kept
/// apart and trimmed.
pub fn one_shot_result(messages: &Vec<(Channel, String)>, outcome: ReadOutcome) -> (r: Result<
    (String, String),
    String,
>)
    ensures
        ({
            let stdout_text = trim_end_spec(render_stdout_spec(msgs_view(messages@), false, false));
            let stderr_text = trim_end_spec(render_stderr_spec(msgs_view(messages@), false, false));
            if outcome is TimedOut {
                r matches Result::Err(e) && e@ == trim_end_spec(
                    ("the command timed out before completing\n"@) + render_stdout_spec(
                        msgs_view(messages@),
                        false,
                        true,
                    ),
                )
            } else {
                r matches Result::Ok((o, d)) && o@ == stdout_text && d@ == stderr_text
            }
        }),
{
    match outcome {
        ReadOutcome::TimedOut => {
            let (context, _) = render_buffers(messages, false, true);
            let mut e = String::from_str("the command timed out before completing\n");
            e.append(context.as_str());
            Err(trim_end_ws(e.as_str()))
        },
        _ => {
            let (stdout_text, stderr_text) = render_outputs(messages, false, false, false);
            proof {
                assert(Seq::<char>::empty() + render_stdout_spec(msgs_view(messages@), false, false)
                    =~= render_stdout_spec(msgs_view(messages@), false, false));
            }
            Ok((stdout_text, stderr_text))
        },
    }
}

/// A list of named commands run in order, for output comparison.
#[derive(Debug)]
pub struct Commands {
    pub commands: Vec<(String, Command)>,
}

impl Commands {
    /// Parses a comma-separated list of command strings; succeeds exactly
    /// when every piece parses, keeping each piece beside its command.
    #[verifier::loop_isolation(false)]
    pub fn new(data: &str) -> (r: Result<Commands, CommandError>)
        ensures
            ({
                let pieces = split_on(data@, ',');
                match r {
                    Result::Ok(cs) => cs.commands@.len() == pieces.len() && forall|i: int|
                        0 <= i < pieces.len() ==> cs.commands@[i].0@ == pieces[i]
                            && #[trigger] parse_command_spec(pieces[i]) == CommandParse::Parsed(
                            cs.commands@[i].1@,
                        ),
                    Result::Err(e) => exists|i: int|
                        0 <= i < pieces.len() && !(#[trigger] parse_command_spec(pieces[i])
                            is Parsed) && e == parse_error_of(parse_command_spec(pieces[i])),
                }
            }),
    {
        let items = split_at_char(data, ',');
        let ghost pieces = split_on(data@, ',');
        let mut commands: Vec<(String, Command)> = Vec::new();
        let mut i: usize = 0;
        let len = items.len();
        proof {
            assert(items.deep_view().len() == items@.len());
        }
        while i < len
            invariant
                i <= len,
                len == items@.len(),
                items.deep_view() == pieces,
                commands@.len() == i,
                forall|k: int|
                    0 <= k < i ==> commands@[k].0@ == pieces[k]
                        && #[trigger] parse_command_spec(pieces[k]) == CommandParse::Parsed(
                        commands@[k].1@,
                    ),
            decreases len - i,
        {
            proof {
                assert(pieces[i as int] == items@[i as int]@);
            }
            match Command::new(items[i].as_str()) {
                Ok(c) => {
                    let label = items[i].clone();
                    commands.push((label, c));
                },
                Err(e) => {
                    proof {
                        assert(!(parse_command_spec(pieces[i as int]) is Parsed));
                        assert(e == parse_error_of(parse_command_spec(pieces[i as int])));
                    }
                    return Err(e);
                },
            }
            i += 1;
        }
        Ok(Commands { commands })
    }
}

/// Appends one sub-runner's output under its `name:` heading, as the
/// comparison runner concatenates them.
pub fn append_labelled_output(buf: &mut String, name: &str, out: &str)
    ensures
        final(buf)@ == old(buf)@ + name@ + (":\n"@) + out@ + ("\n"@),
{
    buf.append(name);
    buf.append(":\n");
    buf.append(out);
    buf.append("\n");
}

} // verus!
