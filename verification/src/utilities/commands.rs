//! The message protocol between a supervised child process and its reader.
//!
//! A supervised child has each captured output line delivered as a
//! [`ProcessNotification`]; the stdout worker also reports end-of-stream.
//! The functions here decide, message by message, when a read loop stops
//! and what it collects; performing the blocking reads is the caller's
//! affair.

use vstd::prelude::*;

use crate::text::str_eq;

verus! {

/// Which output stream a captured line came from.
#[derive(Debug, PartialEq, Eq, Structural, Clone, Copy)]
pub enum Channel {
    Stdout,
    Stderr,
}

/// One event from a worker thread: a captured line, or the end of stdout.
#[derive(Debug)]
pub enum ProcessNotification {
    Message(Channel, String),
    Completed,
}

/// How a read ended: the child finished its output, or it is still running.
#[derive(Debug, PartialEq, Eq, Structural, Clone, Copy)]
pub enum ProcessStatus {
    Finished,
    Continuing,
}

/// Whether `n` is the line that ends the current read.
pub open spec fn is_end_marker(n: ProcessNotification, marker: Option<Seq<char>>) -> bool {
    match n {
        ProcessNotification::Message(_, line) => match marker {
            Option::Some(m) => line@ == m,
            Option::None => false,
        },
        ProcessNotification::Completed => false,
    }
}

/// What a read loop does with one notification.
pub enum ReadStep {
    /// Keep the line and wait for the next notification.
    Keep(Channel, String),
    /// The end marker arrived: stop, excluding it, with the child running.
    EndMarker,
    /// Stdout ended: stop, the child finished.
    Completed,
}

/// Decides what one notification means for a read with the given end
/// marker: the marker line stops the read whatever its channel, the
/// completion event stops it, any other line is kept.
pub fn read_step(n: ProcessNotification, end_marker: Option<&str>) -> (r: ReadStep)
    ensures
        ({
            let marker = match end_marker {
                Option::Some(m) => Option::Some(m@),
                Option::None => Option::None,
            };
            &&& (r is EndMarker <==> is_end_marker(n, marker))
            &&& (r is Completed <==> n is Completed)
            &&& match r {
                ReadStep::Keep(c, l) => n matches ProcessNotification::Message(nc, nl) && nc == c
                    && nl == l && !is_end_marker(n, marker),
                _ => true,
            }
        }),
{
    match n {
        ProcessNotification::Message(ch, line) => {
            let is_marker = match end_marker {
                Some(m) => str_eq(line.as_str(), m),
                None => false,
            };
            if is_marker {
                ReadStep::EndMarker
            } else {
                ReadStep::Keep(ch, line)
            }
        },
        ProcessNotification::Completed => ReadStep::Completed,
    }
}

/// The value of a collection pass: the kept messages, the child's status
/// when a stop event arrived (`None` when the sequence ran out first), and
/// how many notifications were consumed.
pub ghost struct CollectResult {
    pub messages: Seq<(Channel, Seq<char>)>,
    pub outcome: Option<ProcessStatus>,
    pub consumed: int,
}

/// Collects messages in arrival order until the end marker, the completion
/// event, or the end of the sequence.
pub open spec fn collect_spec(notifs: Seq<ProcessNotification>, marker: Option<Seq<char>>)
    -> CollectResult
    decreases notifs.len(),
{
    if notifs.len() == 0 {
        CollectResult { messages: Seq::empty(), outcome: Option::None, consumed: 0 }
    } else {
        match notifs[0] {
            ProcessNotification::Completed => CollectResult {
                messages: Seq::empty(),
                outcome: Option::Some(ProcessStatus::Finished),
                consumed: 1,
            },
            ProcessNotification::Message(ch, line) => if is_end_marker(notifs[0], marker) {
                CollectResult {
                    messages: Seq::empty(),
                    outcome: Option::Some(ProcessStatus::Continuing),
                    consumed: 1,
                }
            } else {
                let rest = collect_spec(notifs.drop_first(), marker);
                CollectResult {
                    messages: seq![(ch, line@)] + rest.messages,
                    outcome: rest.outcome,
                    consumed: 1 + rest.consumed,
                }
            },
        }
    }
}

/// The `(channel, line)` views of a message list.
pub open spec fn msgs_view(v: Seq<(Channel, String)>) -> Seq<(Channel, Seq<char>)> {
    v.map_values(|p: (Channel, String)| (p.0, p.1@))
}

/// The message entries of a notification sequence, in order, with the
/// completion event left out.
pub open spec fn message_pairs(notifs: Seq<ProcessNotification>) -> Seq<(Channel, Seq<char>)>
    decreases notifs.len(),
{
    if notifs.len() == 0 {
        Seq::empty()
    } else {
        match notifs[0] {
            ProcessNotification::Message(ch, line) => seq![(ch, line@)] + message_pairs(
                notifs.drop_first(),
            ),
            ProcessNotification::Completed => message_pairs(notifs.drop_first()),
        }
    }
}

/// Collects from an already-received notification sequence, as
/// [`collect_spec`] describes.
#[verifier::loop_isolation(false)]
pub fn collect_until(notifs: Vec<ProcessNotification>, end_marker: Option<&str>) -> (r: (
    Vec<(Channel, String)>,
    Option<ProcessStatus>,
))
    ensures
        ({
            let spec_r = collect_spec(
                notifs@,
                match end_marker {
                    Option::Some(m) => Option::Some(m@),
                    Option::None => Option::None,
                },
            );
            msgs_view(r.0@) == spec_r.messages && r.1 == spec_r.outcome
        }),
{
    let ghost marker = match end_marker {
        Option::Some(m) => Option::Some(m@),
        Option::None => Option::None,
    };
    let ghost all = notifs@;
    let mut messages: Vec<(Channel, String)> = Vec::new();
    let mut notifs = notifs;
    let mut idx: usize = 0;
    let len = notifs.len();
    proof {
        assert(all.skip(0) =~= all);
        assert(msgs_view(messages@) =~= Seq::<(Channel, Seq<char>)>::empty());
    }
    while idx < len
        invariant
            idx <= len,
            len == all.len(),
            notifs@ == all,
            collect_spec(all, marker).messages =~= msgs_view(messages@) + collect_spec(
                all.skip(idx as int),
                marker,
            ).messages,
            collect_spec(all, marker).outcome == collect_spec(all.skip(idx as int), marker).outcome,
        decreases len - idx,
    {
        let ghost rest = all.skip(idx as int);
        let ghost prev = messages@;
        let n = take_notification(&mut notifs, idx);
        let ghost gn = n;
        proof {
            assert(rest[0] == all[idx as int]);
            assert(rest.drop_first() =~= all.skip(idx + 1));
            assert(notification_like(gn, rest[0]));
            assert(is_end_marker(gn, marker) == is_end_marker(rest[0], marker));
        }
        match read_step(n, end_marker) {
            ReadStep::Keep(ch, line) => {
                let ghost gl = line@;
                messages.push((ch, line));
                proof {
                    // the kept pair is the head message of the remaining input
                    assert(gn matches ProcessNotification::Message(nc, nl) && nc == ch && nl@ == gl
                        && !is_end_marker(gn, marker));
                    assert(rest[0] matches ProcessNotification::Message(c0, l0) && c0 == ch
                        && l0@ == gl);
                    assert(!is_end_marker(rest[0], marker));
                    assert(collect_spec(rest, marker).messages == seq![(ch, gl)] + collect_spec(
                        rest.drop_first(),
                        marker,
                    ).messages);
                    assert(msgs_view(messages@) =~= msgs_view(prev) + seq![(ch, gl)]);
                    assert(collect_spec(all, marker).messages =~= msgs_view(messages@)
                        + collect_spec(all.skip(idx + 1), marker).messages);
                }
            },
            ReadStep::EndMarker => {
                proof {
                    assert(rest[0] is Message && is_end_marker(rest[0], marker));
                    assert(collect_spec(rest, marker).messages =~= Seq::<(
                        Channel,
                        Seq<char>,
                    )>::empty());
                    assert(collect_spec(rest, marker).outcome == Option::Some(
                        ProcessStatus::Continuing,
                    ));
                    assert(msgs_view(messages@) =~= collect_spec(all, marker).messages);
                }
                return (messages, Some(ProcessStatus::Continuing));
            },
            ReadStep::Completed => {
                proof {
                    assert(rest[0] is Completed);
                    assert(msgs_view(messages@) =~= collect_spec(all, marker).messages);
                }
                return (messages, Some(ProcessStatus::Finished));
            },
        }
        idx += 1;
    }
    proof {
        assert(all.skip(len as int) =~= Seq::<ProcessNotification>::empty());
    }
    (messages, None)
}

/// Takes the notification at `idx` out of the vector, leaving the vector's
/// view unchanged for specification purposes by cloning the parts.
fn take_notification(notifs: &mut Vec<ProcessNotification>, idx: usize) -> (n: ProcessNotification)
    requires
        idx < old(notifs)@.len(),
    ensures
        final(notifs)@ == old(notifs)@,
        notification_like(n, old(notifs)@[idx as int]),
{
    match &notifs[idx] {
        ProcessNotification::Message(ch, line) => {
            let c = *ch;
            let l = line.clone();
            ProcessNotification::Message(c, l)
        },
        ProcessNotification::Completed => ProcessNotification::Completed,
    }
}

/// Whether two notifications carry the same channel and the same text.
pub open spec fn notification_like(a: ProcessNotification, b: ProcessNotification) -> bool {
    match (a, b) {
        (
            ProcessNotification::Message(ca, la),
            ProcessNotification::Message(cb, lb),
        ) => ca == cb && la@ == lb@,
        (ProcessNotification::Completed, ProcessNotification::Completed) => true,
        _ => false,
    }
}

/// Everything a collection pass keeps is a message the child produced
/// before the stop event, in arrival order: the kept list is exactly the
/// message prefix up to (and excluding) the marker or completion event.
/// In particular the lines of each channel appear in the order they
/// arrived.
pub proof fn lemma_captured_in_order(notifs: Seq<ProcessNotification>, marker: Option<Seq<char>>)
    ensures
        ({
            let r = collect_spec(notifs, marker);
            let body = if r.outcome == Option::Some(ProcessStatus::Continuing) {
                r.consumed - 1
            } else {
                r.consumed
            };
            r.messages == message_pairs(notifs.take(body))
        }),
    decreases notifs.len(),
{
    let r = collect_spec(notifs, marker);
    lemma_collect_consumed_bounds(notifs, marker);
    if notifs.len() == 0 {
        assert(notifs.take(0) =~= notifs);
    } else {
        match notifs[0] {
            ProcessNotification::Completed => {
                assert(r.outcome == Option::Some(ProcessStatus::Finished) && r.consumed == 1);
                assert(notifs.take(1)[0] is Completed);
                assert(notifs.take(1).drop_first() =~= Seq::<ProcessNotification>::empty());
                assert(message_pairs(notifs.take(1)) == message_pairs(
                    notifs.take(1).drop_first(),
                ));
                assert(message_pairs(Seq::<ProcessNotification>::empty()) == Seq::<(
                    Channel,
                    Seq<char>,
                )>::empty());
                assert(r.messages =~= message_pairs(notifs.take(1)));
            },
            ProcessNotification::Message(ch, line) => {
                if is_end_marker(notifs[0], marker) {
                    assert(r.outcome == Option::Some(ProcessStatus::Continuing) && r.consumed
                        == 1);
                    assert(notifs.take(0) =~= Seq::<ProcessNotification>::empty());
                    assert(r.messages =~= message_pairs(notifs.take(0)));
                } else {
                    lemma_captured_in_order(notifs.drop_first(), marker);
                    lemma_collect_consumed_bounds(notifs.drop_first(), marker);
                    let rest = collect_spec(notifs.drop_first(), marker);
                    let rest_body = if rest.outcome == Option::Some(ProcessStatus::Continuing) {
                        rest.consumed - 1
                    } else {
                        rest.consumed
                    };
                    let body = if r.outcome == Option::Some(ProcessStatus::Continuing) {
                        r.consumed - 1
                    } else {
                        r.consumed
                    };
                    assert(r.outcome == rest.outcome && r.consumed == 1 + rest.consumed);
                    assert(body == 1 + rest_body);
                    assert(0 <= rest_body <= notifs.drop_first().len());
                    assert(notifs.take(body)[0] == notifs[0]);
                    assert(notifs.take(body).drop_first() =~= notifs.drop_first().take(rest_body));
                    assert(message_pairs(notifs.take(body)) == seq![(ch, line@)] + message_pairs(
                        notifs.drop_first().take(rest_body),
                    ));
                    assert(r.messages =~= message_pairs(notifs.take(body)));
                }
            },
        }
    }
}

/// A collection pass consumes between zero and all of the notifications,
/// and at least the stop event when one arrived.
pub proof fn lemma_collect_consumed_bounds(
    notifs: Seq<ProcessNotification>,
    marker: Option<Seq<char>>,
)
    ensures
        0 <= collect_spec(notifs, marker).consumed <= notifs.len(),
        collect_spec(notifs, marker).outcome is Some ==> collect_spec(notifs, marker).consumed
            >= 1,
    decreases notifs.len(),
{
    if notifs.len() > 0 {
        match notifs[0] {
            ProcessNotification::Message(ch, line) => {
                if !is_end_marker(notifs[0], marker) {
                    lemma_collect_consumed_bounds(notifs.drop_first(), marker);
                }
            },
            ProcessNotification::Completed => {},
        }
    }
}

} // verus!
