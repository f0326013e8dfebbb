//! The command channel to the printer: one command at a time, each sent only
//! once the printer has reported its position, and sent again where the
//! printer did not recognise it.
//!
//! The channel never touches the transport. Each method takes what the
//! transport reported and answers with the next thing to do.

use vstd::prelude::*;
use vstd::string::*;
use vstd::utf8::*;
use crate::line_buffer::{after_first_line, first_line, has_line, LineBuffer};
use crate::text::{
    begins_with,
    contains_text,
    count_leading_blanks,
    leading_blanks,
    matches_at,
    occurs_at,
    occurs_in,
    same_text,
};

verus! {

/// Why a call on the channel failed.
#[derive(Debug, Clone, Copy, PartialEq, Eq)]
pub enum SerialLineError {
    /// The transport refused a write or a flush.
    Write,
    /// The transport could not discard its unread input.
    Clear,
    /// The transport refused a read.
    Read,
    /// Received bytes were not UTF-8.
    Utf8Error,
    /// The printer did not acknowledge where it had to, or an outcome was
    /// reported that the channel had not asked for.
    ProtocolViolation,
}

/// The most bytes fetched from the transport in one read.
pub const READ_CHUNK: usize = 1000;

/// The request for a position report that precedes every command.
pub open spec fn status_request_text() -> Seq<char> {
    "M114\n"@
}

/// A line is the printer's "busy" notice.
pub open spec fn is_busy_line(line: Seq<char>) -> bool {
    line == "echo:busy: processing\n"@
}

/// A line is a position report: it names all four axes.
pub open spec fn is_status_report_line(line: Seq<char>) -> bool {
    &&& occurs_in(line, "X:"@)
    &&& occurs_in(line, "Y:"@)
    &&& occurs_in(line, "Z:"@)
    &&& occurs_in(line, "E:"@)
}

/// A line is the printer's acknowledgment.
pub open spec fn is_ack_line(line: Seq<char>) -> bool {
    line == "ok\n"@
}

/// A line says that the printer did not recognise a command.
pub open spec fn is_unknown_command_line(line: Seq<char>) -> bool {
    begins_with(line, "echo:Unknown command:"@)
}

/// A command that is never sent: it is empty, or a comment, which has `;`
/// as its first character that is not blank.
pub open spec fn is_skipped_command(command: Seq<char>) -> bool {
    ||| command.len() == 0
    ||| (leading_blanks(command) < command.len() && command[leading_blanks(command)] == ';')
}

/// The text of the position request.
pub fn status_request() -> (text: &'static str)
    ensures
        text@ == status_request_text(),
{
    "M114\n"
}

/// Whether `line` is the "busy" notice.
pub fn is_busy(line: &str) -> (busy: bool)
    ensures
        busy == is_busy_line(line@),
{
    same_text(line, "echo:busy: processing\n")
}

/// Whether `line` is a position report.
pub fn is_status_report(line: &str) -> (report: bool)
    ensures
        report == is_status_report_line(line@),
{
    contains_text(line, "X:") && contains_text(line, "Y:") && contains_text(line, "Z:")
        && contains_text(line, "E:")
}

/// Whether `line` is the acknowledgment.
pub fn is_ack(line: &str) -> (ack: bool)
    ensures
        ack == is_ack_line(line@),
{
    same_text(line, "ok\n")
}

/// Whether `line` reports an unrecognised command.
pub fn is_unknown_command(line: &str) -> (unknown: bool)
    ensures
        unknown == is_unknown_command_line(line@),
{
    matches_at(line, "echo:Unknown command:", 0)
}

/// Whether `command` is skipped instead of sent.
pub fn is_skipped(command: &str) -> (skipped: bool)
    ensures
        skipped == is_skipped_command(command@),
{
    if command.is_empty() {
        return true;
    }
    let i: usize = count_leading_blanks(command);
    let n: usize = command.unicode_len();
    i < n && command.get_char(i) == ';'
}

/// Where a command stands in its exchange with the printer.
#[derive(Debug, Clone, Copy, PartialEq, Eq, Structural)]
pub enum Phase {
    /// No command is under way.
    Idle,
    /// The position request is being written.
    StatusRequest,
    /// Lines are read until the position report arrives.
    StatusPoll,
    /// The position report arrived; its acknowledgment is due.
    StatusAck,
    /// The command is being written.
    CommandSend,
    /// The command was written; its response is due.
    CommandResponse,
    /// The printer did not recognise the command; the acknowledgment that
    /// follows such a notice is due.
    UnknownAck,
}

/// What the caller reports to `SerialWrapper::write`.
pub enum CommandEvent {
    /// A new command is to be sent.
    Start(String),
    /// The text asked for was written, or could not be.
    Sent(Result<(), SerialLineError>),
    /// The read asked for gave a line, gave nothing yet, or failed.
    Received(Result<Option<String>, SerialLineError>),
}

/// What `SerialWrapper::write` asks the caller to do next.
#[derive(Debug, Clone, Copy, PartialEq, Eq)]
pub enum CommandStep {
    /// Write the position request and report `Sent`.
    SendStatusRequest,
    /// Write the command and report `Sent`.
    SendCommand,
    /// Read a line and report `Received`.
    Receive,
    /// Feed the watchdog and pause, then read a line and report `Received`.
    FeedThenReceive,
    /// The command is over, with this result.
    Done(Result<(), SerialLineError>),
}

/// The rule of the exchange: the phase and the step that follow `event` in
/// `phase`.
pub open spec fn command_step(phase: Phase, event: CommandEvent) -> (Phase, CommandStep) {
    match event {
        CommandEvent::Start(command) => if is_skipped_command(command@) {
            (Phase::Idle, CommandStep::Done(Ok(())))
        } else {
            (Phase::StatusRequest, CommandStep::SendStatusRequest)
        },
        CommandEvent::Sent(Err(e)) => (Phase::Idle, CommandStep::Done(Err(e))),
        CommandEvent::Sent(Ok(_)) => match phase {
            Phase::StatusRequest => (Phase::StatusPoll, CommandStep::Receive),
            Phase::CommandSend => (Phase::CommandResponse, CommandStep::FeedThenReceive),
            _ => (Phase::Idle, CommandStep::Done(Err(SerialLineError::ProtocolViolation))),
        },
        CommandEvent::Received(Err(e)) => (Phase::Idle, CommandStep::Done(Err(e))),
        CommandEvent::Received(Ok(line)) => match phase {
            Phase::StatusPoll => if line is Some && is_busy_line(line->0@) {
                (Phase::StatusPoll, CommandStep::FeedThenReceive)
            } else if line is Some && is_status_report_line(line->0@) {
                (Phase::StatusAck, CommandStep::Receive)
            } else {
                (Phase::StatusPoll, CommandStep::Receive)
            },
            Phase::StatusAck | Phase::UnknownAck => if line is Some && is_ack_line(line->0@) {
                (Phase::CommandSend, CommandStep::SendCommand)
            } else {
                (Phase::Idle, CommandStep::Done(Err(SerialLineError::ProtocolViolation)))
            },
            Phase::CommandResponse => if line is Some && is_unknown_command_line(line->0@) {
                (Phase::UnknownAck, CommandStep::Receive)
            } else {
                (Phase::Idle, CommandStep::Done(Ok(())))
            },
            _ => (Phase::Idle, CommandStep::Done(Err(SerialLineError::ProtocolViolation))),
        },
    }
}

/// The phase reached and the steps asked for while `events` arrive in
/// `phase`, one after the other.
pub open spec fn command_run(phase: Phase, events: Seq<CommandEvent>) -> (Phase, Seq<CommandStep>)
    decreases events.len(),
{
    if events.len() == 0 {
        (phase, seq![])
    } else {
        let before = command_run(phase, events.drop_last());
        let next = command_step(before.0, events.last());
        (next.0, before.1.push(next.1))
    }
}

/// How often `steps` ask for the watchdog to be fed.
pub open spec fn feed_count(steps: Seq<CommandStep>) -> nat
    decreases steps.len(),
{
    if steps.len() == 0 {
        0
    } else {
        feed_count(steps.drop_last()) + if steps.last() is FeedThenReceive {
            1nat
        } else {
            0nat
        }
    }
}

/// The event "this line was received" is a "busy" notice.
pub open spec fn is_busy_event(event: CommandEvent) -> bool {
    event matches CommandEvent::Received(Ok(Some(line))) && is_busy_line(line@)
}

/// The "busy" notice is no position report.
pub proof fn lemma_busy_notice_is_no_report(line: Seq<char>)
    requires
        is_busy_line(line),
    ensures
        !is_status_report_line(line),
{
    reveal_strlit("echo:busy: processing\n");
    reveal_strlit("X:");
    assert forall|at: int| !occurs_at(line, "X:"@, at) by {
        if occurs_at(line, "X:"@, at) {
            assert(line.subrange(at, at + 2)[0] == 'X');
            assert(line[at] == 'X');
        }
    }
}

/// A skipped command is over at once, with success, and asks for no
/// transfer at all, whatever the phase.
pub proof fn lemma_skipped_command_sends_nothing(phase: Phase, command: String)
    requires
        is_skipped_command(command@),
    ensures
        command_step(phase, CommandEvent::Start(command)) == (
            Phase::Idle,
            CommandStep::Done(Ok(())),
        ),
{
}

/// While the position report is awaited, a run of "busy" notices asks for
/// the watchdog to be fed once per notice, no more and no less, and the
/// report is still awaited afterwards.
pub proof fn lemma_busy_notices_feed_once_each(events: Seq<CommandEvent>)
    requires
        forall|i: int| 0 <= i < events.len() ==> is_busy_event(#[trigger] events[i]),
    ensures
        command_run(Phase::StatusPoll, events).0 == Phase::StatusPoll,
        command_run(Phase::StatusPoll, events).1.len() == events.len(),
        feed_count(command_run(Phase::StatusPoll, events).1) == events.len(),
    decreases events.len(),
{
    if events.len() > 0 {
        let front = events.drop_last();
        assert forall|i: int| 0 <= i < front.len() implies is_busy_event(#[trigger] front[i]) by {
            assert(front[i] == events[i]);
        }
        lemma_busy_notices_feed_once_each(front);
        assert(is_busy_event(events[events.len() - 1]));
        let before = command_run(Phase::StatusPoll, front);
        let next = command_step(before.0, events.last());
        assert(next.1 is FeedThenReceive);
        assert(before.1.push(next.1).drop_last() =~= before.1);
    }
}

/// The position report that ends a run of "busy" notices is taken without
/// another feed: the watchdog was fed once per notice before it, and the
/// acknowledgment of the report is read next.
pub proof fn lemma_report_ends_busy_notices(events: Seq<CommandEvent>, report: String)
    requires
        forall|i: int| 0 <= i < events.len() ==> is_busy_event(#[trigger] events[i]),
        is_status_report_line(report@),
    ensures
        ({
            let run = command_run(
                Phase::StatusPoll,
                events.push(CommandEvent::Received(Ok(Some(report)))),
            );
            &&& run.0 == Phase::StatusAck
            &&& run.1.last() == CommandStep::Receive
            &&& feed_count(run.1) == events.len()
        }),
{
    lemma_busy_notices_feed_once_each(events);
    if is_busy_line(report@) {
        lemma_busy_notice_is_no_report(report@);
    }
    let all = events.push(CommandEvent::Received(Ok(Some(report))));
    assert(all.drop_last() =~= events);
    let before = command_run(Phase::StatusPoll, events);
    let next = command_step(before.0, all.last());
    assert(before.1.push(next.1).drop_last() =~= before.1);
}

/// One more event is one more step, taken from where the run stood.
pub proof fn lemma_command_run_push(phase: Phase, events: Seq<CommandEvent>, event: CommandEvent)
    ensures
        command_run(phase, events.push(event)) == ({
            let before = command_run(phase, events);
            let next = command_step(before.0, event);
            (next.0, before.1.push(next.1))
        }),
{
    assert(events.push(event).drop_last() =~= events);
    assert(events.push(event).last() == event);
}

/// Events that arrive one run after the other are followed as one run.
pub proof fn lemma_command_run_append(
    phase: Phase,
    first: Seq<CommandEvent>,
    second: Seq<CommandEvent>,
)
    ensures
        command_run(phase, first + second).0 == command_run(
            command_run(phase, first).0,
            second,
        ).0,
        command_run(phase, first + second).1 == command_run(phase, first).1 + command_run(
            command_run(phase, first).0,
            second,
        ).1,
    decreases second.len(),
{
    let middle = command_run(phase, first);
    if second.len() == 0 {
        assert(first + second =~= first);
        assert(middle.1 + command_run(middle.0, second).1 =~= middle.1);
    } else {
        let front = second.drop_last();
        lemma_command_run_append(phase, first, front);
        assert((first + second).drop_last() =~= first + front);
        assert((first + second).last() == second.last());
        let before = command_run(middle.0, front);
        let next = command_step(before.0, second.last());
        assert(command_run(phase, first + second).1 =~= middle.1 + before.1.push(next.1));
    }
}

/// Feeds asked for in two runs of steps add up.
pub proof fn lemma_feed_count_append(first: Seq<CommandStep>, second: Seq<CommandStep>)
    ensures
        feed_count(first + second) == feed_count(first) + feed_count(second),
    decreases second.len(),
{
    if second.len() == 0 {
        assert(first + second =~= first);
    } else {
        lemma_feed_count_append(first, second.drop_last());
        assert((first + second).drop_last() =~= first + second.drop_last());
    }
}

/// One whole exchange with a printer that behaves: a command that is not
/// skipped, the position request written, any number of "busy" notices,
/// the position report and its acknowledgment, the command written and
/// answered by a line that is no "unknown command" notice. The exchange
/// ends with success, the command was asked to be written once, and the
/// watchdog was fed once per notice and once after the command.
pub proof fn lemma_whole_exchange(
    command: String,
    notices: Seq<CommandEvent>,
    report: String,
    ack: String,
    response: Option<String>,
)
    requires
        !is_skipped_command(command@),
        forall|i: int| 0 <= i < notices.len() ==> is_busy_event(#[trigger] notices[i]),
        is_status_report_line(report@),
        is_ack_line(ack@),
        response is Some ==> !is_unknown_command_line(response->0@),
    ensures
        ({
            let opening = seq![CommandEvent::Start(command), CommandEvent::Sent(Ok(()))];
            let closing = seq![
                CommandEvent::Received(Ok(Some(report))),
                CommandEvent::Received(Ok(Some(ack))),
                CommandEvent::Sent(Ok(())),
                CommandEvent::Received(Ok(response)),
            ];
            let run = command_run(Phase::Idle, opening + notices + closing);
            &&& run.0 == Phase::Idle
            &&& run.1.last() == CommandStep::Done(Ok(()))
            &&& run.1.len() == notices.len() + 6
            &&& run.1[0] == CommandStep::SendStatusRequest
            &&& run.1[notices.len() as int + 3] == CommandStep::SendCommand
            &&& feed_count(run.1) == notices.len() + 1
        }),
{
    let opening = seq![CommandEvent::Start(command), CommandEvent::Sent(Ok(()))];
    let closing = seq![
        CommandEvent::Received(Ok(Some(report))),
        CommandEvent::Received(Ok(Some(ack))),
        CommandEvent::Sent(Ok(())),
        CommandEvent::Received(Ok(response)),
    ];
    // the opening
    let none = Seq::<CommandEvent>::empty();
    let o1 = none.push(opening[0]);
    lemma_command_run_push(Phase::Idle, none, opening[0]);
    lemma_command_run_push(Phase::Idle, o1, opening[1]);
    assert(o1.push(opening[1]) =~= opening);
    let opened = command_run(Phase::Idle, opening);
    assert(opened.0 == Phase::StatusPoll);
    assert(opened.1 =~= seq![CommandStep::SendStatusRequest, CommandStep::Receive]);
    lemma_feed_count_literal(opened.1);
    // the notices
    lemma_busy_notices_feed_once_each(notices);
    let polled = command_run(Phase::StatusPoll, notices);
    // the closing
    if is_busy_line(report@) {
        lemma_busy_notice_is_no_report(report@);
    }
    let c1 = none.push(closing[0]);
    let c2 = c1.push(closing[1]);
    let c3 = c2.push(closing[2]);
    lemma_command_run_push(Phase::StatusPoll, none, closing[0]);
    lemma_command_run_push(Phase::StatusPoll, c1, closing[1]);
    lemma_command_run_push(Phase::StatusPoll, c2, closing[2]);
    lemma_command_run_push(Phase::StatusPoll, c3, closing[3]);
    assert(c3.push(closing[3]) =~= closing);
    let closed = command_run(Phase::StatusPoll, closing);
    assert(closed.0 == Phase::Idle);
    assert(closed.1 =~= seq![
        CommandStep::Receive,
        CommandStep::SendCommand,
        CommandStep::FeedThenReceive,
        CommandStep::Done(Ok(())),
    ]);
    lemma_feed_count_literal(closed.1);
    // all of it
    lemma_command_run_append(Phase::Idle, opening, notices);
    lemma_command_run_append(Phase::Idle, opening + notices, closing);
    lemma_feed_count_append(opened.1, polled.1);
    lemma_feed_count_append(opened.1 + polled.1, closed.1);
}

/// Counts the feeds in a short run of steps, step by step.
proof fn lemma_feed_count_literal(steps: Seq<CommandStep>)
    requires
        steps.len() <= 4,
    ensures
        feed_count(steps) == (if steps.len() > 0 && steps[0] is FeedThenReceive {
            1nat
        } else {
            0nat
        }) + (if steps.len() > 1 && steps[1] is FeedThenReceive {
            1nat
        } else {
            0nat
        }) + (if steps.len() > 2 && steps[2] is FeedThenReceive {
            1nat
        } else {
            0nat
        }) + (if steps.len() > 3 && steps[3] is FeedThenReceive {
            1nat
        } else {
            0nat
        }),
    decreases steps.len(),
{
    if steps.len() > 0 {
        lemma_feed_count_literal(steps.drop_last());
    }
}

/// A command that the printer did not recognise is written again: the
/// notice asks for the acknowledgment to be read, and the acknowledgment
/// asks for the command to be sent once more.
pub proof fn lemma_unknown_command_is_sent_again(notice: String, ack: String)
    requires
        is_unknown_command_line(notice@),
        is_ack_line(ack@),
    ensures
        command_step(Phase::CommandResponse, CommandEvent::Received(Ok(Some(notice)))) == (
            Phase::UnknownAck,
            CommandStep::Receive,
        ),
        command_step(Phase::UnknownAck, CommandEvent::Received(Ok(Some(ack)))) == (
            Phase::CommandSend,
            CommandStep::SendCommand,
        ),
        command_step(Phase::CommandSend, CommandEvent::Sent(Ok(()))) == (
            Phase::CommandResponse,
            CommandStep::FeedThenReceive,
        ),
{
}

/// How a transport answers a flush.
#[derive(Debug, Clone, Copy, PartialEq, Eq, Structural)]
pub enum Poll {
    /// Done.
    Ready,
    /// Not yet: ask again.
    WouldBlock,
    /// The transport failed.
    Failed,
}

/// What the caller reports to `SerialWrapper::inner_write`.
pub enum WriteEvent {
    /// This text is to be written.
    Start(String),
    /// The transport has room for this many bytes, or failed to say.
    Capacity(Option<usize>),
    /// The transport took this many bytes (none where it would block), or
    /// failed.
    Wrote(Option<usize>),
    /// The transport's answer to a flush.
    Flushed(Poll),
}

/// What `SerialWrapper::inner_write` asks the caller to do next.
#[derive(Debug, Clone, Copy, PartialEq, Eq)]
pub enum WriteStep {
    /// Ask the transport how many bytes it has room for; report `Capacity`.
    QueryCapacity,
    /// Write this many bytes from the front of the unsent bytes; report
    /// `Wrote`.
    Write(usize),
    /// Flush the transport; report `Flushed`.
    Flush,
    /// The text is written, or the transport failed.
    Done(Result<(), SerialLineError>),
}

/// What the caller reports to `SerialWrapper::read`.
pub enum ReadEvent {
    /// A line is wanted.
    Start,
    /// This many bytes wait in the transport, or it failed to say.
    Available(Option<usize>),
    /// These bytes were fetched, or the transport failed.
    Fetched(Option<Vec<u8>>),
}

/// What `SerialWrapper::read` answers.
#[derive(Debug, PartialEq, Eq)]
pub enum ReadStep {
    /// A complete line, newline included.
    Line(String),
    /// No complete line yet, and nothing waits in the transport.
    Idle,
    /// Ask the transport how many bytes wait; report `Available`.
    QueryAvailable,
    /// Fetch at most this many bytes; report `Fetched`.
    Fetch(usize),
    /// The read failed.
    Failed(SerialLineError),
}

/// After bytes were written: flush once nothing is left, else ask for room
/// again.
pub open spec fn step_after_write(unsent: Seq<u8>) -> WriteStep {
    if unsent.len() == 0 {
        WriteStep::Flush
    } else {
        WriteStep::QueryCapacity
    }
}

/// With `before` buffered, `step` hands out its first line and leaves the
/// rest in `after`; or, where `before` holds no line, asks the transport for
/// more and leaves the buffer as it is.
pub open spec fn line_or_query(before: Seq<char>, after: Seq<char>, step: ReadStep) -> bool {
    if has_line(before) {
        &&& step matches ReadStep::Line(line)
        &&& line@ == first_line(before)
        &&& after == after_first_line(before)
    } else {
        &&& step is QueryAvailable
        &&& after == before
    }
}

/// The command channel: what was received and not yet read as a line, the
/// command under way, and the bytes still to be written.
pub struct SerialWrapper {
    read_line_buffer: LineBuffer,
    phase: Phase,
    command: String,
    outgoing: Vec<u8>,
}

impl SerialWrapper {
    /// The text received and not yet handed out.
    pub closed spec fn buffered(&self) -> Seq<char> {
        self.read_line_buffer@
    }

    /// Where the command under way stands.
    pub closed spec fn phase(&self) -> Phase {
        self.phase
    }

    /// The command under way, or the last one.
    pub closed spec fn command(&self) -> Seq<char> {
        self.command@
    }

    /// The bytes of the text being written that the transport has not taken.
    pub closed spec fn unsent(&self) -> Seq<u8> {
        self.outgoing@
    }

    /// A channel with nothing buffered and no command under way.
    pub fn new() -> (channel: Self)
        ensures
            channel.buffered() == Seq::<char>::empty(),
            channel.phase() == Phase::Idle,
            channel.command() == Seq::<char>::empty(),
            channel.unsent() == Seq::<u8>::empty(),
    {
        SerialWrapper {
            read_line_buffer: LineBuffer::new(),
            phase: Phase::Idle,
            command: String::new(),
            outgoing: Vec::new(),
        }
    }

    /// The command to write when `write` asks for `SendCommand`.
    pub fn command_text(&self) -> (text: &str)
        ensures
            text@ == self.command(),
    {
        self.command.as_str()
    }

    /// The bytes that `inner_write` asks to write from.
    pub fn unsent_bytes(&self) -> (bytes: &Vec<u8>)
        ensures
            bytes@ == self.unsent(),
    {
        &self.outgoing
    }

    /// Sends one command: follows `command_step` from the current phase.
    /// `Start` with a command that is not skipped keeps it as the command
    /// under way; nothing else changes it.
    pub fn write(&mut self, event: CommandEvent) -> (step: CommandStep)
        ensures
            (final(self).phase(), step) == command_step(old(self).phase(), event),
            final(self).command() == (match event {
                CommandEvent::Start(command) if !is_skipped_command(command@) => command@,
                _ => old(self).command(),
            }),
            final(self).buffered() == old(self).buffered(),
            final(self).unsent() == old(self).unsent(),
    {
        let (phase, step) = match event {
            CommandEvent::Start(command) => {
                if is_skipped(command.as_str()) {
                    (Phase::Idle, CommandStep::Done(Ok(())))
                } else {
                    self.command = command;
                    (Phase::StatusRequest, CommandStep::SendStatusRequest)
                }
            },
            CommandEvent::Sent(Err(e)) => (Phase::Idle, CommandStep::Done(Err(e))),
            CommandEvent::Sent(Ok(_)) => match self.phase {
                Phase::StatusRequest => (Phase::StatusPoll, CommandStep::Receive),
                Phase::CommandSend => (Phase::CommandResponse, CommandStep::FeedThenReceive),
                _ => (Phase::Idle, CommandStep::Done(Err(SerialLineError::ProtocolViolation))),
            },
            CommandEvent::Received(Err(e)) => (Phase::Idle, CommandStep::Done(Err(e))),
            CommandEvent::Received(Ok(line)) => match self.phase {
                Phase::StatusPoll => match &line {
                    Some(l) => if is_busy(l.as_str()) {
                        (Phase::StatusPoll, CommandStep::FeedThenReceive)
                    } else if is_status_report(l.as_str()) {
                        (Phase::StatusAck, CommandStep::Receive)
                    } else {
                        (Phase::StatusPoll, CommandStep::Receive)
                    },
                    None => (Phase::StatusPoll, CommandStep::Receive),
                },
                Phase::StatusAck | Phase::UnknownAck => match &line {
                    Some(l) => if is_ack(l.as_str()) {
                        (Phase::CommandSend, CommandStep::SendCommand)
                    } else {
                        (Phase::Idle, CommandStep::Done(Err(SerialLineError::ProtocolViolation)))
                    },
                    None => (
                        Phase::Idle,
                        CommandStep::Done(Err(SerialLineError::ProtocolViolation)),
                    ),
                },
                Phase::CommandResponse => match &line {
                    Some(l) => if is_unknown_command(l.as_str()) {
                        (Phase::UnknownAck, CommandStep::Receive)
                    } else {
                        (Phase::Idle, CommandStep::Done(Ok(())))
                    },
                    None => (Phase::Idle, CommandStep::Done(Ok(()))),
                },
                _ => (Phase::Idle, CommandStep::Done(Err(SerialLineError::ProtocolViolation))),
            },
        };
        self.phase = phase;
        step
    }

    /// Writes one text against the transport's backpressure: asks for room,
    /// writes no more than there is room for, goes on until nothing is left,
    /// then flushes until the transport is done. A transport that fails
    /// ends it with `Write`.
    pub fn inner_write(&mut self, event: WriteEvent) -> (step: WriteStep)
        ensures
            final(self).buffered() == old(self).buffered(),
            final(self).phase() == old(self).phase(),
            final(self).command() == old(self).command(),
            match event {
                WriteEvent::Start(text) => {
                    &&& final(self).unsent() == encode_utf8(text@)
                    &&& step == step_after_write(final(self).unsent())
                },
                WriteEvent::Capacity(None) => {
                    &&& final(self).unsent() == old(self).unsent()
                    &&& step == WriteStep::Done(Err(SerialLineError::Write))
                },
                WriteEvent::Capacity(Some(room)) => {
                    &&& final(self).unsent() == old(self).unsent()
                    &&& step == if old(self).unsent().len() == 0 {
                        WriteStep::Flush
                    } else if room < old(self).unsent().len() {
                        WriteStep::Write(room)
                    } else {
                        WriteStep::Write(old(self).unsent().len() as usize)
                    }
                },
                WriteEvent::Wrote(None) => {
                    &&& final(self).unsent() == old(self).unsent()
                    &&& step == WriteStep::Done(Err(SerialLineError::Write))
                },
                WriteEvent::Wrote(Some(count)) => {
                    &&& final(self).unsent() == if count < old(self).unsent().len() {
                        old(self).unsent().skip(count as int)
                    } else {
                        Seq::<u8>::empty()
                    }
                    &&& step == step_after_write(final(self).unsent())
                },
                WriteEvent::Flushed(answer) => {
                    &&& final(self).unsent() == old(self).unsent()
                    &&& step == match answer {
                        Poll::Ready => WriteStep::Done(Ok(())),
                        Poll::WouldBlock => WriteStep::Flush,
                        Poll::Failed => WriteStep::Done(Err(SerialLineError::Write)),
                    }
                },
            },
    {
        match event {
            WriteEvent::Start(text) => {
                self.outgoing = text.as_str().as_bytes_vec();
                if self.outgoing.len() == 0 {
                    WriteStep::Flush
                } else {
                    WriteStep::QueryCapacity
                }
            },
            WriteEvent::Capacity(None) => WriteStep::Done(Err(SerialLineError::Write)),
            WriteEvent::Capacity(Some(room)) => {
                let left: usize = self.outgoing.len();
                if left == 0 {
                    WriteStep::Flush
                } else if room < left {
                    WriteStep::Write(room)
                } else {
                    WriteStep::Write(left)
                }
            },
            WriteEvent::Wrote(None) => WriteStep::Done(Err(SerialLineError::Write)),
            WriteEvent::Wrote(Some(count)) => {
                let left: usize = self.outgoing.len();
                let taken: usize = if count < left {
                    count
                } else {
                    left
                };
                let rest = self.outgoing.split_off(taken);
                self.outgoing = rest;
                assert(self.outgoing@ =~= if count < left {
                    old(self).outgoing@.skip(count as int)
                } else {
                    Seq::<u8>::empty()
                });
                if self.outgoing.len() == 0 {
                    WriteStep::Flush
                } else {
                    WriteStep::QueryCapacity
                }
            },
            WriteEvent::Flushed(answer) => match answer {
                Poll::Ready => WriteStep::Done(Ok(())),
                Poll::WouldBlock => WriteStep::Flush,
                Poll::Failed => WriteStep::Done(Err(SerialLineError::Write)),
            },
        }
    }

    /// Reads one line. A line that is already buffered is handed out at
    /// once. Else the transport is asked how much waits: nothing ends the
    /// read with `Idle`, and what was buffered stays for the next read;
    /// otherwise at most `READ_CHUNK` bytes are fetched, decoded and
    /// buffered, until a line is complete. Bytes that are not UTF-8 end the
    /// read with `Utf8Error` and leave the buffer as it was.
    pub fn read(&mut self, event: ReadEvent) -> (step: ReadStep)
        ensures
            final(self).phase() == old(self).phase(),
            final(self).command() == old(self).command(),
            final(self).unsent() == old(self).unsent(),
            match event {
                ReadEvent::Start => line_or_query(
                    old(self).buffered(),
                    final(self).buffered(),
                    step,
                ),
                ReadEvent::Available(None) => {
                    &&& step == ReadStep::Failed(SerialLineError::Read)
                    &&& final(self).buffered() == old(self).buffered()
                },
                ReadEvent::Available(Some(waiting)) => {
                    &&& final(self).buffered() == old(self).buffered()
                    &&& step == if waiting == 0 {
                        ReadStep::Idle
                    } else if waiting < READ_CHUNK {
                        ReadStep::Fetch(waiting)
                    } else {
                        ReadStep::Fetch(READ_CHUNK)
                    }
                },
                ReadEvent::Fetched(None) => {
                    &&& step == ReadStep::Failed(SerialLineError::Read)
                    &&& final(self).buffered() == old(self).buffered()
                },
                ReadEvent::Fetched(Some(bytes)) => if valid_utf8(bytes@) {
                    line_or_query(
                        old(self).buffered() + decode_utf8(bytes@),
                        final(self).buffered(),
                        step,
                    )
                } else {
                    &&& step == ReadStep::Failed(SerialLineError::Utf8Error)
                    &&& final(self).buffered() == old(self).buffered()
                },
            },
    {
        match event {
            ReadEvent::Start => self.next_line(),
            ReadEvent::Available(None) => ReadStep::Failed(SerialLineError::Read),
            ReadEvent::Available(Some(waiting)) => {
                if waiting == 0 {
                    ReadStep::Idle
                } else if waiting < READ_CHUNK {
                    ReadStep::Fetch(waiting)
                } else {
                    ReadStep::Fetch(READ_CHUNK)
                }
            },
            ReadEvent::Fetched(None) => ReadStep::Failed(SerialLineError::Read),
            ReadEvent::Fetched(Some(bytes)) => {
                if self.read_line_buffer.push_bytes(bytes.as_slice()) {
                    self.next_line()
                } else {
                    ReadStep::Failed(SerialLineError::Utf8Error)
                }
            },
        }
    }

    /// Hands out the first buffered line, or asks the transport for more.
    fn next_line(&mut self) -> (step: ReadStep)
        ensures
            final(self).phase() == old(self).phase(),
            final(self).command() == old(self).command(),
            final(self).unsent() == old(self).unsent(),
            line_or_query(old(self).buffered(), final(self).buffered(), step),
    {
        match self.read_line_buffer.take_line() {
            Some(line) => ReadStep::Line(line),
            None => ReadStep::QueryAvailable,
        }
    }

    /// Starts afresh: drops what is buffered, the bytes not yet written and
    /// the command under way. `transport_cleared` says whether the
    /// transport discarded its unread input; where it did not, the result
    /// is `Clear`.
    pub fn clear(&mut self, transport_cleared: bool) -> (result: Result<(), SerialLineError>)
        ensures
            final(self).buffered() == Seq::<char>::empty(),
            final(self).unsent() == Seq::<u8>::empty(),
            final(self).phase() == Phase::Idle,
            final(self).command() == old(self).command(),
            result == if transport_cleared {
                Ok::<(), SerialLineError>(())
            } else {
                Err::<(), SerialLineError>(SerialLineError::Clear)
            },
    {
        self.read_line_buffer.clear();
        self.outgoing = Vec::new();
        self.phase = Phase::Idle;
        if transport_cleared {
            Ok(())
        } else {
            Err(SerialLineError::Clear)
        }
    }
}

} // verus!
