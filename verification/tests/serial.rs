use printer_link::serial::{
    is_ack, is_busy, is_skipped, is_status_report, is_unknown_command, status_request,
    CommandEvent, CommandStep, Poll, ReadEvent, ReadStep, SerialLineError, SerialWrapper,
    WriteEvent, WriteStep, READ_CHUNK,
};
use std::collections::VecDeque;

const BUSY: &str = "echo:busy: processing\n";
const REPORT: &str = "X:0.00 Y:0.00 Z:0.00 E:0.00 Count X:0 Y:0 Z:0\n";

/// A printer behind a port: each line written to it is answered with the
/// next entry of the script.
struct SimPort {
    script: VecDeque<String>,
    incoming: VecDeque<u8>,
    partial: Vec<u8>,
    lines_written: Vec<String>,
    room: usize,
    writes: usize,
    feeds: usize,
    flush_blocks: usize,
    fail_write: bool,
    fail_flush: bool,
    fail_read: bool,
}

impl SimPort {
    fn new(script: &[&str]) -> Self {
        SimPort {
            script: script.iter().map(|s| s.to_string()).collect(),
            incoming: VecDeque::new(),
            partial: Vec::new(),
            lines_written: Vec::new(),
            room: 3,
            writes: 0,
            feeds: 0,
            flush_blocks: 0,
            fail_write: false,
            fail_flush: false,
            fail_read: false,
        }
    }

    fn write(&mut self, bytes: &[u8]) -> Option<usize> {
        self.writes += 1;
        if self.fail_write {
            return None;
        }
        for b in bytes {
            self.partial.push(*b);
            if *b == b'\n' {
                let line = String::from_utf8(std::mem::take(&mut self.partial)).unwrap();
                self.lines_written.push(line);
                if let Some(answer) = self.script.pop_front() {
                    self.incoming.extend(answer.bytes());
                }
            }
        }
        Some(bytes.len())
    }

    fn flush(&mut self) -> Poll {
        if self.fail_flush {
            Poll::Failed
        } else if self.flush_blocks > 0 {
            self.flush_blocks -= 1;
            Poll::WouldBlock
        } else {
            Poll::Ready
        }
    }

    fn read(&mut self, count: usize) -> Option<Vec<u8>> {
        if self.fail_read {
            return None;
        }
        let n = usize::min(count, self.incoming.len());
        Some(self.incoming.drain(..n).collect())
    }
}

fn transmit(ch: &mut SerialWrapper, port: &mut SimPort, text: &str) -> Result<(), SerialLineError> {
    let mut step = ch.inner_write(WriteEvent::Start(text.to_string()));
    loop {
        step = match step {
            WriteStep::QueryCapacity => ch.inner_write(WriteEvent::Capacity(Some(port.room))),
            WriteStep::Write(count) => {
                let bytes = ch.unsent_bytes()[..count].to_vec();
                let outcome = port.write(&bytes);
                ch.inner_write(WriteEvent::Wrote(outcome))
            }
            WriteStep::Flush => {
                let answer = port.flush();
                ch.inner_write(WriteEvent::Flushed(answer))
            }
            WriteStep::Done(result) => return result,
        };
    }
}

fn receive(ch: &mut SerialWrapper, port: &mut SimPort) -> Result<Option<String>, SerialLineError> {
    let mut step = ch.read(ReadEvent::Start);
    loop {
        step = match step {
            ReadStep::Line(line) => return Ok(Some(line)),
            ReadStep::Idle => return Ok(None),
            ReadStep::QueryAvailable => {
                let waiting = if port.fail_read { None } else { Some(port.incoming.len()) };
                ch.read(ReadEvent::Available(waiting))
            }
            ReadStep::Fetch(count) => {
                let bytes = port.read(count);
                ch.read(ReadEvent::Fetched(bytes))
            }
            ReadStep::Failed(error) => return Err(error),
        };
    }
}

fn send_command(
    ch: &mut SerialWrapper,
    port: &mut SimPort,
    command: &str,
) -> Result<(), SerialLineError> {
    let mut step = ch.write(CommandEvent::Start(command.to_string()));
    loop {
        step = match step {
            CommandStep::SendStatusRequest => {
                let sent = transmit(ch, port, status_request());
                ch.write(CommandEvent::Sent(sent))
            }
            CommandStep::SendCommand => {
                let text = ch.command_text().to_string();
                let sent = transmit(ch, port, &text);
                ch.write(CommandEvent::Sent(sent))
            }
            CommandStep::Receive => {
                let line = receive(ch, port);
                ch.write(CommandEvent::Received(line))
            }
            CommandStep::FeedThenReceive => {
                port.feeds += 1;
                let line = receive(ch, port);
                ch.write(CommandEvent::Received(line))
            }
            CommandStep::Done(result) => return result,
        };
    }
}

fn line(text: &str) -> CommandEvent {
    CommandEvent::Received(Ok(Some(text.to_string())))
}

/// Brings a fresh channel to the point where the position report is awaited.
fn polling_channel() -> SerialWrapper {
    let mut ch = SerialWrapper::new();
    assert_eq!(ch.write(CommandEvent::Start("G28\n".to_string())), CommandStep::SendStatusRequest);
    assert_eq!(ch.write(CommandEvent::Sent(Ok(()))), CommandStep::Receive);
    ch
}

/// Brings a fresh channel to the point where the command's response is awaited.
fn responding_channel(command: &str) -> SerialWrapper {
    let mut ch = SerialWrapper::new();
    assert_eq!(ch.write(CommandEvent::Start(command.to_string())), CommandStep::SendStatusRequest);
    assert_eq!(ch.write(CommandEvent::Sent(Ok(()))), CommandStep::Receive);
    assert_eq!(ch.write(line(REPORT)), CommandStep::Receive);
    assert_eq!(ch.write(line("ok\n")), CommandStep::SendCommand);
    assert_eq!(ch.write(CommandEvent::Sent(Ok(()))), CommandStep::FeedThenReceive);
    ch
}

#[test]
fn line_kinds_are_told_apart() {
    assert!(is_busy(BUSY));
    assert!(!is_busy("echo:busy: processing"));
    assert!(!is_busy("echo:busy: paused for user\n"));
    assert!(is_status_report(REPORT));
    assert!(is_status_report("E:1 Z:2 Y:3 X:4"));
    assert!(!is_status_report("X:0.00 Y:0.00 Z:0.00\n"));
    assert!(!is_status_report(BUSY));
    assert!(is_ack("ok\n"));
    assert!(!is_ack("ok"));
    assert!(!is_ack("ok \n"));
    assert!(is_unknown_command("echo:Unknown command: \"G999\"\n"));
    assert!(!is_unknown_command(" echo:Unknown command: \"G999\"\n"));
    assert!(!is_unknown_command("echo:Unknown"));
    assert_eq!(status_request(), "M114\n");
}

#[test]
fn skipped_commands_are_empty_or_comments() {
    assert!(is_skipped(""));
    assert!(is_skipped(";comment\n"));
    assert!(is_skipped("  \t; indented comment\n"));
    assert!(is_skipped(";"));
    assert!(!is_skipped("\n"));
    assert!(!is_skipped("   "));
    assert!(!is_skipped("G28 ;Home\n"));
    assert!(!is_skipped("G28\n"));
}

#[test]
fn skipped_commands_write_nothing_and_succeed() {
    for command in ["", ";comment\n", "   ; later\n"] {
        let mut ch = SerialWrapper::new();
        let mut port = SimPort::new(&[]);
        assert_eq!(send_command(&mut ch, &mut port, command), Ok(()));
        assert_eq!(port.writes, 0);
        assert_eq!(port.feeds, 0);
        assert!(port.lines_written.is_empty());
        assert!(ch.unsent_bytes().is_empty());
    }
}

#[test]
fn skipped_command_is_done_at_once() {
    let mut ch = SerialWrapper::new();
    assert_eq!(ch.write(CommandEvent::Start(String::new())), CommandStep::Done(Ok(())));
    assert_eq!(ch.write(CommandEvent::Start(";x".to_string())), CommandStep::Done(Ok(())));
}

#[test]
fn command_is_sent_after_the_position_report() {
    let mut ch = SerialWrapper::new();
    let mut port = SimPort::new(&[&format!("{REPORT}ok\n"), "ok\n"]);
    assert_eq!(send_command(&mut ch, &mut port, "G28 ;Home\n"), Ok(()));
    assert_eq!(port.lines_written, vec!["M114\n", "G28 ;Home\n"]);
    assert_eq!(port.feeds, 1);
    assert_eq!(ch.command_text(), "G28 ;Home\n");
}

#[test]
fn each_busy_notice_feeds_the_watchdog_once() {
    for notices in 0..6usize {
        let mut ch = polling_channel();
        for _ in 0..notices {
            assert_eq!(ch.write(line(BUSY)), CommandStep::FeedThenReceive);
        }
        assert_eq!(ch.write(line(REPORT)), CommandStep::Receive);
        assert_eq!(ch.write(line("ok\n")), CommandStep::SendCommand);
    }
}

#[test]
fn busy_notices_are_counted_end_to_end() {
    for notices in 0..5usize {
        let mut ch = SerialWrapper::new();
        let answer = format!("{}{REPORT}ok\n", BUSY.repeat(notices));
        let mut port = SimPort::new(&[&answer, "ok\n"]);
        assert_eq!(send_command(&mut ch, &mut port, "M104 S200\n"), Ok(()));
        // one feed per notice, and the one that follows the command
        assert_eq!(port.feeds, notices + 1);
    }
}

#[test]
fn other_lines_and_silence_keep_polling_without_a_feed() {
    let mut ch = polling_channel();
    assert_eq!(ch.write(line("echo: something else\n")), CommandStep::Receive);
    assert_eq!(ch.write(CommandEvent::Received(Ok(None))), CommandStep::Receive);
    assert_eq!(ch.write(line(REPORT)), CommandStep::Receive);
}

#[test]
fn report_must_be_followed_by_an_acknowledgment() {
    let mut ch = polling_channel();
    assert_eq!(ch.write(line(REPORT)), CommandStep::Receive);
    assert_eq!(
        ch.write(line("error\n")),
        CommandStep::Done(Err(SerialLineError::ProtocolViolation))
    );
    let mut ch = polling_channel();
    assert_eq!(ch.write(line(REPORT)), CommandStep::Receive);
    assert_eq!(
        ch.write(CommandEvent::Received(Ok(None))),
        CommandStep::Done(Err(SerialLineError::ProtocolViolation))
    );
}

#[test]
fn unknown_command_is_sent_again() {
    let mut ch = responding_channel("G29\n");
    assert_eq!(ch.write(line("echo:Unknown command: \"G29\"\n")), CommandStep::Receive);
    assert_eq!(ch.write(line("ok\n")), CommandStep::SendCommand);
    assert_eq!(ch.command_text(), "G29\n");
    assert_eq!(ch.write(CommandEvent::Sent(Ok(()))), CommandStep::FeedThenReceive);
    assert_eq!(ch.write(line("ok\n")), CommandStep::Done(Ok(())));
}

#[test]
fn unknown_command_is_sent_again_end_to_end() {
    let mut ch = SerialWrapper::new();
    let mut port = SimPort::new(&[
        &format!("{REPORT}ok\n"),
        "echo:Unknown command: \"start\"\nok\n",
        "ok\n",
    ]);
    assert_eq!(send_command(&mut ch, &mut port, "G1 X10\n"), Ok(()));
    assert_eq!(port.lines_written, vec!["M114\n", "G1 X10\n", "G1 X10\n"]);
}

#[test]
fn unknown_command_notice_must_be_followed_by_an_acknowledgment() {
    let mut ch = responding_channel("G29\n");
    assert_eq!(ch.write(line("echo:Unknown command: \"G29\"\n")), CommandStep::Receive);
    assert_eq!(
        ch.write(line("what\n")),
        CommandStep::Done(Err(SerialLineError::ProtocolViolation))
    );
}

#[test]
fn any_other_response_ends_the_command() {
    let mut ch = responding_channel("G28\n");
    assert_eq!(ch.write(line("echo:busy: processing\n")), CommandStep::Done(Ok(())));
    let mut ch = responding_channel("G28\n");
    assert_eq!(ch.write(CommandEvent::Received(Ok(None))), CommandStep::Done(Ok(())));
}

#[test]
fn transport_errors_end_the_command() {
    let mut ch = SerialWrapper::new();
    let mut port = SimPort::new(&[]);
    port.fail_write = true;
    assert_eq!(send_command(&mut ch, &mut port, "G28\n"), Err(SerialLineError::Write));
    assert_eq!(port.writes, 1);

    let mut ch = SerialWrapper::new();
    let mut port = SimPort::new(&[]);
    port.fail_flush = true;
    assert_eq!(send_command(&mut ch, &mut port, "G28\n"), Err(SerialLineError::Write));

    let mut ch = SerialWrapper::new();
    let mut port = SimPort::new(&[]);
    port.fail_read = true;
    assert_eq!(send_command(&mut ch, &mut port, "G28\n"), Err(SerialLineError::Read));

    let mut ch = SerialWrapper::new();
    let mut port = SimPort::new(&["\u{FF}"]);
    port.script = VecDeque::new();
    port.incoming.extend([0xFFu8, b'\n']);
    assert_eq!(send_command(&mut ch, &mut port, "G28\n"), Err(SerialLineError::Utf8Error));
}

#[test]
fn outcome_that_was_not_asked_for_is_refused() {
    let mut ch = SerialWrapper::new();
    assert_eq!(
        ch.write(CommandEvent::Sent(Ok(()))),
        CommandStep::Done(Err(SerialLineError::ProtocolViolation))
    );
    assert_eq!(
        ch.write(line("ok\n")),
        CommandStep::Done(Err(SerialLineError::ProtocolViolation))
    );
    let mut ch = polling_channel();
    assert_eq!(
        ch.write(CommandEvent::Sent(Ok(()))),
        CommandStep::Done(Err(SerialLineError::ProtocolViolation))
    );
}

#[test]
fn writing_follows_the_room_in_the_transport() {
    let mut ch = SerialWrapper::new();
    assert_eq!(ch.inner_write(WriteEvent::Start("M114\n".to_string())), WriteStep::QueryCapacity);
    assert_eq!(ch.unsent_bytes().as_slice(), b"M114\n");
    assert_eq!(ch.inner_write(WriteEvent::Capacity(Some(2))), WriteStep::Write(2));
    assert_eq!(ch.inner_write(WriteEvent::Wrote(Some(2))), WriteStep::QueryCapacity);
    assert_eq!(ch.unsent_bytes().as_slice(), b"14\n");
    assert_eq!(ch.inner_write(WriteEvent::Capacity(Some(0))), WriteStep::Write(0));
    assert_eq!(ch.inner_write(WriteEvent::Wrote(Some(0))), WriteStep::QueryCapacity);
    assert_eq!(ch.unsent_bytes().as_slice(), b"14\n");
    assert_eq!(ch.inner_write(WriteEvent::Capacity(Some(100))), WriteStep::Write(3));
    assert_eq!(ch.inner_write(WriteEvent::Wrote(Some(3))), WriteStep::Flush);
    assert!(ch.unsent_bytes().is_empty());
    assert_eq!(ch.inner_write(WriteEvent::Flushed(Poll::WouldBlock)), WriteStep::Flush);
    assert_eq!(ch.inner_write(WriteEvent::Flushed(Poll::WouldBlock)), WriteStep::Flush);
    assert_eq!(ch.inner_write(WriteEvent::Flushed(Poll::Ready)), WriteStep::Done(Ok(())));
}

#[test]
fn writing_fails_on_a_failed_write_or_flush() {
    let mut ch = SerialWrapper::new();
    assert_eq!(ch.inner_write(WriteEvent::Start("G28\n".to_string())), WriteStep::QueryCapacity);
    assert_eq!(
        ch.inner_write(WriteEvent::Capacity(None)),
        WriteStep::Done(Err(SerialLineError::Write))
    );
    assert_eq!(
        ch.inner_write(WriteEvent::Wrote(None)),
        WriteStep::Done(Err(SerialLineError::Write))
    );
    assert_eq!(ch.unsent_bytes().as_slice(), b"G28\n");
    assert_eq!(
        ch.inner_write(WriteEvent::Flushed(Poll::Failed)),
        WriteStep::Done(Err(SerialLineError::Write))
    );
}

#[test]
fn writing_nothing_only_flushes() {
    let mut ch = SerialWrapper::new();
    assert_eq!(ch.inner_write(WriteEvent::Start(String::new())), WriteStep::Flush);
    assert_eq!(ch.inner_write(WriteEvent::Capacity(Some(5))), WriteStep::Flush);
}

#[test]
fn writing_encodes_text_as_utf8() {
    let mut ch = SerialWrapper::new();
    ch.inner_write(WriteEvent::Start("é\n".to_string()));
    assert_eq!(ch.unsent_bytes().as_slice(), &[0xC3, 0xA9, b'\n']);
    assert_eq!(ch.inner_write(WriteEvent::Wrote(Some(99))), WriteStep::Flush);
}

#[test]
fn blocked_flush_is_tried_again() {
    let mut ch = SerialWrapper::new();
    let mut port = SimPort::new(&[]);
    port.flush_blocks = 7;
    assert_eq!(transmit(&mut ch, &mut port, "G28\n"), Ok(()));
    assert_eq!(port.flush_blocks, 0);
    assert_eq!(port.lines_written, vec!["G28\n"]);
    // three bytes of room at a time
    assert_eq!(port.writes, 2);
}

#[test]
fn reading_hands_out_buffered_lines_first() {
    let mut ch = SerialWrapper::new();
    assert_eq!(ch.read(ReadEvent::Start), ReadStep::QueryAvailable);
    assert_eq!(ch.read(ReadEvent::Available(Some(9))), ReadStep::Fetch(9));
    assert_eq!(
        ch.read(ReadEvent::Fetched(Some(b"ok\nX:1\nZ".to_vec()))),
        ReadStep::Line("ok\n".to_string())
    );
    assert_eq!(ch.read(ReadEvent::Start), ReadStep::Line("X:1\n".to_string()));
    assert_eq!(ch.read(ReadEvent::Start), ReadStep::QueryAvailable);
    assert_eq!(ch.read(ReadEvent::Available(Some(0))), ReadStep::Idle);
    assert_eq!(ch.read(ReadEvent::Start), ReadStep::QueryAvailable);
    assert_eq!(ch.read(ReadEvent::Fetched(Some(b":2\n".to_vec()))), ReadStep::Line("Z:2\n".to_string()));
}

#[test]
fn reading_fetches_no_more_than_a_chunk() {
    let mut ch = SerialWrapper::new();
    assert_eq!(READ_CHUNK, 1000);
    assert_eq!(ch.read(ReadEvent::Available(Some(999))), ReadStep::Fetch(999));
    assert_eq!(ch.read(ReadEvent::Available(Some(1000))), ReadStep::Fetch(1000));
    assert_eq!(ch.read(ReadEvent::Available(Some(1001))), ReadStep::Fetch(1000));
    assert_eq!(ch.read(ReadEvent::Available(Some(usize::MAX))), ReadStep::Fetch(1000));
}

#[test]
fn reading_fails_on_transport_errors_and_bad_bytes() {
    let mut ch = SerialWrapper::new();
    assert_eq!(ch.read(ReadEvent::Available(None)), ReadStep::Failed(SerialLineError::Read));
    assert_eq!(ch.read(ReadEvent::Fetched(None)), ReadStep::Failed(SerialLineError::Read));
    assert_eq!(ch.read(ReadEvent::Fetched(Some(b"ab".to_vec()))), ReadStep::QueryAvailable);
    assert_eq!(
        ch.read(ReadEvent::Fetched(Some(vec![b'c', 0x80, b'\n']))),
        ReadStep::Failed(SerialLineError::Utf8Error)
    );
    assert_eq!(ch.read(ReadEvent::Fetched(Some(b"\n".to_vec()))), ReadStep::Line("ab\n".to_string()));
}

#[test]
fn clear_drops_the_buffer_and_reports_the_transport() {
    let mut ch = SerialWrapper::new();
    ch.read(ReadEvent::Fetched(Some(b"partial".to_vec())));
    ch.inner_write(WriteEvent::Start("G28\n".to_string()));
    assert_eq!(ch.clear(true), Ok(()));
    assert!(ch.unsent_bytes().is_empty());
    assert_eq!(ch.read(ReadEvent::Fetched(Some(b"ok\n".to_vec()))), ReadStep::Line("ok\n".to_string()));
    assert_eq!(ch.clear(false), Err(SerialLineError::Clear));
    assert_eq!(
        ch.write(CommandEvent::Sent(Ok(()))),
        CommandStep::Done(Err(SerialLineError::ProtocolViolation))
    );
}
