//! Line by line through the one file on the card that holds the model:
//! reading it to its end, or writing it with a bounded number of retries.
//!
//! Nothing here touches the card. Each method takes what the card reported
//! and answers with the next thing to do.

use core::marker::PhantomData;
use vstd::prelude::*;
use vstd::string::*;
use vstd::utf8::*;
use crate::line_buffer::{after_first_line, first_line, has_line, LineBuffer};

verus! {

/// How often a write that made no progress is tried again at one offset.
pub const WRITE_RETRIES: usize = 1000;

/// How often closing the file is tried before it is given up.
pub const CLOSE_ATTEMPTS: usize = 3;

/// The most bytes fetched from the file in one read.
pub const FILE_CHUNK: usize = 100;

/// The name of the file that holds the model.
pub open spec fn model_file_name_text() -> Seq<char> {
    "model.txt"@
}

/// The name of the file that holds the model.
pub fn model_file_name() -> (name: &'static str)
    ensures
        name@ == model_file_name_text(),
{
    "model.txt"
}

/// How the file is opened.
#[derive(Debug, Clone, Copy, PartialEq, Eq, Structural)]
pub enum Mode {
    /// For reading; the file has to exist.
    ReadOnly,
    /// For writing; the file is created, or emptied where it exists.
    ReadWriteCreate,
}

/// Marks a `WrappedReaderWriter` that writes.
pub struct Writer;

/// Marks a `WrappedReaderWriter` that reads.
pub struct Reader;

/// Why reading a line failed.
#[derive(Debug, Clone, Copy, PartialEq, Eq)]
pub enum StorageLineReaderError {
    /// The card refused the read.
    Read,
    /// The bytes read were not UTF-8.
    Utf8Error,
}

/// Why writing a line failed.
#[derive(Debug, Clone, Copy, PartialEq, Eq)]
pub enum StorageLineWriterError {
    /// The card took no byte at one offset, try after try.
    Write,
}

/// Why the card could not be set up or the file not deleted.
#[derive(Debug, Clone, Copy, PartialEq, Eq)]
pub enum StorageDeleteError {
    /// The volume could not be found.
    GetVolume,
    /// The root directory could not be opened.
    OpenRootDir,
    /// The file could not be deleted.
    DeleteFileInDir,
}

/// Why the file could not be opened.
#[derive(Debug, Clone, Copy, PartialEq, Eq)]
pub enum StorageOpenError {
    /// The card refused to open the file in the mode asked for.
    OpenFileInDir,
}

/// What the caller reports to the writer.
pub enum FileWriteEvent {
    /// This text is to be written.
    Start(String),
    /// The card took this many bytes, or failed.
    Wrote(Option<usize>),
}

/// What the writer asks the caller to do next.
#[derive(Debug, Clone, Copy, PartialEq, Eq)]
pub enum FileWriteStep {
    /// Write the unwritten bytes and report `Wrote`.
    Write,
    /// The text is written, or the write is given up.
    Done(Result<(), StorageLineWriterError>),
}

/// What the caller reports to the reader.
pub enum FileReadEvent {
    /// A line is wanted.
    Start,
    /// These bytes were read, and the file then had this many bytes left.
    Fetched(Vec<u8>, u32),
    /// The card refused the read.
    Failed,
}

/// What the reader answers.
#[derive(Debug, PartialEq, Eq)]
pub enum FileReadStep {
    /// A line: newline included, but for the last one of a file that does
    /// not end in a newline.
    Line(String),
    /// No more lines.
    End,
    /// Read at most this many bytes and report `Fetched` or `Failed`.
    Fetch(usize),
    /// The read failed.
    Failed(StorageLineReaderError),
}

/// What the caller reports when closing the file.
#[derive(Debug, Clone, Copy, PartialEq, Eq, Structural)]
pub enum CloseEvent {
    /// The file is to be closed.
    Start,
    /// The card closed the file, or failed to.
    Closed(bool),
}

/// What closing asks the caller to do next.
#[derive(Debug, Clone, Copy, PartialEq, Eq, Structural)]
pub enum CloseStep {
    /// Close the file and report `Closed`.
    Close,
    /// Closing is over: the file is closed, or was given up.
    Done,
}

/// The bytes still to write once the card took `count` of `unwritten`.
pub open spec fn left_after(unwritten: Seq<u8>, count: usize) -> Seq<u8> {
    if count < unwritten.len() {
        unwritten.skip(count as int)
    } else {
        Seq::<u8>::empty()
    }
}

/// The rule of writing: what is left to write, the retries made at this
/// offset and the step, after the card reported `outcome`. Progress starts
/// the count of retries anew. No progress is one more retry, and ends the
/// write once `WRITE_RETRIES` retries were made.
pub open spec fn write_step(unwritten: Seq<u8>, retries: int, outcome: Option<usize>) -> (
    Seq<u8>,
    int,
    FileWriteStep,
) {
    if unwritten.len() == 0 {
        (unwritten, retries, FileWriteStep::Done(Ok(())))
    } else if outcome is Some && outcome->0 > 0 {
        let left = left_after(unwritten, outcome->0);
        (
            left,
            0,
            if left.len() == 0 {
                FileWriteStep::Done(Ok(()))
            } else {
                FileWriteStep::Write
            },
        )
    } else if retries >= WRITE_RETRIES {
        (unwritten, retries, FileWriteStep::Done(Err(StorageLineWriterError::Write)))
    } else {
        (unwritten, retries + 1, FileWriteStep::Write)
    }
}

/// What is left, the retries and the steps asked for while the card
/// reports `outcomes`, one after the other.
pub open spec fn write_run(unwritten: Seq<u8>, retries: int, outcomes: Seq<Option<usize>>) -> (
    Seq<u8>,
    int,
    Seq<FileWriteStep>,
)
    decreases outcomes.len(),
{
    if outcomes.len() == 0 {
        (unwritten, retries, seq![])
    } else {
        let before = write_run(unwritten, retries, outcomes.drop_last());
        let next = write_step(before.0, before.1, outcomes.last());
        (next.0, next.1, before.2.push(next.2))
    }
}

/// The card took nothing: it failed, or accepted no byte.
pub open spec fn no_progress(outcome: Option<usize>) -> bool {
    outcome is None || outcome->0 == 0
}

/// While a card takes nothing, every outcome up to the ceiling asks for
/// another write, and nothing is lost or counted twice.
pub proof fn lemma_stalled_write_keeps_trying(unwritten: Seq<u8>, outcomes: Seq<Option<usize>>)
    requires
        unwritten.len() > 0,
        outcomes.len() <= WRITE_RETRIES,
        forall|i: int| 0 <= i < outcomes.len() ==> no_progress(#[trigger] outcomes[i]),
    ensures
        write_run(unwritten, 0, outcomes).0 == unwritten,
        write_run(unwritten, 0, outcomes).1 == outcomes.len(),
        write_run(unwritten, 0, outcomes).2.len() == outcomes.len(),
        forall|i: int|
            0 <= i < outcomes.len() ==> #[trigger] write_run(unwritten, 0, outcomes).2[i]
                == FileWriteStep::Write,
    decreases outcomes.len(),
{
    if outcomes.len() > 0 {
        let front = outcomes.drop_last();
        assert forall|i: int| 0 <= i < front.len() implies no_progress(#[trigger] front[i]) by {
            assert(front[i] == outcomes[i]);
        }
        lemma_stalled_write_keeps_trying(unwritten, front);
        assert(no_progress(outcomes[outcomes.len() - 1]));
    }
}

/// A write to a card that never takes a byte fails at the ceiling, not
/// before and not after: the first attempt and each of the `WRITE_RETRIES`
/// retries are made, and the outcome of the last retry ends the write with
/// `Write`.
pub proof fn lemma_stalled_write_fails_at_ceiling(
    unwritten: Seq<u8>,
    outcomes: Seq<Option<usize>>,
)
    requires
        unwritten.len() > 0,
        outcomes.len() == WRITE_RETRIES + 1,
        forall|i: int| 0 <= i < outcomes.len() ==> no_progress(#[trigger] outcomes[i]),
    ensures
        forall|i: int|
            0 <= i < WRITE_RETRIES ==> #[trigger] write_run(unwritten, 0, outcomes).2[i]
                == FileWriteStep::Write,
        write_run(unwritten, 0, outcomes).2[WRITE_RETRIES as int] == FileWriteStep::Done(
            Err(StorageLineWriterError::Write),
        ),
        write_run(unwritten, 0, outcomes).0 == unwritten,
{
    let front = outcomes.drop_last();
    assert forall|i: int| 0 <= i < front.len() implies no_progress(#[trigger] front[i]) by {
        assert(front[i] == outcomes[i]);
    }
    lemma_stalled_write_keeps_trying(unwritten, front);
    assert(no_progress(outcomes[outcomes.len() - 1]));
}

/// Progress is kept: the bytes that the card took, followed by what is
/// left to write, are what was unwritten before, and less is left than
/// before.
pub proof fn lemma_progress_is_kept(unwritten: Seq<u8>, retries: int, count: usize)
    requires
        unwritten.len() > 0,
        count > 0,
    ensures
        ({
            let next = write_step(unwritten, retries, Some(count));
            let taken = if count < unwritten.len() {
                count as int
            } else {
                unwritten.len() as int
            };
            &&& unwritten.take(taken) + next.0 == unwritten
            &&& next.0.len() < unwritten.len()
            &&& next.1 == 0
            &&& !(next.2 == FileWriteStep::Done(Err(StorageLineWriterError::Write)))
        }),
{
    let next = write_step(unwritten, retries, Some(count));
    let taken = if count < unwritten.len() {
        count as int
    } else {
        unwritten.len() as int
    };
    assert(unwritten.take(taken) + next.0 =~= unwritten);
}

/// The rule of closing: the failures counted and the step, after `event`.
/// A failed close is tried again until `CLOSE_ATTEMPTS` attempts have
/// failed; then the file is given up. There is no step that reports an
/// error.
pub open spec fn close_step(failures: int, event: CloseEvent) -> (int, CloseStep) {
    match event {
        CloseEvent::Start => (0, CloseStep::Close),
        CloseEvent::Closed(true) => (failures, CloseStep::Done),
        CloseEvent::Closed(false) => if failures + 1 >= CLOSE_ATTEMPTS {
            (CLOSE_ATTEMPTS as int, CloseStep::Done)
        } else {
            (failures + 1, CloseStep::Close)
        },
    }
}

/// The failures counted after `results` of closing, one after the other,
/// and the last step.
pub open spec fn close_run(results: Seq<bool>) -> (int, CloseStep)
    decreases results.len(),
{
    if results.len() == 0 {
        close_step(0, CloseEvent::Start)
    } else {
        close_step(close_run(results.drop_last()).0, CloseEvent::Closed(results.last()))
    }
}

/// Closing a file on a card that fails every close is over, without an
/// error, exactly when `CLOSE_ATTEMPTS` attempts have failed.
pub proof fn lemma_failing_close_is_given_up(results: Seq<bool>)
    requires
        results.len() <= CLOSE_ATTEMPTS,
        forall|i: int| 0 <= i < results.len() ==> !#[trigger] results[i],
    ensures
        close_run(results).0 == results.len(),
        close_run(results).1 == if results.len() == CLOSE_ATTEMPTS {
            CloseStep::Done
        } else {
            CloseStep::Close
        },
    decreases results.len(),
{
    if results.len() > 0 {
        let front = results.drop_last();
        assert forall|i: int| 0 <= i < front.len() implies !#[trigger] front[i] by {
            assert(front[i] == results[i]);
        }
        lemma_failing_close_is_given_up(front);
        assert(!results[results.len() - 1]);
    }
}

/// With `before` buffered and the file at its end or not, `step` hands out
/// the first line and leaves the rest in `after`; or, where `before` holds
/// no complete line: at the end of the file hands out what is buffered as
/// the last line, or says that no line is left; before the end asks for
/// more of the file.
pub open spec fn line_or_fetch(
    before: Seq<char>,
    after: Seq<char>,
    at_end: bool,
    step: FileReadStep,
) -> bool {
    if has_line(before) {
        &&& step matches FileReadStep::Line(line)
        &&& line@ == first_line(before)
        &&& after == after_first_line(before)
    } else if !at_end {
        &&& step == FileReadStep::Fetch(FILE_CHUNK)
        &&& after == before
    } else if before.len() == 0 {
        &&& step is End
        &&& after == before
    } else {
        &&& step matches FileReadStep::Line(line)
        &&& line@ == before
        &&& after == Seq::<char>::empty()
    }
}

/// One pass through the open file, reading or writing as `T` says.
pub struct WrappedReaderWriter<T> {
    line_buffer: LineBuffer,
    length: u32,
    remaining: u32,
    unwritten: Vec<u8>,
    retries: usize,
    close_failures: usize,
    _phantom: PhantomData<T>,
}

impl<T> WrappedReaderWriter<T> {
    /// The text read from the file and not yet handed out.
    pub closed spec fn buffered(&self) -> Seq<char> {
        self.line_buffer@
    }

    /// The size of the file when it was opened.
    pub closed spec fn length(&self) -> u32 {
        self.length
    }

    /// The bytes of the file not yet read, as the card last reported them.
    pub closed spec fn remaining(&self) -> u32 {
        self.remaining
    }

    /// The bytes of the text being written that the card has not taken.
    pub closed spec fn unwritten(&self) -> Seq<u8> {
        self.unwritten@
    }

    /// The retries made at the current offset.
    pub closed spec fn retries(&self) -> int {
        self.retries as int
    }

    /// The attempts to close the file that failed.
    pub closed spec fn close_failures(&self) -> int {
        self.close_failures as int
    }

    /// A pass that has read, written and buffered nothing, and has
    /// `WRITE_RETRIES` retries ahead of it.
    pub open spec fn is_fresh(&self, length: u32) -> bool {
        &&& self.buffered() == Seq::<char>::empty()
        &&& self.length() == length
        &&& self.remaining() == length
        &&& self.unwritten() == Seq::<u8>::empty()
        &&& self.retries() == 0
        &&& self.close_failures() == 0
    }

    fn open(length: u32) -> (pass: Self)
        ensures
            pass.is_fresh(length),
    {
        WrappedReaderWriter {
            line_buffer: LineBuffer::new(),
            length,
            remaining: length,
            unwritten: Vec::new(),
            retries: 0,
            close_failures: 0,
            _phantom: PhantomData,
        }
    }

    /// Closes the file at the end of the pass: follows `close_step`. It
    /// never reports an error: a file that cannot be closed is given up.
    pub fn close(&mut self, event: CloseEvent) -> (step: CloseStep)
        ensures
            (final(self).close_failures(), step) == close_step(old(self).close_failures(), event),
            final(self).buffered() == old(self).buffered(),
            final(self).length() == old(self).length(),
            final(self).remaining() == old(self).remaining(),
            final(self).unwritten() == old(self).unwritten(),
            final(self).retries() == old(self).retries(),
    {
        match event {
            CloseEvent::Start => {
                self.close_failures = 0;
                CloseStep::Close
            },
            CloseEvent::Closed(true) => CloseStep::Done,
            CloseEvent::Closed(false) => {
                if self.close_failures >= CLOSE_ATTEMPTS - 1 {
                    self.close_failures = CLOSE_ATTEMPTS;
                    CloseStep::Done
                } else {
                    self.close_failures = self.close_failures + 1;
                    CloseStep::Close
                }
            },
        }
    }
}

impl WrappedReaderWriter<Writer> {
    /// The bytes that `write` asks to write.
    pub fn unwritten_bytes(&self) -> (bytes: &Vec<u8>)
        ensures
            bytes@ == self.unwritten(),
    {
        &self.unwritten
    }

    /// Writes one text. `Start` takes the text, and is done at once where it
    /// is empty. After that each outcome follows `write_step`: the bytes
    /// that the card took leave the front of what is unwritten, and a card
    /// that takes nothing is tried again until the retries are used up.
    /// What the card took before a failure stays written.
    pub fn write(&mut self, event: FileWriteEvent) -> (step: FileWriteStep)
        ensures
            final(self).buffered() == old(self).buffered(),
            final(self).length() == old(self).length(),
            final(self).remaining() == old(self).remaining(),
            final(self).close_failures() == old(self).close_failures(),
            match event {
                FileWriteEvent::Start(text) => {
                    &&& final(self).unwritten() == encode_utf8(text@)
                    &&& final(self).retries() == 0
                    &&& step == if text@.len() == 0 {
                        FileWriteStep::Done(Ok(()))
                    } else {
                        FileWriteStep::Write
                    }
                },
                FileWriteEvent::Wrote(outcome) => (
                    final(self).unwritten(),
                    final(self).retries(),
                    step,
                ) == write_step(old(self).unwritten(), old(self).retries(), outcome),
            },
    {
        match event {
            FileWriteEvent::Start(text) => {
                self.unwritten = text.as_str().as_bytes_vec();
                self.retries = 0;
                proof {
                    lemma_encoding_empty(text@);
                }
                if self.unwritten.len() == 0 {
                    FileWriteStep::Done(Ok(()))
                } else {
                    FileWriteStep::Write
                }
            },
            FileWriteEvent::Wrote(outcome) => {
                let left: usize = self.unwritten.len();
                if left == 0 {
                    return FileWriteStep::Done(Ok(()));
                }
                let count: usize = match outcome {
                    Some(count) => count,
                    None => 0,
                };
                if count > 0 {
                    let taken: usize = if count < left {
                        count
                    } else {
                        left
                    };
                    let rest = self.unwritten.split_off(taken);
                    self.unwritten = rest;
                    self.retries = 0;
                    assert(self.unwritten@ =~= left_after(old(self).unwritten@, count));
                    if self.unwritten.len() == 0 {
                        FileWriteStep::Done(Ok(()))
                    } else {
                        FileWriteStep::Write
                    }
                } else if self.retries >= WRITE_RETRIES {
                    FileWriteStep::Done(Err(StorageLineWriterError::Write))
                } else {
                    self.retries = self.retries + 1;
                    FileWriteStep::Write
                }
            },
        }
    }
}

impl WrappedReaderWriter<Reader> {
    /// Reads one line. A line that is already buffered is handed out at
    /// once. Else the file is read in chunks of at most `FILE_CHUNK` bytes
    /// until a line is complete or the file ends; at its end, what is
    /// buffered is the last line, and after that no line is left. Bytes
    /// that are not UTF-8 end the read with `Utf8Error` and leave the buffer
    /// as it was.
    pub fn read(&mut self, event: FileReadEvent) -> (step: FileReadStep)
        ensures
            final(self).length() == old(self).length(),
            final(self).unwritten() == old(self).unwritten(),
            final(self).retries() == old(self).retries(),
            final(self).close_failures() == old(self).close_failures(),
            match event {
                FileReadEvent::Start => {
                    &&& final(self).remaining() == old(self).remaining()
                    &&& line_or_fetch(
                        old(self).buffered(),
                        final(self).buffered(),
                        old(self).remaining() == 0,
                        step,
                    )
                },
                FileReadEvent::Fetched(bytes, left) => {
                    &&& final(self).remaining() == left
                    &&& if valid_utf8(bytes@) {
                        line_or_fetch(
                            old(self).buffered() + decode_utf8(bytes@),
                            final(self).buffered(),
                            left == 0,
                            step,
                        )
                    } else {
                        &&& step == FileReadStep::Failed(StorageLineReaderError::Utf8Error)
                        &&& final(self).buffered() == old(self).buffered()
                    }
                },
                FileReadEvent::Failed => {
                    &&& step == FileReadStep::Failed(StorageLineReaderError::Read)
                    &&& final(self).remaining() == old(self).remaining()
                    &&& final(self).buffered() == old(self).buffered()
                },
            },
    {
        match event {
            FileReadEvent::Start => self.next_line(),
            FileReadEvent::Fetched(bytes, left) => {
                self.remaining = left;
                if self.line_buffer.push_bytes(bytes.as_slice()) {
                    self.next_line()
                } else {
                    FileReadStep::Failed(StorageLineReaderError::Utf8Error)
                }
            },
            FileReadEvent::Failed => FileReadStep::Failed(StorageLineReaderError::Read),
        }
    }

    /// Hands out the next line from the buffer, or says what is needed.
    fn next_line(&mut self) -> (step: FileReadStep)
        ensures
            final(self).length() == old(self).length(),
            final(self).remaining() == old(self).remaining(),
            final(self).unwritten() == old(self).unwritten(),
            final(self).retries() == old(self).retries(),
            final(self).close_failures() == old(self).close_failures(),
            line_or_fetch(
                old(self).buffered(),
                final(self).buffered(),
                old(self).remaining() == 0,
                step,
            ),
    {
        match self.line_buffer.take_line() {
            Some(line) => FileReadStep::Line(line),
            None => {
                if self.remaining != 0 {
                    FileReadStep::Fetch(FILE_CHUNK)
                } else if self.line_buffer.is_empty() {
                    FileReadStep::End
                } else {
                    FileReadStep::Line(self.line_buffer.take_rest())
                }
            },
        }
    }

    /// The size of the file in bytes.
    pub fn file_size_in_bytes(&mut self) -> (size: u32)
        ensures
            size == old(self).length(),
            *final(self) == *old(self),
    {
        self.length
    }

    /// The bytes of the file that are not read yet.
    pub fn remaining_bytes_in_file(&mut self) -> (left: u32)
        ensures
            left == old(self).remaining(),
            *final(self) == *old(self),
    {
        self.remaining
    }
}

/// Text is empty exactly when its encoding is.
proof fn lemma_encoding_empty(text: Seq<char>)
    ensures
        (encode_utf8(text).len() == 0) == (text.len() == 0),
{
    encode_utf8_decode_utf8(text);
    if text.len() == 0 {
        assert(encode_utf8(text).len() == 0);
    } else if encode_utf8(text).len() == 0 {
        assert(decode_utf8(encode_utf8(text)).len() == 0);
    }
}

/// The card, as far as this library decides about it: which file is opened
/// and how, and what an outcome of the card means.
pub struct StorageWrapper;

impl StorageWrapper {
    /// The mode in which the file is opened for a writer.
    pub fn writer_mode(&self) -> (mode: Mode)
        ensures
            mode == Mode::ReadWriteCreate,
    {
        Mode::ReadWriteCreate
    }

    /// The mode in which the file is opened for a reader.
    pub fn reader_mode(&self) -> (mode: Mode)
        ensures
            mode == Mode::ReadOnly,
    {
        Mode::ReadOnly
    }

    /// Starts a pass that writes. `opened` tells whether the card opened
    /// the file in `writer_mode`; the file is empty then.
    pub fn get_writer(&mut self, opened: bool) -> (writer: Result<
        WrappedReaderWriter<Writer>,
        StorageOpenError,
    >)
        ensures
            opened ==> writer is Ok && writer->Ok_0.is_fresh(0),
            !opened ==> writer == Err::<WrappedReaderWriter<Writer>, StorageOpenError>(
                StorageOpenError::OpenFileInDir,
            ),
    {
        if opened {
            Ok(WrappedReaderWriter::open(0))
        } else {
            Err(StorageOpenError::OpenFileInDir)
        }
    }

    /// Starts a pass that reads. `opened` holds the size of the file where
    /// the card opened it in `reader_mode`, and nothing where it did not.
    pub fn get_reader(&mut self, opened: Option<u32>) -> (reader: Result<
        WrappedReaderWriter<Reader>,
        StorageOpenError,
    >)
        ensures
            opened is Some ==> reader is Ok && reader->Ok_0.is_fresh(opened->0),
            opened is None ==> reader == Err::<WrappedReaderWriter<Reader>, StorageOpenError>(
                StorageOpenError::OpenFileInDir,
            ),
    {
        match opened {
            Some(length) => Ok(WrappedReaderWriter::open(length)),
            None => Err(StorageOpenError::OpenFileInDir),
        }
    }

    /// What deleting the file comes to: `deleted` tells whether the card
    /// removed it.
    pub fn delete(&mut self, deleted: bool) -> (result: Result<(), StorageDeleteError>)
        ensures
            result == if deleted {
                Ok::<(), StorageDeleteError>(())
            } else {
                Err::<(), StorageDeleteError>(StorageDeleteError::DeleteFileInDir)
            },
    {
        if deleted {
            Ok(())
        } else {
            Err(StorageDeleteError::DeleteFileInDir)
        }
    }
}

} // verus!
