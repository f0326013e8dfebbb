//! Accumulates text chunks and hands out newline-terminated lines.

use vstd::prelude::*;
use vstd::string::*;
use vstd::utf8::*;

verus! {

/// Position of the first newline in `s`, or `s.len()` where it has none.
pub open spec fn first_newline(s: Seq<char>) -> int
    decreases s.len(),
{
    if s.len() == 0 || s[0] == '\n' {
        0
    } else {
        1 + first_newline(s.skip(1))
    }
}

/// Whether `s` holds at least one complete line.
pub open spec fn has_line(s: Seq<char>) -> bool {
    0 <= first_newline(s) < s.len()
}

/// The first line of `s`, newline included.
pub open spec fn first_line(s: Seq<char>) -> Seq<char> {
    s.take(first_newline(s) + 1)
}

/// What follows the first line of `s`.
pub open spec fn after_first_line(s: Seq<char>) -> Seq<char> {
    s.skip(first_newline(s) + 1)
}

/// The newline-terminated lines of `s`, in order.
pub open spec fn complete_lines(s: Seq<char>) -> Seq<Seq<char>>
    decreases s.len(),
{
    if has_line(s) {
        seq![first_line(s)] + complete_lines(after_first_line(s))
    } else {
        seq![]
    }
}

/// What follows the last newline of `s`: the unterminated tail.
pub open spec fn remainder(s: Seq<char>) -> Seq<char>
    decreases s.len(),
{
    if has_line(s) {
        remainder(after_first_line(s))
    } else {
        s
    }
}

/// The lines `lines` written one after the other.
pub open spec fn joined(lines: Seq<Seq<char>>) -> Seq<char>
    decreases lines.len(),
{
    if lines.len() == 0 {
        seq![]
    } else {
        lines[0] + joined(lines.skip(1))
    }
}

/// A line proper: it ends in a newline and holds no other.
pub open spec fn is_line(l: Seq<char>) -> bool {
    &&& l.len() > 0
    &&& l[l.len() - 1] == '\n'
    &&& forall|j: int| 0 <= j < l.len() - 1 ==> l[j] != '\n'
}

/// `first_newline` is in range, nothing before it is a newline, and it
/// points at a newline unless it is the length.
pub proof fn lemma_first_newline(s: Seq<char>)
    ensures
        0 <= first_newline(s) <= s.len(),
        forall|j: int| 0 <= j < first_newline(s) ==> s[j] != '\n',
        first_newline(s) < s.len() ==> s[first_newline(s)] == '\n',
    decreases s.len(),
{
    if s.len() == 0 || s[0] == '\n' {
    } else {
        let t = s.skip(1);
        lemma_first_newline(t);
        assert forall|j: int| 0 <= j < first_newline(s) implies s[j] != '\n' by {
            if j > 0 {
                assert(s[j] == t[j - 1]);
            }
        }
        if first_newline(s) < s.len() {
            assert(s[first_newline(s)] == t[first_newline(t)]);
        }
    }
}

/// The position that has no newline before it and is a newline or the end
/// is `first_newline`.
pub proof fn lemma_first_newline_is(s: Seq<char>, i: int)
    requires
        0 <= i <= s.len(),
        forall|j: int| 0 <= j < i ==> s[j] != '\n',
        i < s.len() ==> s[i] == '\n',
    ensures
        first_newline(s) == i,
    decreases s.len(),
{
    if s.len() == 0 || s[0] == '\n' {
    } else {
        let t = s.skip(1);
        assert forall|j: int| 0 <= j < i - 1 implies t[j] != '\n' by {
            assert(t[j] == s[j + 1]);
        }
        if i < s.len() {
            assert(t[i - 1] == s[i]);
        }
        lemma_first_newline_is(t, i - 1);
    }
}

/// Appending text after a newline does not move the first newline.
pub proof fn lemma_first_newline_append(s: Seq<char>, t: Seq<char>)
    ensures
        has_line(s) ==> first_newline(s + t) == first_newline(s),
        !has_line(s) ==> first_newline(s + t) == s.len() + first_newline(t),
{
    lemma_first_newline(s);
    lemma_first_newline(t);
    let u = s + t;
    if has_line(s) {
        let i = first_newline(s);
        assert forall|j: int| 0 <= j < i implies u[j] != '\n' by {
            assert(u[j] == s[j]);
        }
        assert(u[i] == s[i]);
        lemma_first_newline_is(u, i);
    } else {
        let i = s.len() + first_newline(t);
        assert forall|j: int| 0 <= j < i implies u[j] != '\n' by {
            if j < s.len() {
                assert(u[j] == s[j]);
            } else {
                assert(u[j] == t[j - s.len()]);
            }
        }
        if i < u.len() {
            assert(u[i] == t[i - s.len()]);
        }
        lemma_first_newline_is(u, i);
    }
}

/// The lines of a text are lines proper, its tail holds no newline, and the
/// lines followed by the tail are the text again.
pub proof fn lemma_lines_rebuild(s: Seq<char>)
    ensures
        forall|k: int| 0 <= k < complete_lines(s).len() ==> is_line(#[trigger] complete_lines(s)[k]),
        !has_line(remainder(s)),
        joined(complete_lines(s)) + remainder(s) == s,
    decreases s.len(),
{
    lemma_first_newline(s);
    if has_line(s) {
        let l = first_line(s);
        let r = after_first_line(s);
        lemma_lines_rebuild(r);
        let ls = complete_lines(s);
        assert(ls.skip(1) =~= complete_lines(r));
        assert(ls[0] == l);
        assert(is_line(l));
        assert forall|k: int| 0 <= k < ls.len() implies is_line(#[trigger] ls[k]) by {
            if k > 0 {
                assert(ls[k] == complete_lines(r)[k - 1]);
            }
        }
        assert(joined(ls) == l + joined(complete_lines(r)));
        assert(joined(ls) + remainder(s) =~= l + (joined(complete_lines(r)) + remainder(r)));
        assert(l + r =~= s);
    } else {
        assert(complete_lines(s) =~= seq![]);
        assert(joined(complete_lines(s)) + remainder(s) =~= s);
    }
}

/// Text that arrives after `s` adds to the lines of `s` the lines of the
/// tail of `s` followed by the new text: where the chunks are cut does not
/// matter.
pub proof fn lemma_lines_append(s: Seq<char>, t: Seq<char>)
    ensures
        complete_lines(s + t) == complete_lines(s) + complete_lines(remainder(s) + t),
        remainder(s + t) == remainder(remainder(s) + t),
    decreases s.len(),
{
    lemma_first_newline(s);
    lemma_first_newline_append(s, t);
    if has_line(s) {
        let r = after_first_line(s);
        assert(first_line(s + t) =~= first_line(s));
        assert(after_first_line(s + t) =~= r + t);
        lemma_lines_append(r, t);
        assert(complete_lines(s + t) =~= complete_lines(s) + complete_lines(remainder(s) + t));
    } else {
        assert(complete_lines(s) + complete_lines(s + t) =~= complete_lines(s + t));
    }
}

/// The chunks `chunks` written one after the other.
pub open spec fn concat_chunks(chunks: Seq<Seq<char>>) -> Seq<char>
    decreases chunks.len(),
{
    if chunks.len() == 0 {
        seq![]
    } else {
        concat_chunks(chunks.drop_last()) + chunks.last()
    }
}

/// The lines handed out while `chunks` arrive one by one at a buffer that
/// holds `pending`, every complete line being taken after each chunk.
pub open spec fn lines_delivered(pending: Seq<char>, chunks: Seq<Seq<char>>) -> Seq<Seq<char>>
    decreases chunks.len(),
{
    if chunks.len() == 0 {
        complete_lines(pending)
    } else {
        lines_delivered(pending, chunks.drop_last()) + complete_lines(
            pending_after(pending, chunks.drop_last()) + chunks.last(),
        )
    }
}

/// What stays buffered after `chunks` arrived and every complete line was
/// taken.
pub open spec fn pending_after(pending: Seq<char>, chunks: Seq<Seq<char>>) -> Seq<char>
    decreases chunks.len(),
{
    if chunks.len() == 0 {
        remainder(pending)
    } else {
        remainder(pending_after(pending, chunks.drop_last()) + chunks.last())
    }
}

/// Line splitting does not depend on how the text is cut into chunks: the
/// lines handed out, in order, are the newline-terminated segments of the
/// whole text, and what stays buffered is its unterminated tail.
pub proof fn lemma_chunked_delivery(chunks: Seq<Seq<char>>)
    ensures
        lines_delivered(seq![], chunks) == complete_lines(concat_chunks(chunks)),
        pending_after(seq![], chunks) == remainder(concat_chunks(chunks)),
    decreases chunks.len(),
{
    if chunks.len() == 0 {
    } else {
        let front = chunks.drop_last();
        lemma_chunked_delivery(front);
        lemma_lines_append(concat_chunks(front), chunks.last());
    }
}

/// A text made of lines proper and a tail without a newline splits into
/// those lines, in order, and that tail.
pub proof fn lemma_lines_of_segments(segments: Seq<Seq<char>>, tail: Seq<char>)
    requires
        forall|k: int| 0 <= k < segments.len() ==> is_line(#[trigger] segments[k]),
        !has_line(tail),
    ensures
        complete_lines(joined(segments) + tail) == segments,
        remainder(joined(segments) + tail) == tail,
    decreases segments.len(),
{
    let s = joined(segments) + tail;
    if segments.len() == 0 {
        assert(s =~= tail);
        assert(complete_lines(tail) =~= segments);
    } else {
        let l = segments[0];
        let rest = segments.skip(1);
        let t = joined(rest) + tail;
        assert(is_line(l));
        assert(s =~= l + t);
        assert forall|j: int| 0 <= j < l.len() - 1 implies s[j] != '\n' by {
            assert(s[j] == l[j]);
        }
        assert(s[l.len() - 1] == l[l.len() - 1]);
        lemma_first_newline_is(s, l.len() - 1);
        assert(first_line(s) =~= l);
        assert(after_first_line(s) =~= t);
        assert forall|k: int| 0 <= k < rest.len() implies is_line(#[trigger] rest[k]) by {
            assert(rest[k] == segments[k + 1]);
        }
        lemma_lines_of_segments(rest, tail);
        assert(complete_lines(s) =~= segments);
    }
}

/// The lines of a stream that has ended: its complete lines, and its
/// unterminated tail as one more line where there is one.
pub open spec fn lines_at_end(s: Seq<char>) -> Seq<Seq<char>> {
    if remainder(s).len() == 0 {
        complete_lines(s)
    } else {
        complete_lines(s).push(remainder(s))
    }
}

/// How the lines of an ended stream come out one by one: the first
/// complete line and then the lines of what follows it; or, where no line
/// is complete, the whole text as the last line, unless it is empty.
pub proof fn lemma_lines_at_end_unfold(s: Seq<char>)
    ensures
        lines_at_end(s) == if has_line(s) {
            seq![first_line(s)] + lines_at_end(after_first_line(s))
        } else if s.len() == 0 {
            seq![]
        } else {
            seq![s]
        },
{
    if has_line(s) {
        let r = after_first_line(s);
        assert(lines_at_end(s) =~= seq![first_line(s)] + lines_at_end(r));
    } else if s.len() == 0 {
        assert(lines_at_end(s) =~= seq![]);
    } else {
        assert(lines_at_end(s) =~= seq![s]);
    }
}

/// Line splitting is exact: where the chunks that arrive make up, one after
/// the other, `segments.len()` newline-terminated segments and a tail
/// without a newline, the lines handed out are those segments, in order,
/// and the tail stays buffered. At the end of a stream the tail is one more
/// line, unless it is empty.
pub proof fn lemma_line_splitting(
    chunks: Seq<Seq<char>>,
    segments: Seq<Seq<char>>,
    tail: Seq<char>,
)
    requires
        concat_chunks(chunks) == joined(segments) + tail,
        forall|k: int| 0 <= k < segments.len() ==> is_line(#[trigger] segments[k]),
        !has_line(tail),
    ensures
        lines_delivered(seq![], chunks) == segments,
        pending_after(seq![], chunks) == tail,
        lines_at_end(concat_chunks(chunks)) == if tail.len() == 0 {
            segments
        } else {
            segments.push(tail)
        },
{
    lemma_chunked_delivery(chunks);
    lemma_lines_of_segments(segments, tail);
}

/// The account of a buffer at any moment: the lines taken from it so far,
/// followed by the complete lines that `pending` still holds, are the
/// complete lines of all the text `delivered` to it, and the unterminated
/// tails agree.
pub open spec fn accounts_for(
    delivered: Seq<char>,
    taken: Seq<Seq<char>>,
    pending: Seq<char>,
) -> bool {
    &&& complete_lines(delivered) == taken + complete_lines(pending)
    &&& remainder(delivered) == remainder(pending)
}

/// A chunk that arrives keeps the account, whether or not lines were left
/// in the buffer.
pub proof fn lemma_account_after_push(
    delivered: Seq<char>,
    taken: Seq<Seq<char>>,
    pending: Seq<char>,
    chunk: Seq<char>,
)
    requires
        accounts_for(delivered, taken, pending),
    ensures
        accounts_for(delivered + chunk, taken, pending + chunk),
{
    lemma_lines_append(delivered, chunk);
    lemma_lines_append(pending, chunk);
    assert(complete_lines(delivered + chunk) =~= taken + complete_lines(pending + chunk));
}

/// Taking the first line keeps the account.
pub proof fn lemma_account_after_take(
    delivered: Seq<char>,
    taken: Seq<Seq<char>>,
    pending: Seq<char>,
)
    requires
        accounts_for(delivered, taken, pending),
        has_line(pending),
    ensures
        accounts_for(delivered, taken.push(first_line(pending)), after_first_line(pending)),
{
    assert(complete_lines(delivered) =~= taken.push(first_line(pending)) + complete_lines(
        after_first_line(pending),
    ));
}

/// Once no complete line is left in the buffer, the lines taken are exactly
/// the complete lines of the text delivered, and the buffer holds its tail.
pub proof fn lemma_account_when_drained(
    delivered: Seq<char>,
    taken: Seq<Seq<char>>,
    pending: Seq<char>,
)
    requires
        accounts_for(delivered, taken, pending),
        !has_line(pending),
    ensures
        taken == complete_lines(delivered),
        pending == remainder(delivered),
{
    assert(complete_lines(delivered) =~= taken);
}

/// Converts bytes to text with `core::str::from_utf8`: `Some` exactly for
/// well-formed UTF-8, and then the characters that the bytes encode.
#[verifier::external_body]
fn decode_text(bytes: &[u8]) -> (text: Option<String>)
    ensures
        text is Some <==> valid_utf8(bytes@),
        text is Some ==> text->0@ == decode_utf8(bytes@),
{
    match core::str::from_utf8(bytes) {
        Ok(s) => Some(String::from(s)),
        Err(_) => None,
    }
}

/// Finds the first newline of `text`.
pub fn find_newline(text: &str) -> (found: Option<usize>)
    ensures
        found is Some <==> has_line(text@),
        found is Some ==> found->0 == first_newline(text@),
{
    let n: usize = text.unicode_len();
    let mut i: usize = 0;
    while i < n
        invariant
            n == text@.len(),
            i <= n,
            forall|j: int| 0 <= j < i ==> text@[j] != '\n',
        decreases n - i,
    {
        if text.get_char(i) == '\n' {
            proof {
                lemma_first_newline_is(text@, i as int);
            }
            return Some(i);
        }
        i += 1;
    }
    proof {
        lemma_first_newline_is(text@, n as int);
    }
    None
}

/// Text received and not yet handed out as lines.
pub struct LineBuffer {
    pending: String,
}

impl View for LineBuffer {
    type V = Seq<char>;

    closed spec fn view(&self) -> Seq<char> {
        self.pending@
    }
}

impl LineBuffer {
    /// An empty buffer.
    pub fn new() -> (buffer: Self)
        ensures
            buffer@ == Seq::<char>::empty(),
    {
        LineBuffer { pending: String::new() }
    }

    /// Whether nothing is buffered.
    pub fn is_empty(&self) -> (empty: bool)
        ensures
            empty == (self@.len() == 0),
    {
        self.pending.as_str().is_empty()
    }

    /// Appends a chunk of text.
    pub fn push(&mut self, text: &str)
        ensures
            final(self)@ == old(self)@ + text@,
    {
        self.pending.append(text);
    }

    /// Decodes a chunk of bytes and appends it. Bytes that are not UTF-8 are
    /// refused and leave the buffer as it was.
    pub fn push_bytes(&mut self, bytes: &[u8]) -> (accepted: bool)
        ensures
            accepted == valid_utf8(bytes@),
            accepted ==> final(self)@ == old(self)@ + decode_utf8(bytes@),
            !accepted ==> final(self)@ == old(self)@,
    {
        match decode_text(bytes) {
            Some(text) => {
                self.pending.append(text.as_str());
                true
            },
            None => false,
        }
    }

    /// Takes the first complete line, newline included, where there is one.
    pub fn take_line(&mut self) -> (line: Option<String>)
        ensures
            line is Some <==> has_line(old(self)@),
            line is Some ==> line->0@ == first_line(old(self)@) && final(self)@ == after_first_line(
                old(self)@,
            ),
            line is None ==> final(self)@ == old(self)@,
    {
        match find_newline(self.pending.as_str()) {
            Some(i) => {
                proof {
                    lemma_first_newline(self.pending@);
                }
                let n: usize = self.pending.as_str().unicode_len();
                let line = self.pending.as_str().substring_char(0, i + 1).to_owned();
                let rest = self.pending.as_str().substring_char(i + 1, n).to_owned();
                self.pending = rest;
                Some(line)
            },
            None => None,
        }
    }

    /// Takes everything that is buffered, as the unterminated last line of a
    /// stream that has ended.
    pub fn take_rest(&mut self) -> (rest: String)
        ensures
            rest@ == old(self)@,
            final(self)@ == Seq::<char>::empty(),
    {
        let mut rest = String::new();
        std::mem::swap(&mut self.pending, &mut rest);
        rest
    }

    /// Drops everything that is buffered.
    pub fn clear(&mut self)
        ensures
            final(self)@ == Seq::<char>::empty(),
    {
        self.pending = String::new();
    }
}

} // verus!
