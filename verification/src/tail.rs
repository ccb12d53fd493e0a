//! Following a transcript that is still being written.
//!
//! The tailer only consumes bytes up to the last complete newline, so
//! half-written JSON lines never reach the parser.

use vstd::prelude::*;

use crate::text::{lemma_one_piece, lemma_pieces_not_empty, lemma_pieces_step, only, pieces};
use crate::transcript::{
    event_views, line_events, lines_events, parse_line, EventView, TranscriptEvent,
};

verus! {

/// The text for bytes that should be UTF-8, with replacement characters for
/// what is not.
pub uninterp spec fn lossy_text(bytes: Seq<u8>) -> Seq<char>;

/// Decodes bytes with `String::from_utf8_lossy`. Valid UTF-8 is decoded as it
/// stands; of the rest nothing is claimed but that the same bytes give the
/// same text.
#[verifier::external_body]
pub(crate) fn decode_lossy(bytes: &[u8]) -> (text: String)
    ensures
        text@ == lossy_text(bytes@),
        vstd::utf8::valid_utf8(bytes@) ==> text@ == vstd::utf8::decode_utf8(bytes@),
{
    String::from_utf8_lossy(bytes).into_owned()
}

/// How many bytes at the front of `bytes` make complete lines.
pub open spec fn complete_length(bytes: Seq<u8>) -> nat
    decreases bytes.len(),
{
    if bytes.len() == 0 {
        0
    } else if bytes.last() == 10 {
        bytes.len()
    } else {
        complete_length(bytes.drop_last())
    }
}

/// The line that the bytes before a newline hold: a carriage return at their
/// end belongs to the line ending.
pub open spec fn decoded_line(line: Seq<u8>) -> Seq<char> {
    if line.len() > 0 && line.last() == 13 {
        lossy_text(line.drop_last())
    } else {
        lossy_text(line)
    }
}

/// The complete lines of `bytes`.
pub open spec fn complete_lines(bytes: Seq<u8>) -> Seq<Seq<char>> {
    pieces(bytes, only(10u8)).drop_last().map_values(|line: Seq<u8>| decoded_line(line))
}

/// The events of the complete lines of `bytes`.
pub open spec fn chunk_events(bytes: Seq<u8>) -> Seq<EventView> {
    lines_events(complete_lines(bytes))
}

/// The byte at which reading resumes in a file that is `len` bytes long: behind
/// what was consumed, or at the beginning of a file that is shorter than that.
pub open spec fn resumes_at(consumed: nat, len: int) -> nat {
    if len < consumed {
        0
    } else {
        consumed
    }
}

/// What is to be read of a file that is `len` bytes long: from which byte on, and
/// how many bytes.
pub open spec fn to_read(from: nat, len: u64) -> Option<(u64, u64)> {
    if len == from {
        None
    } else {
        Some((from as u64, (len - from) as u64))
    }
}

/// Incremental, read-only reader for an append-only JSONL file.
pub struct Tailer {
    path: String,
    offset: u64,
}

impl Tailer {
    /// The file that is followed.
    pub closed spec fn file(self) -> Seq<char> {
        self.path@
    }

    /// How many bytes of the file have been consumed.
    pub closed spec fn consumed(self) -> nat {
        self.offset as nat
    }

    /// A tailer at the beginning of the file.
    pub fn new(path: String) -> (tailer: Tailer)
        ensures
            tailer.file() == path@,
            tailer.consumed() == 0,
    {
        Tailer { path, offset: 0 }
    }

    /// The file that is followed.
    pub fn path(&self) -> (path: &str)
        ensures
            path@ == self.file(),
    {
        self.path.as_str()
    }

    /// Decides what to read of a file that is `len` bytes long: from which
    /// byte on, and how many bytes. A file shorter than what was consumed was
    /// truncated or replaced, so reading starts over. Nothing is to be read
    /// where there is nothing new.
    pub fn begin_poll(&mut self, len: u64) -> (range: Option<(u64, u64)>)
        ensures
            final(self).file() == old(self).file(),
            final(self).consumed() == resumes_at(old(self).consumed(), len as int),
            range == to_read(final(self).consumed(), len),
    {
        if len < self.offset {
            self.offset = 0;
        }
        if len == self.offset {
            None
        } else {
            Some((self.offset, len - self.offset))
        }
    }

    /// Takes the bytes that were read behind what was consumed before, and
    /// parses the complete lines. What follows the last newline is a line
    /// still being written: it is held back until it is complete.
    pub fn finish_poll(&mut self, bytes: &Vec<u8>) -> (events: Vec<TranscriptEvent>)
        requires
            old(self).consumed() + bytes@.len() <= u64::MAX,
        ensures
            final(self).file() == old(self).file(),
            final(self).consumed() == old(self).consumed() + complete_length(bytes@),
            event_views(events@) == chunk_events(bytes@),
    {
        let mut events: Vec<TranscriptEvent> = Vec::new();
        let mut line: Vec<u8> = Vec::new();
        let mut complete: usize = 0;
        let ghost cut = only(10u8);
        assert(pieces(bytes@.take(0), cut) == seq![Seq::<u8>::empty()]);
        assert(complete_lines(bytes@.take(0)) == Seq::<Seq<char>>::empty());
        assert(event_views(events@) == chunk_events(bytes@.take(0)));
        for i in 0..bytes.len()
            invariant
                cut == only(10u8),
                pieces(bytes@.take(i as int), cut).len() > 0,
                line@ == pieces(bytes@.take(i as int), cut).last(),
                event_views(events@) == chunk_events(bytes@.take(i as int)),
                complete == complete_length(bytes@.take(i as int)),
                complete <= i,
        {
            let ghost done = bytes@.take(i as int);
            let ghost more = bytes@.take(i + 1);
            let ghost parts = pieces(done, cut);
            proof {
                lemma_pieces_step(bytes@, cut, i as int);
                assert(more.drop_last() == done);
                assert(parts.push(Seq::<u8>::empty()).drop_last() == parts);
                assert(parts.drop_last().push(parts.last().push(bytes@[i as int])).drop_last()
                    == parts.drop_last());
            }
            let byte: u8 = bytes[i];
            if byte == 10 {
                let ghost whole = line@;
                let ghost earlier = event_views(events@);
                if line.len() > 0 && line[line.len() - 1] == 13 {
                    line.pop();
                    assert(line@ == whole.drop_last());
                }
                let text = decode_lossy(line.as_slice());
                assert(text@ == decoded_line(whole));
                let mut added = parse_line(text.as_str());
                let ghost views = event_views(added@);
                events.append(&mut added);
                line = Vec::new();
                complete = i + 1;
                proof {
                    assert(event_views(events@) == earlier + views);
                    assert(complete_lines(more) == complete_lines(done).push(decoded_line(whole)));
                    assert(complete_lines(more).drop_last() == complete_lines(done));
                }
            } else {
                line.push(byte);
                assert(complete_lines(more) == complete_lines(done));
            }
        }
        assert(bytes@.take(bytes@.len() as int) == bytes@);
        self.offset = self.offset + complete as u64;
        events
    }
}

// ---- laws ---------------------------------------------------------------------

/// True for bytes that end where a line ends.
pub open spec fn at_line_end(bytes: Seq<u8>) -> bool {
    bytes.len() == 0 || bytes.last() == 10
}

/// What is consumed ends in a newline, and no newline is left behind it.
pub proof fn consumed_bytes_are_complete_lines(bytes: Seq<u8>)
    ensures
        complete_length(bytes) <= bytes.len(),
        at_line_end(bytes.take(complete_length(bytes) as int)),
        forall|i: int| complete_length(bytes) <= i < bytes.len() ==> bytes[i] != 10,
    decreases bytes.len(),
{
    if bytes.len() > 0 && bytes.last() != 10 {
        consumed_bytes_are_complete_lines(bytes.drop_last());
        assert(bytes.take(complete_length(bytes) as int) == bytes.drop_last().take(
            complete_length(bytes) as int,
        ));
        assert forall|i: int| complete_length(bytes) <= i < bytes.len() implies bytes[i] != 10 by {
            if i < bytes.len() - 1 {
                assert(bytes.drop_last()[i] == bytes[i]);
            }
        }
    } else {
        assert(bytes.take(bytes.len() as int) == bytes);
    }
}

proof fn lemma_pieces_after_line_end(front: Seq<u8>, back: Seq<u8>)
    requires
        at_line_end(front),
    ensures
        pieces(front + back, only(10u8)) == pieces(front, only(10u8)).drop_last() + pieces(
            back,
            only(10u8),
        ),
    decreases back.len(),
{
    let cut = only(10u8);
    lemma_pieces_not_empty(front, cut);
    lemma_pieces_not_empty(back, cut);
    if back.len() == 0 {
        assert(front + back == front);
        assert(pieces(front, cut).last() == Seq::<u8>::empty());
        assert(pieces(front, cut) == pieces(front, cut).drop_last().push(Seq::<u8>::empty()));
    } else {
        let shorter = back.drop_last();
        lemma_pieces_not_empty(shorter, cut);
        lemma_pieces_after_line_end(front, shorter);
        assert((front + back).drop_last() == front + shorter);
        assert((front + back).last() == back.last());
        let left = pieces(front, cut).drop_last();
        let right = pieces(shorter, cut);
        if cut(back.last()) {
            assert((left + right).push(Seq::<u8>::empty()) == left + right.push(
                Seq::<u8>::empty(),
            ));
        } else {
            let grown = right.last().push(back.last());
            assert((left + right).last() == right.last());
            assert((left + right).drop_last().push(grown) == left + right.drop_last().push(grown));
        }
    }
}

proof fn lemma_complete_length_after_line_end(front: Seq<u8>, back: Seq<u8>)
    requires
        at_line_end(front),
    ensures
        complete_length(front + back) == front.len() + complete_length(back),
    decreases back.len(),
{
    if back.len() == 0 {
        assert(front + back == front);
    } else {
        assert((front + back).last() == back.last());
        if back.last() != 10 {
            assert((front + back).drop_last() == front + back.drop_last());
            lemma_complete_length_after_line_end(front, back.drop_last());
        }
    }
}

pub proof fn lemma_lines_events_add(a: Seq<Seq<char>>, b: Seq<Seq<char>>)
    ensures
        lines_events(a + b) == lines_events(a) + lines_events(b),
    decreases b.len(),
{
    if b.len() == 0 {
        assert(a + b == a);
        assert(lines_events(a) + lines_events(b) == lines_events(a));
    } else {
        assert((a + b).drop_last() == a + b.drop_last());
        assert((a + b).last() == b.last());
        lemma_lines_events_add(a, b.drop_last());
        assert(lines_events(a) + lines_events(b) == lines_events(a) + lines_events(b.drop_last())
            + line_events(b.last()));
    }
}

/// Behind the end of a line, a chunk of bytes has the events that it has by
/// itself.
pub proof fn chunks_add_at_line_ends(front: Seq<u8>, back: Seq<u8>)
    requires
        at_line_end(front),
    ensures
        chunk_events(front + back) == chunk_events(front) + chunk_events(back),
        complete_length(front + back) == front.len() + complete_length(back),
{
    let cut = only(10u8);
    lemma_pieces_not_empty(front, cut);
    lemma_pieces_not_empty(back, cut);
    lemma_pieces_after_line_end(front, back);
    lemma_complete_length_after_line_end(front, back);
    assert((pieces(front, cut).drop_last() + pieces(back, cut)).drop_last() == pieces(
        front,
        cut,
    ).drop_last() + pieces(back, cut).drop_last());
    assert(complete_lines(front + back) == complete_lines(front) + complete_lines(back));
    lemma_lines_events_add(complete_lines(front), complete_lines(back));
}

/// What follows the last newline has no events yet.
pub proof fn held_back_bytes_have_no_events(bytes: Seq<u8>)
    requires
        forall|i: int| 0 <= i < bytes.len() ==> bytes[i] != 10,
    ensures
        chunk_events(bytes) == Seq::<EventView>::empty(),
        complete_length(bytes) == 0,
{
    lemma_one_piece(bytes, only(10u8));
    assert(complete_lines(bytes) == Seq::<Seq<char>>::empty());
    consumed_bytes_are_complete_lines(bytes);
    if complete_length(bytes) > 0 {
        let consumed = bytes.take(complete_length(bytes) as int);
        assert(consumed.last() == bytes[complete_length(bytes) - 1]);
    }
}

/// Following a file while it grows gives the same events, and consumes the
/// same bytes, as reading it once: `first` is what a poll finds, `more` what is
/// appended before the next one, which reads on behind what was consumed.
pub proof fn polling_in_steps_is_polling_once(first: Seq<u8>, more: Seq<u8>)
    ensures
        ({
            let kept = first.skip(complete_length(first) as int);
            &&& chunk_events(first) + chunk_events(kept + more) == chunk_events(first + more)
            &&& complete_length(first) + complete_length(kept + more) == complete_length(
                first + more,
            )
        }),
{
    let n = complete_length(first) as int;
    consumed_bytes_are_complete_lines(first);
    let front = first.take(n);
    let kept = first.skip(n);
    assert forall|i: int| 0 <= i < kept.len() implies kept[i] != 10 by {
        assert(kept[i] == first[n + i]);
    }
    held_back_bytes_have_no_events(kept);
    assert(front + kept == first);
    assert(first + more == front + (kept + more));
    chunks_add_at_line_ends(front, kept);
    chunks_add_at_line_ends(front, kept + more);
    assert(chunk_events(front) + chunk_events(kept) == chunk_events(front));
}

/// A line counts once its line feed is there, with all that stands before it; a
/// carriage return in front of the line feed belongs to the line ending.
pub proof fn lines_count_with_their_line_feed(line: Seq<u8>)
    requires
        forall|i: int| 0 <= i < line.len() ==> line[i] != 10,
    ensures
        complete_length(line.push(10)) == line.len() + 1,
        line.len() == 0 || line.last() != 13 ==> chunk_events(line.push(10)) == line_events(
            lossy_text(line),
        ),
        chunk_events(line.push(13).push(10)) == line_events(lossy_text(line)),
{
    lemma_line_alone(line);
    let ended = line.push(13u8);
    assert forall|i: int| 0 <= i < ended.len() implies ended[i] != 10 by {
        if i < line.len() {
            assert(ended[i] == line[i]);
        }
    }
    lemma_line_alone(ended);
    assert(ended.drop_last() == line);
    assert(ended.last() == 13);
}

proof fn lemma_line_alone(line: Seq<u8>)
    requires
        forall|i: int| 0 <= i < line.len() ==> line[i] != 10,
    ensures
        chunk_events(line.push(10)) == line_events(decoded_line(line)),
{
    let cut = only(10u8);
    lemma_one_piece(line, cut);
    let bytes = line.push(10u8);
    assert(bytes.drop_last() == line);
    assert(cut(10u8));
    assert(pieces(bytes, cut) == seq![line].push(Seq::<u8>::empty()));
    assert(pieces(bytes, cut).drop_last() == seq![line]);
    assert(complete_lines(bytes) == seq![decoded_line(line)]);
    assert(seq![decoded_line(line)].drop_last() == Seq::<Seq<char>>::empty());
    assert(lines_events(Seq::empty()) + line_events(decoded_line(line)) == line_events(
        decoded_line(line),
    ));
}

/// A file that grew is read on behind what was consumed, to its end; one that did
/// not is left alone, and one that shrank is read from its beginning.
pub proof fn files_are_read_on(consumed: u64, len: u64)
    ensures
        consumed < len ==> {
            &&& resumes_at(consumed as nat, len as int) == consumed
            &&& to_read(consumed as nat, len) == Some((consumed, (len - consumed) as u64))
        },
        consumed == len ==> {
            &&& resumes_at(consumed as nat, len as int) == consumed
            &&& to_read(consumed as nat, len) is None
        },
        consumed > len ==> resumes_at(consumed as nat, len as int) == 0,
        len > 0 ==> to_read(0, len) == Some((0u64, len)),
        to_read(0, 0) is None,
{
}

} // verus!
