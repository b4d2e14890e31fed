//! Accumulation of chunks of bytes into lines.

use crate::decode::{decode, lemma_last_byte_and_last_char};
use crate::text::{extract_line, last_line, CARRIAGE_RETURN, LINE_FEED};
use vstd::prelude::*;
use vstd::string::*;
use vstd::utf8::*;

verus! {

/// The byte of the line feed.
pub const LINE_FEED_BYTE: u8 = 0x0a;

/// The byte of the carriage return.
pub const CARRIAGE_RETURN_BYTE: u8 = 0x0d;

/// A chunk that was not well-formed UTF-8.
#[derive(Clone, Copy, Debug, PartialEq, Eq)]
pub struct EncodingError;

/// True when the last byte of `chunk` is a line feed or a carriage return.
pub open spec fn ends_line(chunk: Seq<u8>) -> bool {
    chunk.len() > 0 && (chunk.last() == LINE_FEED_BYTE || chunk.last() == CARRIAGE_RETURN_BYTE)
}

/// What the buffer holds once `chunk` was fed to an accumulator that held
/// `buffer`: a chunk that is not text leaves it as it was, one that ends a
/// line empties it, any other is appended.
pub open spec fn buffer_after(buffer: Seq<char>, chunk: Seq<u8>) -> Seq<char> {
    if !valid_utf8(chunk) {
        buffer
    } else if ends_line(chunk) {
        Seq::empty()
    } else {
        buffer + decode_utf8(chunk)
    }
}

/// The line that feeding `chunk` completes, if it completes one: the last
/// line of all that was buffered, the chunk included.
pub open spec fn line_after(buffer: Seq<char>, chunk: Seq<u8>) -> Option<Seq<char>> {
    if valid_utf8(chunk) && ends_line(chunk) {
        Some(last_line(buffer + decode_utf8(chunk)))
    } else {
        None
    }
}

/// True of a buffer that does not end in a line feed or a carriage return;
/// the empty buffer is one.
pub open spec fn open_ended(buffer: Seq<char>) -> bool {
    buffer.len() > 0 ==> buffer.last() != LINE_FEED && buffer.last() != CARRIAGE_RETURN
}

/// What is buffered never ends in a terminator: a buffer that does not end
/// in one does not end in one after any chunk either.
pub proof fn lemma_buffer_stays_open_ended(buffer: Seq<char>, chunk: Seq<u8>)
    requires
        open_ended(buffer),
    ensures
        open_ended(buffer_after(buffer, chunk)),
{
    if valid_utf8(chunk) && !ends_line(chunk) {
        if chunk.len() == 0 {
            assert(buffer + decode_utf8(chunk) == buffer);
        } else {
            lemma_last_byte_and_last_char(chunk);
            assert((buffer + decode_utf8(chunk)).last() == decode_utf8(chunk).last());
        }
    }
}

/// Tells whether the last byte of `chunk` ends a line.
pub fn is_line_end(chunk: &[u8]) -> (yes: bool)
    ensures
        yes == ends_line(chunk@),
{
    let len = chunk.len();
    len > 0 && (chunk[len - 1] == LINE_FEED_BYTE || chunk[len - 1] == CARRIAGE_RETURN_BYTE)
}

/// Collects the text that arrived since the last completed line. What it
/// holds never ends in a line feed or a carriage return.
pub struct LineAccumulator {
    buffer: String,
}

impl View for LineAccumulator {
    type V = Seq<char>;

    /// The text that is buffered.
    closed spec fn view(&self) -> Seq<char> {
        self.buffer@
    }
}

impl LineAccumulator {
    /// What every accumulator keeps to: what it holds does not end in a
    /// terminator.
    #[verifier::type_invariant]
    pub open spec fn unterminated(&self) -> bool {
        open_ended(self@)
    }

    /// An accumulator that holds nothing.
    pub fn new() -> (accumulator: LineAccumulator)
        ensures
            accumulator@ == Seq::<char>::empty(),
    {
        LineAccumulator { buffer: String::new() }
    }

    /// The text that is buffered, which does not end in a terminator.
    pub fn buffered(&self) -> (text: &str)
        ensures
            text@ == self@,
            open_ended(self@),
    {
        proof {
            use_type_invariant(self);
        }
        self.buffer.as_str()
    }

    /// Takes in one chunk. A chunk that is not well-formed UTF-8 is refused
    /// and changes nothing. A chunk whose last byte is a line feed or a
    /// carriage return completes a line: the line is taken from all that is
    /// buffered and the buffer is emptied. Any other chunk is kept for later.
    pub fn feed(&mut self, chunk: &[u8]) -> (fed: Result<Option<String>, EncodingError>)
        ensures
            fed is Err <==> !valid_utf8(chunk@),
            final(self)@ == buffer_after(old(self)@, chunk@),
            open_ended(final(self)@),
            fed matches Ok(line) ==> (match line {
                Some(text) => line_after(old(self)@, chunk@) == Some(text@),
                None => line_after(old(self)@, chunk@) is None,
            }),
    {
        proof {
            use_type_invariant(&*self);
            lemma_buffer_stays_open_ended(self@, chunk@);
        }
        let text = match decode(chunk) {
            Some(text) => text,
            None => {
                return Err(EncodingError);
            },
        };
        let mut whole = String::new();
        core::mem::swap(&mut self.buffer, &mut whole);
        whole.append(text);
        if is_line_end(chunk) {
            Ok(Some(extract_line(whole.as_str())))
        } else {
            self.buffer = whole;
            Ok(None)
        }
    }
}

} // verus!
