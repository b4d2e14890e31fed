//! What a stream of chunks asks for, however the stream is cut into chunks.

use crate::command::{clamp, command_value, digit, digits, number_or_zero};
use crate::line::{buffer_after, ends_line, line_after};
use crate::text::{
    blank, last_line, lemma_last_segment_is_suffix, lemma_trimmed_is_inner_range, trimmed,
    trimmed_end, trimmed_start, whitespace, CARRIAGE_RETURN, LINE_FEED,
};
use vstd::prelude::*;
use vstd::utf8::*;

verus! {

/// The duty values of the commands that `chunks` complete, in order, when
/// they are fed one after the other to an accumulator that holds `buffer`.
pub open spec fn commands_of(buffer: Seq<char>, chunks: Seq<Seq<u8>>, max_duty: u32) -> Seq<u32>
    decreases chunks.len(),
{
    if chunks.len() == 0 {
        Seq::empty()
    } else {
        let later = commands_of(
            buffer_after(buffer, chunks.first()),
            chunks.drop_first(),
            max_duty,
        );
        match line_after(buffer, chunks.first()) {
            Some(line) => match command_value(line, max_duty) {
                Some(value) => seq![value] + later,
                None => later,
            },
            None => later,
        }
    }
}

/// However the bytes of a run of digits and its terminator are cut into
/// chunks, feeding the chunks to an empty accumulator completes one command
/// and no other: the number that the digits write, or 0 where it does not
/// fit 32 bits, cut down to the ceiling.
pub proof fn lemma_split_is_immaterial(
    chunks: Seq<Seq<u8>>,
    number_text: Seq<char>,
    terminator: char,
    max_duty: u32,
)
    requires
        number_text.len() > 0,
        digits(number_text),
        terminator == LINE_FEED || terminator == CARRIAGE_RETURN,
        chunks.flatten() == encode_utf8(number_text.push(terminator)),
    ensures
        commands_of(Seq::empty(), chunks, max_duty) == seq![
            clamp(number_or_zero(number_text), max_duty),
        ],
{
    assert(Seq::<char>::empty() + number_text == number_text);
    lemma_remaining_chunks(Seq::empty(), number_text, chunks, terminator, max_duty);
}

/// A buffer that holds whitespace only stands for a line that asks for
/// nothing, so no duty is written for it.
pub proof fn lemma_blank_buffer_asks_nothing(buffer: Seq<char>, max_duty: u32)
    requires
        blank(buffer),
    ensures
        command_value(last_line(buffer), max_duty) is None,
{
    let bounds = lemma_trimmed_is_inner_range(buffer);
    if bounds.0 < bounds.1 {
        assert(whitespace(buffer[bounds.0]));
    }
    assert(trimmed(buffer).len() == 0);
    assert(last_line(buffer).len() == 0);
    assert(trimmed(last_line(buffer)).len() == 0);
}

/// A chunk that ends a line, fed to a buffer with which it makes whitespace
/// only, completes a line that asks for nothing.
pub proof fn lemma_blank_line_is_skipped(buffer: Seq<char>, chunk: Seq<u8>, max_duty: u32)
    requires
        valid_utf8(chunk),
        ends_line(chunk),
        blank(buffer + decode_utf8(chunk)),
    ensures
        line_after(buffer, chunk) matches Some(line) && command_value(line, max_duty) is None,
        commands_of(buffer, seq![chunk], max_duty) == Seq::<u32>::empty(),
{
    lemma_blank_buffer_asks_nothing(buffer + decode_utf8(chunk), max_duty);
    assert(seq![chunk].drop_first().len() == 0);
    assert(seq![chunk].first() == chunk);
    reveal_with_fuel(commands_of, 2);
}

/// A run of digits is a line of its own: trimming keeps all of it, and it
/// asks for the number that it writes.
proof fn lemma_digits_are_a_line(text: Seq<char>, max_duty: u32)
    requires
        text.len() > 0,
        digits(text),
    ensures
        trimmed(text) == text,
        command_value(text, max_duty) == Some(clamp(number_or_zero(text), max_duty)),
{
    assert(digit(text.first()) && digit(text.last()));
    assert(trimmed_start(text) == text);
    assert(trimmed_end(text) == text);
}

/// A run of digits followed by a terminator stands for the line of the
/// digits.
proof fn lemma_terminated_digits(text: Seq<char>, terminator: char)
    requires
        text.len() > 0,
        digits(text),
        terminator == LINE_FEED || terminator == CARRIAGE_RETURN,
    ensures
        last_line(text.push(terminator)) == text,
{
    let whole = text.push(terminator);
    assert(digit(text.first()) && digit(text.last()));
    assert(whole.first() == text.first());
    assert(trimmed_start(whole) == whole);
    assert(whole.drop_last() == text);
    assert(trimmed_end(text) == text);
    assert(trimmed_end(whole) == trimmed_end(whole.drop_last()));
    assert(trimmed(whole) == text);
    assert(!text.contains(CARRIAGE_RETURN)) by {
        if text.contains(CARRIAGE_RETURN) {
            let i = choose|i: int| 0 <= i < text.len() && text[i] == CARRIAGE_RETURN;
            assert(digit(text[i]));
        }
    }
    assert forall|i: int| 0 <= i < text.len() implies text[i] != LINE_FEED by {
        assert(digit(text[i]));
    }
    lemma_last_segment_is_suffix(text, LINE_FEED, 0);
    assert(text.subrange(0, text.len() as int) == text);
}

/// The encoding of text in ASCII has one byte for each character, so it can
/// be cut anywhere, and each part encodes its part of the text.
proof fn lemma_ascii_encoding_splits(text: Seq<char>, at: int)
    requires
        is_ascii_chars(text),
        0 <= at <= text.len(),
    ensures
        encode_utf8(text).len() == text.len(),
        forall|i: int| 0 <= i < text.len() ==> encode_utf8(text)[i] == text[i] as u8,
        encode_utf8(text).subrange(0, at) == encode_utf8(text.subrange(0, at)),
        encode_utf8(text).subrange(at, text.len() as int) == encode_utf8(
            text.subrange(at, text.len() as int),
        ),
{
    let head = text.subrange(0, at);
    let tail = text.subrange(at, text.len() as int);
    is_ascii_chars_encode_utf8(text);
    is_ascii_chars_encode_utf8(head);
    is_ascii_chars_encode_utf8(tail);
    assert forall|i: int| 0 <= i < at implies encode_utf8(text).subrange(0, at)[i] == encode_utf8(
        head,
    )[i] by {
        assert(head[i] == text[i]);
    }
    assert forall|i: int| 0 <= i < text.len() - at implies encode_utf8(text).subrange(
        at,
        text.len() as int,
    )[i] == encode_utf8(tail)[i] by {
        assert(tail[i] == text[at + i]);
    }
    assert(encode_utf8(text).subrange(0, at) =~= encode_utf8(head));
    assert(encode_utf8(text).subrange(at, text.len() as int) =~= encode_utf8(tail));
}

/// Chunks that hold no byte at all complete nothing.
proof fn lemma_empty_chunks(buffer: Seq<char>, chunks: Seq<Seq<u8>>, max_duty: u32)
    requires
        chunks.flatten().len() == 0,
    ensures
        commands_of(buffer, chunks, max_duty) == Seq::<u32>::empty(),
    decreases chunks.len(),
{
    if chunks.len() > 0 {
        let first = chunks.first();
        assert(chunks.flatten() == first + chunks.drop_first().flatten());
        assert(first.len() == 0);
        assert(valid_utf8(first));
        assert(decode_utf8(first).len() == 0);
        assert(buffer + decode_utf8(first) == buffer);
        lemma_empty_chunks(buffer, chunks.drop_first(), max_duty);
    }
}

/// The step of `lemma_split_is_immaterial`: the digits in `buffer` have
/// been fed, those in `rest` and the terminator are still in `chunks`.
proof fn lemma_remaining_chunks(
    buffer: Seq<char>,
    rest: Seq<char>,
    chunks: Seq<Seq<u8>>,
    terminator: char,
    max_duty: u32,
)
    requires
        digits(buffer),
        digits(rest),
        buffer.len() + rest.len() > 0,
        terminator == LINE_FEED || terminator == CARRIAGE_RETURN,
        chunks.flatten() == encode_utf8(rest.push(terminator)),
    ensures
        commands_of(buffer, chunks, max_duty) == seq![
            clamp(number_or_zero(buffer + rest), max_duty),
        ],
    decreases chunks.len(),
{
    let pending = rest.push(terminator);
    assert(is_ascii_chars(pending)) by {
        assert forall|i: int| 0 <= i < pending.len() implies '\0' <= #[trigger] pending[i]
            <= '\u{7f}' by {
            if i < rest.len() {
                assert(digit(rest[i]));
            }
        }
    }
    lemma_ascii_encoding_splits(pending, 0);
    if chunks.len() == 0 {
        assert(chunks.flatten().len() == 0);
    } else {
        let first = chunks.first();
        let later = chunks.drop_first();
        let at = first.len() as int;
        assert(chunks.flatten() == first + later.flatten());
        assert(at <= pending.len());
        lemma_ascii_encoding_splits(pending, at);
        assert(first == encode_utf8(pending).subrange(0, at));
        assert(later.flatten() == encode_utf8(pending).subrange(at, pending.len() as int));
        encode_utf8_valid_utf8(pending.subrange(0, at));
        encode_utf8_decode_utf8(pending.subrange(0, at));
        assert(valid_utf8(first));
        assert(decode_utf8(first) == pending.subrange(0, at));
        if at == pending.len() {
            assert(pending.subrange(0, at) == pending);
            assert(first.last() == terminator as u8);
            assert(ends_line(first));
            let whole = buffer + rest;
            assert(buffer + pending == whole.push(terminator));
            assert(digits(whole)) by {
                assert forall|i: int| 0 <= i < whole.len() implies digit(#[trigger] whole[i]) by {
                    if i < buffer.len() {
                        assert(digit(buffer[i]));
                    } else {
                        assert(digit(rest[i - buffer.len()]));
                    }
                }
            }
            lemma_terminated_digits(whole, terminator);
            lemma_digits_are_a_line(whole, max_duty);
            assert(line_after(buffer, first) == Some(whole));
            lemma_empty_chunks(buffer_after(buffer, first), later, max_duty);
            assert(seq![clamp(number_or_zero(whole), max_duty)] + Seq::<u32>::empty() == seq![
                clamp(number_or_zero(whole), max_duty),
            ]);
        } else {
            let taken = rest.subrange(0, at);
            let left = rest.subrange(at, rest.len() as int);
            assert(pending.subrange(0, at) == taken);
            assert(pending.subrange(at, pending.len() as int) == left.push(terminator));
            if at > 0 {
                assert(first.last() == rest[at - 1] as u8);
                assert(digit(rest[at - 1]));
            }
            assert(!ends_line(first));
            assert(line_after(buffer, first) is None);
            assert(buffer_after(buffer, first) == buffer + taken);
            assert(digits(buffer + taken)) by {
                assert forall|i: int| 0 <= i < (buffer + taken).len() implies digit(
                    #[trigger] (buffer + taken)[i],
                ) by {
                    if i < buffer.len() {
                        assert(digit(buffer[i]));
                    } else {
                        assert(digit(rest[i - buffer.len()]));
                    }
                }
            }
            assert(digits(left)) by {
                assert forall|i: int| 0 <= i < left.len() implies digit(#[trigger] left[i]) by {
                    assert(digit(rest[at + i]));
                }
            }
            assert((buffer + taken) + left == buffer + rest);
            lemma_remaining_chunks(buffer + taken, left, later, terminator, max_duty);
        }
    }
}

} // verus!
