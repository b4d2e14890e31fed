//! Commands: a line of text read as a bounded duty value.

use crate::text::{to_chars, trim_bounds, trimmed};
use vstd::prelude::*;

verus! {

/// The sign that may stand before the digits of a number.
pub const PLUS: char = '+';

/// True for the ten decimal digits.
pub open spec fn digit(c: char) -> bool {
    '0' <= c <= '9'
}

/// The number that a decimal digit stands for.
pub open spec fn digit_value(c: char) -> nat {
    (c as u32 - '0' as u32) as nat
}

/// True when `s` holds decimal digits only.
pub open spec fn digits(s: Seq<char>) -> bool {
    forall|i: int| 0 <= i < s.len() ==> digit(#[trigger] s[i])
}

/// The number that the decimal digits `s` write, leading zeros allowed.
pub open spec fn decimal_value(s: Seq<char>) -> nat
    decreases s.len(),
{
    if s.len() == 0 {
        0
    } else {
        10 * decimal_value(s.drop_last()) + digit_value(s.last())
    }
}

/// `s` without the plus sign that it may start with.
pub open spec fn unsigned(s: Seq<char>) -> Seq<char> {
    if s.len() > 0 && s.first() == PLUS {
        s.drop_first()
    } else {
        s
    }
}

/// The number that `s` writes: an optional plus sign, then one or more
/// decimal digits whose value fits 32 bits. Anything else writes no number.
pub open spec fn number(s: Seq<char>) -> Option<u32> {
    let body = unsigned(s);
    if body.len() > 0 && digits(body) && decimal_value(body) <= u32::MAX {
        Some(decimal_value(body) as u32)
    } else {
        None
    }
}

/// `value`, cut down to `max_duty` where it is larger.
pub open spec fn clamp(value: u32, max_duty: u32) -> u32 {
    if value > max_duty {
        max_duty
    } else {
        value
    }
}

/// The number that `s` writes, or 0 where it writes none.
pub open spec fn number_or_zero(s: Seq<char>) -> u32 {
    match number(s) {
        Some(value) => value,
        None => 0,
    }
}

/// The duty value that `line` asks for under the ceiling `max_duty`. A line
/// that is blank asks for nothing. Any other line is trimmed and read as a
/// number, which counts as 0 where the text writes none, and is then cut
/// down to the ceiling.
pub open spec fn command_value(line: Seq<char>, max_duty: u32) -> Option<u32> {
    let text = trimmed(line);
    if text.len() == 0 {
        None
    } else {
        Some(clamp(number_or_zero(text), max_duty))
    }
}

/// A longer run of digits writes no smaller number than its beginning.
pub proof fn lemma_decimal_value_grows(s: Seq<char>, k: int)
    requires
        0 <= k <= s.len(),
    ensures
        decimal_value(s.subrange(0, k)) <= decimal_value(s),
    decreases s.len() - k,
{
    if k < s.len() {
        lemma_decimal_value_grows(s, k + 1);
        assert(s.subrange(0, k + 1).drop_last() == s.subrange(0, k));
    } else {
        assert(s.subrange(0, k) == s);
    }
}

/// A requested duty value that has been bounded by a duty ceiling.
#[derive(Clone, Copy, Debug, PartialEq, Eq)]
pub struct Command {
    value: u32,
}

impl Command {
    /// The duty value that this command asks for.
    pub closed spec fn spec_value(&self) -> u32 {
        self.value
    }

    /// The command for `raw` under the ceiling `max_duty`.
    pub fn clamped(raw: u32, max_duty: u32) -> (command: Command)
        ensures
            command.value() == clamp(raw, max_duty),
    {
        Command { value: if raw > max_duty { max_duty } else { raw } }
    }

    /// The duty value that this command asks for.
    #[verifier::when_used_as_spec(spec_value)]
    pub fn value(&self) -> (value: u32)
        ensures
            value == self.spec_value(),
    {
        self.value
    }
}

/// Reads `chars[start..end]` as a number.
pub fn parse_number(chars: &[char], start: usize, end: usize) -> (parsed: Option<u32>)
    requires
        start <= end <= chars@.len(),
    ensures
        parsed == number(chars@.subrange(start as int, end as int)),
{
    let ghost text = chars@.subrange(start as int, end as int);
    let first: usize = if start < end && chars[start] == PLUS {
        start + 1
    } else {
        start
    };
    let ghost body = unsigned(text);
    assert(body == chars@.subrange(first as int, end as int));
    if first == end {
        return None;
    }
    let mut value: u32 = 0;
    let mut i: usize = first;
    while i < end
        invariant
            start <= first <= i <= end <= chars@.len(),
            body == unsigned(chars@.subrange(start as int, end as int)),
            body == chars@.subrange(first as int, end as int),
            digits(body.subrange(0, i - first)),
            value == decimal_value(body.subrange(0, i - first)),
        decreases end - i,
    {
        let c = chars[i];
        if !('0' <= c && c <= '9') {
            assert(body[i - first] == c);
            return None;
        }
        let d: u32 = c as u32 - '0' as u32;
        let ghost longer = body.subrange(0, i + 1 - first);
        assert(longer.drop_last() == body.subrange(0, i - first));
        assert(longer.last() == c);
        if value > (u32::MAX - d) / 10 {
            proof {
                lemma_decimal_value_grows(body, i + 1 - first);
            }
            return None;
        }
        value = value * 10 + d;
        i += 1;
    }
    assert(body.subrange(0, end - first) == body);
    Some(value)
}

/// Reads lines as commands under a fixed duty ceiling.
#[derive(Clone, Copy, Debug, PartialEq, Eq)]
pub struct CommandParser {
    max_duty: u32,
}

impl CommandParser {
    /// The duty ceiling that every command of this parser respects.
    pub closed spec fn spec_max_duty(&self) -> u32 {
        self.max_duty
    }

    /// A parser for the ceiling `max_duty`.
    pub fn new(max_duty: u32) -> (parser: CommandParser)
        ensures
            parser.max_duty() == max_duty,
    {
        CommandParser { max_duty }
    }

    /// The duty ceiling that every command of this parser respects.
    #[verifier::when_used_as_spec(spec_max_duty)]
    pub fn max_duty(&self) -> (max_duty: u32)
        ensures
            max_duty == self.spec_max_duty(),
    {
        self.max_duty
    }

    /// Reads `line` as a command. A blank line gives `None`. Any other line
    /// gives the command for the number it writes, or for 0 where it writes
    /// none, under this parser's ceiling.
    pub fn parse(&self, line: &str) -> (parsed: Option<Command>)
        ensures
            (match parsed {
                Some(command) => command_value(line@, self.max_duty()) == Some(command.value()),
                None => command_value(line@, self.max_duty()) is None,
            }),
            parsed matches Some(command) ==> command.value() <= self.max_duty(),
    {
        let chars = to_chars(line);
        let (start, end) = trim_bounds(chars.as_slice());
        if start == end {
            return None;
        }
        let raw = match parse_number(chars.as_slice(), start, end) {
            Some(value) => value,
            None => 0,
        };
        Some(Command::clamped(raw, self.max_duty))
    }
}

} // verus!
