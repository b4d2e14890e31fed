//! The control loop as a state machine: what the link and the channels
//! report goes in, what to do next comes out.

use crate::command::{
    clamp, command_value, digits, number_or_zero, Command, CommandParser,
};
use crate::duty::{complementary_pair, duty_pair, DutyController, DutyPair, Polarity};
use crate::line::{
    buffer_after, ends_line, lemma_buffer_stays_open_ended, line_after, open_ended,
    LineAccumulator,
};
use crate::stream::{commands_of, lemma_blank_line_is_skipped, lemma_split_is_immaterial};
use crate::text::{blank, CARRIAGE_RETURN, LINE_FEED};
use vstd::prelude::*;
use vstd::utf8::*;

verus! {

/// The duty ceiling of the supported boards.
pub const DEFAULT_MAX_DUTY: u32 = 255;

/// The pause of the supported boards before a retry, in milliseconds.
pub const DEFAULT_BACKOFF_MILLIS: u64 = 1000;

/// The most bytes that the supported boards take from the link in one read.
pub const READ_CHUNK_LEN: usize = 100;

/// What is fixed when the loop is made.
#[derive(Clone, Copy, Debug, PartialEq, Eq)]
pub struct LoopConfig {
    /// The ceiling of both channels.
    pub max_duty: u32,
    /// Which channel follows the command.
    pub polarity: Polarity,
    /// Whether the link wants a pause after a read that brought nothing.
    pub idle_backoff: bool,
    /// The length of a pause, in milliseconds.
    pub backoff_millis: u64,
}

/// What the link or the channels reported.
#[derive(Clone, Copy, Debug, PartialEq, Eq)]
pub enum Event<'a> {
    /// The link says that nobody is connected; no read was tried.
    Disconnected,
    /// The read waited its time out.
    TimedOut,
    /// The read failed in another way.
    ReadFailed,
    /// The read brought these bytes, possibly none.
    Received(&'a [u8]),
    /// Both channels took the duties that were to be written.
    Written,
    /// A channel refused its duty.
    WriteFailed,
}

/// What to do next.
#[derive(Clone, Copy, Debug, PartialEq, Eq)]
pub enum Action {
    /// Read from the link at once.
    Read,
    /// Pause for so many milliseconds, then read.
    Backoff { millis: u64 },
    /// The bytes were no text and were dropped; read on.
    Discard,
    /// The line was blank and is passed over; read on.
    Skip,
    /// Write `duties` to the two channels for the command `value`, then
    /// report `Written` or `WriteFailed`.
    Write { value: u32, duties: DutyPair },
}

/// What the loop holds between two events.
pub struct LoopState {
    /// What was fixed when the loop was made.
    pub config: LoopConfig,
    /// The text that arrived since the last completed line.
    pub buffer: Seq<char>,
    /// The duties that the channels last took.
    pub duties: DutyPair,
    /// The command whose write is awaited, if one is.
    pub pending: Option<u32>,
}

impl LoopState {
    /// True of every state that a loop can be in: the duties add up to the
    /// ceiling, an awaited command is within it, and what is buffered does
    /// not end in a terminator.
    pub open spec fn valid(self) -> bool {
        &&& self.duties.primary + self.duties.secondary == self.config.max_duty
        &&& self.pending matches Some(value) ==> value <= self.config.max_duty
        &&& open_ended(self.buffer)
    }

    /// The state in which a loop starts: nothing buffered, nothing awaited,
    /// the channels as the duty 0 sets them.
    pub open spec fn initial(config: LoopConfig) -> LoopState {
        LoopState {
            config,
            buffer: Seq::empty(),
            duties: duty_pair(config.polarity, config.max_duty, 0),
            pending: None,
        }
    }

    /// What follows a read that brought nothing: a pause where the link
    /// wants one, else the next read.
    pub open spec fn idle(self) -> Action {
        if self.config.idle_backoff {
            Action::Backoff { millis: self.config.backoff_millis }
        } else {
            Action::Read
        }
    }

    /// The command that the bytes `chunk` complete, if they complete one.
    pub open spec fn completed(self, chunk: Seq<u8>) -> Option<u32> {
        match line_after(self.buffer, chunk) {
            Some(line) => command_value(line, self.config.max_duty),
            None => None,
        }
    }

    /// The answer to the bytes `chunk`, of which there is at least one.
    pub open spec fn received(self, chunk: Seq<u8>) -> Action {
        if !valid_utf8(chunk) {
            Action::Discard
        } else if line_after(self.buffer, chunk) is None {
            Action::Read
        } else {
            match self.completed(chunk) {
                Some(value) => Action::Write {
                    value,
                    duties: duty_pair(self.config.polarity, self.config.max_duty, value),
                },
                None => Action::Skip,
            }
        }
    }

    /// What the loop does on `event`. While a write is awaited, only its
    /// outcome counts, and any other event has the write asked for again.
    /// While none is awaited, the outcome of a write counts for nothing.
    pub open spec fn action(self, event: Event) -> Action {
        match self.pending {
            Some(value) => match event {
                Event::Written | Event::WriteFailed => Action::Read,
                _ => Action::Write {
                    value,
                    duties: duty_pair(self.config.polarity, self.config.max_duty, value),
                },
            },
            None => match event {
                Event::Disconnected | Event::TimedOut => Action::Backoff {
                    millis: self.config.backoff_millis,
                },
                Event::ReadFailed => self.idle(),
                Event::Received(chunk) => if chunk@.len() == 0 {
                    self.idle()
                } else {
                    self.received(chunk@)
                },
                Event::Written | Event::WriteFailed => Action::Read,
            },
        }
    }

    /// The state in which `event` leaves the loop. Bytes change the buffer;
    /// a completed command becomes the awaited one; the duties change when
    /// an awaited write is reported done, and only then.
    pub open spec fn next(self, event: Event) -> LoopState {
        match self.pending {
            Some(value) => match event {
                Event::Written => LoopState {
                    duties: duty_pair(self.config.polarity, self.config.max_duty, value),
                    pending: None,
                    ..self
                },
                Event::WriteFailed => LoopState { pending: None, ..self },
                _ => self,
            },
            None => match event {
                Event::Received(chunk) => if chunk@.len() == 0 {
                    self
                } else {
                    LoopState {
                        buffer: buffer_after(self.buffer, chunk@),
                        pending: self.completed(chunk@),
                        ..self
                    }
                },
                _ => self,
            },
        }
    }

    /// Where the loop ends up, and the commands it has written on the way,
    /// when it receives `chunks` one after the other and every write that
    /// it asks for is reported done at once.
    pub open spec fn served(self, chunks: Seq<&[u8]>) -> (LoopState, Seq<u32>)
        decreases chunks.len(),
    {
        if chunks.len() == 0 {
            (self, Seq::empty())
        } else {
            let event = Event::Received(chunks.first());
            match self.action(event) {
                Action::Write { value, duties } => {
                    let (end, later) = self.next(event).next(Event::Written).served(
                        chunks.drop_first(),
                    );
                    (end, seq![value] + later)
                },
                _ => self.next(event).served(chunks.drop_first()),
            }
        }
    }
}

/// The bytes of each chunk.
pub open spec fn bytes_of(chunks: Seq<&[u8]>) -> Seq<Seq<u8>> {
    chunks.map_values(|chunk: &[u8]| chunk@)
}

/// A loop that awaits no write writes the commands that the stream of its
/// chunks completes, and ends with the duties of the last of them.
pub proof fn lemma_served_writes_the_stream(state: LoopState, chunks: Seq<&[u8]>)
    requires
        state.pending is None,
    ensures
        state.served(chunks).1 == commands_of(
            state.buffer,
            bytes_of(chunks),
            state.config.max_duty,
        ),
        state.served(chunks).0.config == state.config,
        state.served(chunks).0.pending is None,
        state.valid() ==> state.served(chunks).0.valid(),
        state.served(chunks).0.duties == (if state.served(chunks).1.len() > 0 {
            duty_pair(
                state.config.polarity,
                state.config.max_duty,
                state.served(chunks).1.last(),
            )
        } else {
            state.duties
        }),
    decreases chunks.len(),
{
    if chunks.len() > 0 {
        let chunk = chunks.first();
        let event = Event::Received(chunk);
        let later = chunks.drop_first();
        assert(bytes_of(chunks).first() == chunk@);
        assert(bytes_of(chunks).drop_first() == bytes_of(later));
        if chunk@.len() == 0 {
            assert(valid_utf8(chunk@));
            assert(state.buffer + decode_utf8(chunk@) == state.buffer);
            lemma_served_writes_the_stream(state, later);
        } else {
            if state.valid() {
                lemma_next_is_valid(state, event);
                lemma_next_is_valid(state.next(event), Event::Written);
            }
            match state.action(event) {
                Action::Write { value, duties } => {
                    let written = state.next(event).next(Event::Written);
                    lemma_served_writes_the_stream(written, later);
                    let rest = written.served(later).1;
                    assert((seq![value] + rest).last() == if rest.len() > 0 {
                        rest.last()
                    } else {
                        value
                    });
                },
                _ => {
                    lemma_served_writes_the_stream(state.next(event), later);
                },
            }
        }
    }
}

/// However the bytes of a run of digits and its terminator are cut into
/// chunks, a loop that starts afresh writes one command for them and no
/// other, and ends with its duties: those of the number that the digits
/// write, or of 0 where it does not fit 32 bits, cut down to the ceiling.
pub proof fn lemma_split_is_immaterial_to_the_loop(
    config: LoopConfig,
    chunks: Seq<&[u8]>,
    number_text: Seq<char>,
    terminator: char,
)
    requires
        number_text.len() > 0,
        digits(number_text),
        terminator == LINE_FEED || terminator == CARRIAGE_RETURN,
        bytes_of(chunks).flatten() == encode_utf8(number_text.push(terminator)),
    ensures
        ({
            let value = clamp(number_or_zero(number_text), config.max_duty);
            let (end, written) = LoopState::initial(config).served(chunks);
            &&& written == seq![value]
            &&& end.duties == duty_pair(config.polarity, config.max_duty, value)
            &&& end.pending is None
            &&& end.valid()
        }),
{
    lemma_split_is_immaterial(bytes_of(chunks), number_text, terminator, config.max_duty);
    lemma_served_writes_the_stream(LoopState::initial(config), chunks);
}

/// Whatever the event, a valid state is followed by a valid state: the two
/// duties go on adding up to the ceiling, and what is buffered goes on not
/// ending in a terminator.
pub proof fn lemma_next_is_valid(state: LoopState, event: Event)
    requires
        state.valid(),
    ensures
        state.next(event).valid(),
        state.next(event).config == state.config,
{
    if let Event::Received(chunk) = event {
        lemma_buffer_stays_open_ended(state.buffer, chunk@);
    }
}

/// The duties change when an awaited write is reported done, and on no
/// other event.
pub proof fn lemma_duties_change_only_when_written(state: LoopState, event: Event)
    requires
        !(state.pending is Some && event is Written),
    ensures
        state.next(event).duties == state.duties,
{
}

/// A write that is reported done leaves the channels with the duties that
/// were to be written, and one that is reported failed leaves them as they
/// were.
pub proof fn lemma_written_takes_the_duties(
    state: LoopState,
    chunk: &[u8],
    value: u32,
    duties: DutyPair,
)
    requires
        state.pending is None,
        state.action(Event::Received(chunk)) == (Action::Write { value, duties }),
    ensures
        state.next(Event::Received(chunk)).pending == Some(value),
        state.next(Event::Received(chunk)).next(Event::Written).duties == duties,
        state.next(Event::Received(chunk)).next(Event::Written).pending is None,
        state.next(Event::Received(chunk)).next(Event::WriteFailed).duties == state.duties,
{
}

/// A chunk that ends a line and leaves the buffer with whitespace only is
/// passed over: no write is asked for and none is awaited.
pub proof fn lemma_blank_line_writes_nothing(state: LoopState, chunk: &[u8])
    requires
        state.pending is None,
        chunk@.len() > 0,
        valid_utf8(chunk@),
        ends_line(chunk@),
        blank(state.buffer + decode_utf8(chunk@)),
    ensures
        state.action(Event::Received(chunk)) == Action::Skip,
        state.next(Event::Received(chunk)).pending is None,
        state.next(Event::Received(chunk)).duties == state.duties,
        state.next(Event::Received(chunk)).buffer == Seq::<char>::empty(),
{
    lemma_blank_line_is_skipped(state.buffer, chunk@, state.config.max_duty);
}

/// The part of the loop that one invariant ties together: the configuration,
/// the controller made for it, and the command whose write is awaited.
struct LoopCore {
    config: LoopConfig,
    controller: DutyController,
    pending: Option<Command>,
}

impl LoopCore {
    #[verifier::type_invariant]
    spec fn coherent(&self) -> bool {
        &&& self.controller@.max_duty == self.config.max_duty
        &&& self.controller@.polarity == self.config.polarity
        &&& self.controller@.balanced()
        &&& self.pending matches Some(command) ==> command.value() <= self.config.max_duty
    }
}

/// The loop: a line accumulator and a duty controller under one
/// configuration, and the command whose write is awaited.
pub struct ControlLoop {
    accumulator: LineAccumulator,
    core: LoopCore,
}

impl View for ControlLoop {
    type V = LoopState;

    closed spec fn view(&self) -> LoopState {
        LoopState {
            config: self.core.config,
            buffer: self.accumulator@,
            duties: self.core.controller@.duties,
            pending: match self.core.pending {
                Some(command) => Some(command.value()),
                None => None,
            },
        }
    }
}

impl ControlLoop {
    /// A loop in its initial state.
    pub fn new(config: LoopConfig) -> (control: ControlLoop)
        ensures
            control@ == LoopState::initial(config),
            control@.valid(),
    {
        ControlLoop {
            accumulator: LineAccumulator::new(),
            core: LoopCore {
                config,
                controller: DutyController::new(config.max_duty, config.polarity),
                pending: None,
            },
        }
    }

    /// What was fixed when the loop was made.
    pub fn config(&self) -> (config: LoopConfig)
        ensures
            config == self@.config,
    {
        self.core.config
    }

    /// The duties that the channels last took, which add up to the ceiling.
    pub fn duties(&self) -> (duties: DutyPair)
        ensures
            duties == self@.duties,
            self@.valid(),
    {
        proof {
            use_type_invariant(&self.core);
            use_type_invariant(&self.accumulator);
        }
        self.core.controller.duties()
    }

    /// The text that arrived since the last completed line.
    pub fn buffered(&self) -> (text: &str)
        ensures
            text@ == self@.buffer,
    {
        self.accumulator.buffered()
    }

    /// The command whose write is awaited, if one is.
    pub fn pending(&self) -> (pending: Option<Command>)
        ensures
            (match pending {
                Some(command) => self@.pending == Some(command.value()),
                None => self@.pending is None,
            }),
    {
        self.core.pending
    }

    /// Takes in `event`, moves to the next state and says what to do next.
    pub fn step(&mut self, event: Event) -> (action: Action)
        ensures
            final(self)@ == old(self)@.next(event),
            action == old(self)@.action(event),
            final(self)@.valid(),
    {
        proof {
            use_type_invariant(&self.core);
            use_type_invariant(&self.accumulator);
        }
        match self.core.pending {
            Some(command) => self.settle(command, event),
            None => match event {
                Event::Disconnected | Event::TimedOut => Action::Backoff {
                    millis: self.core.config.backoff_millis,
                },
                Event::ReadFailed => self.idle(),
                Event::Received(chunk) => if chunk.len() == 0 {
                    self.idle()
                } else {
                    self.receive(chunk)
                },
                Event::Written | Event::WriteFailed => Action::Read,
            },
        }
    }

    fn idle(&self) -> (action: Action)
        ensures
            action == self@.idle(),
    {
        if self.core.config.idle_backoff {
            Action::Backoff { millis: self.core.config.backoff_millis }
        } else {
            Action::Read
        }
    }

    fn settle(&mut self, command: Command, event: Event) -> (action: Action)
        requires
            old(self)@.pending == Some(command.value()),
        ensures
            final(self)@ == old(self)@.next(event),
            action == old(self)@.action(event),
            final(self)@.valid(),
    {
        proof {
            use_type_invariant(&self.core);
            use_type_invariant(&self.accumulator);
        }
        match event {
            Event::Written => {
                let mut controller = self.core.controller;
                let _ = controller.apply(command);
                self.core = LoopCore { config: self.core.config, controller, pending: None };
                Action::Read
            },
            Event::WriteFailed => {
                self.core.pending = None;
                Action::Read
            },
            _ => Action::Write {
                value: command.value(),
                duties: complementary_pair(
                    self.core.config.polarity,
                    self.core.config.max_duty,
                    command.value(),
                ),
            },
        }
    }

    fn receive(&mut self, chunk: &[u8]) -> (action: Action)
        requires
            old(self)@.pending is None,
            chunk@.len() > 0,
        ensures
            final(self)@ == old(self)@.next(Event::Received(chunk)),
            action == old(self)@.received(chunk@),
            final(self)@.valid(),
    {
        proof {
            use_type_invariant(&self.core);
            use_type_invariant(&self.accumulator);
        }
        let line = match self.accumulator.feed(chunk) {
            Err(_) => {
                return Action::Discard;
            },
            Ok(None) => {
                return Action::Read;
            },
            Ok(Some(line)) => line,
        };
        let parser = CommandParser::new(self.core.config.max_duty);
        match parser.parse(line.as_str()) {
            None => Action::Skip,
            Some(command) => {
                self.core.pending = Some(command);
                Action::Write {
                    value: command.value(),
                    duties: complementary_pair(
                        self.core.config.polarity,
                        self.core.config.max_duty,
                        command.value(),
                    ),
                }
            },
        }
    }
}

} // verus!
