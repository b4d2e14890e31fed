//! The two PWM channels and the controller that keeps them complementary.

use crate::command::Command;
use vstd::prelude::*;

verus! {

/// Which of the two channels follows the command.
#[derive(Clone, Copy, Debug, PartialEq, Eq)]
pub enum Polarity {
    /// The primary channel gets the command, the secondary its complement.
    Direct,
    /// The primary channel gets the complement, the secondary the command.
    Inverted,
}

/// A duty value that is above the ceiling of the channel it was meant for.
#[derive(Clone, Copy, Debug, PartialEq, Eq)]
pub struct DutyOutOfRange {
    /// The value that was asked for.
    pub requested: u32,
    /// The ceiling that it exceeds.
    pub max_duty: u32,
}

/// The duty values of the two channels.
#[derive(Clone, Copy, Debug, PartialEq, Eq)]
pub struct DutyPair {
    /// The duty of the primary channel.
    pub primary: u32,
    /// The duty of the secondary channel.
    pub secondary: u32,
}

/// The duty values with which the two channels answer `value`: one channel
/// gets the value, the other what is missing to `max_duty`.
pub open spec fn duty_pair(polarity: Polarity, max_duty: u32, value: u32) -> DutyPair
    recommends
        value <= max_duty,
{
    match polarity {
        Polarity::Direct => DutyPair { primary: value, secondary: (max_duty - value) as u32 },
        Polarity::Inverted => DutyPair { primary: (max_duty - value) as u32, secondary: value },
    }
}

/// Computes the duties with which the two channels answer `value`.
pub fn complementary_pair(polarity: Polarity, max_duty: u32, value: u32) -> (duties: DutyPair)
    requires
        value <= max_duty,
    ensures
        duties == duty_pair(polarity, max_duty, value),
        duties.primary + duties.secondary == max_duty,
{
    let complement = max_duty - value;
    match polarity {
        Polarity::Direct => DutyPair { primary: value, secondary: complement },
        Polarity::Inverted => DutyPair { primary: complement, secondary: value },
    }
}

/// What a channel is set to.
pub struct ChannelState {
    /// The current duty.
    pub duty: u32,
    /// The ceiling of the duty, fixed when the channel is made.
    pub max_duty: u32,
}

/// One PWM output: a duty that never exceeds its ceiling.
#[derive(Clone, Copy, Debug, PartialEq, Eq)]
pub struct DutyChannel {
    duty: u32,
    max_duty: u32,
}

impl View for DutyChannel {
    type V = ChannelState;

    closed spec fn view(&self) -> ChannelState {
        ChannelState { duty: self.duty, max_duty: self.max_duty }
    }
}

impl DutyChannel {
    #[verifier::type_invariant]
    spec fn bounded(&self) -> bool {
        self.duty <= self.max_duty
    }

    /// A channel with the ceiling `max_duty`, switched off.
    pub fn new(max_duty: u32) -> (channel: DutyChannel)
        ensures
            channel@ == (ChannelState { duty: 0, max_duty }),
    {
        DutyChannel { duty: 0, max_duty }
    }

    /// The current duty, which is at most the ceiling.
    pub fn duty(&self) -> (duty: u32)
        ensures
            duty == self@.duty,
            duty <= self@.max_duty,
    {
        proof {
            use_type_invariant(self);
        }
        self.duty
    }

    /// The ceiling of the duty.
    pub fn max_duty(&self) -> (max_duty: u32)
        ensures
            max_duty == self@.max_duty,
    {
        self.max_duty
    }

    /// Sets the duty to `value`. A value above the ceiling is refused and
    /// leaves the channel as it was.
    pub fn set_duty(&mut self, value: u32) -> (set: Result<(), DutyOutOfRange>)
        ensures
            final(self)@.max_duty == old(self)@.max_duty,
            value <= old(self)@.max_duty ==> set is Ok && final(self)@.duty == value,
            value > old(self)@.max_duty ==> final(self)@.duty == old(self)@.duty && set == Err::<
                (),
                DutyOutOfRange,
            >(DutyOutOfRange { requested: value, max_duty: old(self)@.max_duty }),
    {
        if value > self.max_duty {
            return Err(DutyOutOfRange { requested: value, max_duty: self.max_duty });
        }
        self.duty = value;
        Ok(())
    }
}

/// What a controller holds: the duties of its two channels, their common
/// ceiling, and which channel follows the command.
pub struct ControllerState {
    /// The duties of the two channels.
    pub duties: DutyPair,
    /// The ceiling of both channels.
    pub max_duty: u32,
    /// Which channel follows the command.
    pub polarity: Polarity,
}

impl ControllerState {
    /// True when the two duties add up to the ceiling.
    pub open spec fn balanced(self) -> bool {
        self.duties.primary + self.duties.secondary == self.max_duty
    }

    /// The state after the duty `value` was applied.
    pub open spec fn applied(self, value: u32) -> ControllerState
        recommends
            value <= self.max_duty,
    {
        ControllerState { duties: duty_pair(self.polarity, self.max_duty, value), ..self }
    }

    /// The state in which a controller starts: that of the duty 0.
    pub open spec fn initial(max_duty: u32, polarity: Polarity) -> ControllerState {
        ControllerState { duties: duty_pair(polarity, max_duty, 0), max_duty, polarity }
    }
}

/// Applying a duty within the ceiling leaves the two channels adding up to
/// the ceiling, whatever they held before.
pub proof fn lemma_applied_is_balanced(state: ControllerState, value: u32)
    requires
        value <= state.max_duty,
    ensures
        state.applied(value).balanced(),
{
}

/// Applying the same duty a second time changes nothing.
pub proof fn lemma_applied_twice(state: ControllerState, value: u32)
    requires
        value <= state.max_duty,
    ensures
        state.applied(value).applied(value) == state.applied(value),
{
}

/// Two channels with a common ceiling, one of which follows the command
/// while the other holds the complement.
#[derive(Clone, Copy, Debug, PartialEq, Eq)]
pub struct DutyController {
    primary: DutyChannel,
    secondary: DutyChannel,
    polarity: Polarity,
}

impl View for DutyController {
    type V = ControllerState;

    closed spec fn view(&self) -> ControllerState {
        ControllerState {
            duties: DutyPair { primary: self.primary.duty, secondary: self.secondary.duty },
            max_duty: self.primary.max_duty,
            polarity: self.polarity,
        }
    }
}

impl DutyController {
    #[verifier::type_invariant]
    spec fn complementary(&self) -> bool {
        &&& self.primary.max_duty == self.secondary.max_duty
        &&& self.primary.duty + self.secondary.duty == self.primary.max_duty
    }

    /// A controller for two channels with the ceiling `max_duty`, set as the
    /// duty 0 sets them.
    pub fn new(max_duty: u32, polarity: Polarity) -> (controller: DutyController)
        ensures
            controller@ == ControllerState::initial(max_duty, polarity),
            controller@.balanced(),
    {
        let follower = DutyChannel::new(max_duty);
        let mut complement = DutyChannel::new(max_duty);
        let _ = complement.set_duty(max_duty);
        match polarity {
            Polarity::Direct => DutyController { primary: follower, secondary: complement, polarity },
            Polarity::Inverted => DutyController {
                primary: complement,
                secondary: follower,
                polarity,
            },
        }
    }

    /// The common ceiling of the two channels.
    pub fn max_duty(&self) -> (max_duty: u32)
        ensures
            max_duty == self@.max_duty,
    {
        self.primary.max_duty()
    }

    /// Which channel follows the command.
    pub fn polarity(&self) -> (polarity: Polarity)
        ensures
            polarity == self@.polarity,
    {
        self.polarity
    }

    /// The primary channel.
    pub fn primary(&self) -> (channel: &DutyChannel)
        ensures
            channel@ == (ChannelState { duty: self@.duties.primary, max_duty: self@.max_duty }),
    {
        &self.primary
    }

    /// The secondary channel.
    pub fn secondary(&self) -> (channel: &DutyChannel)
        ensures
            channel@ == (ChannelState { duty: self@.duties.secondary, max_duty: self@.max_duty }),
    {
        proof {
            use_type_invariant(self);
        }
        &self.secondary
    }

    /// The two duties as they stand, which add up to the ceiling.
    pub fn duties(&self) -> (duties: DutyPair)
        ensures
            duties == self@.duties,
            self@.balanced(),
    {
        proof {
            use_type_invariant(self);
        }
        DutyPair { primary: self.primary.duty(), secondary: self.secondary.duty() }
    }

    /// The duties that `command` asks of the two channels, or the error
    /// where it is above the ceiling.
    pub fn plan(&self, command: Command) -> (planned: Result<DutyPair, DutyOutOfRange>)
        ensures
            command.value() <= self@.max_duty ==> planned == Ok::<DutyPair, DutyOutOfRange>(
                duty_pair(self@.polarity, self@.max_duty, command.value()),
            ),
            command.value() > self@.max_duty ==> planned == Err::<DutyPair, DutyOutOfRange>(
                DutyOutOfRange { requested: command.value(), max_duty: self@.max_duty },
            ),
    {
        let max_duty = self.primary.max_duty();
        let value = command.value();
        if value > max_duty {
            return Err(DutyOutOfRange { requested: value, max_duty });
        }
        Ok(complementary_pair(self.polarity, max_duty, value))
    }

    /// Sets the two channels as `command` asks: one to its value, the other
    /// to the complement. A command above the ceiling is refused and leaves
    /// both channels as they were. Either way the two duties add up to the
    /// ceiling afterwards.
    pub fn apply(&mut self, command: Command) -> (applied: Result<DutyPair, DutyOutOfRange>)
        ensures
            final(self)@.balanced(),
            command.value() <= old(self)@.max_duty ==> final(self)@ == old(self)@.applied(
                command.value(),
            ) && applied == Ok::<DutyPair, DutyOutOfRange>(final(self)@.duties),
            command.value() > old(self)@.max_duty ==> final(self)@ == old(self)@ && applied == Err::<
                DutyPair,
                DutyOutOfRange,
            >(DutyOutOfRange { requested: command.value(), max_duty: old(self)@.max_duty }),
    {
        proof {
            use_type_invariant(&*self);
        }
        let duties = match self.plan(command) {
            Ok(duties) => duties,
            Err(refused) => {
                return Err(refused);
            },
        };
        let mut primary = self.primary;
        let mut secondary = self.secondary;
        let _ = primary.set_duty(duties.primary);
        let _ = secondary.set_duty(duties.secondary);
        *self = DutyController { primary, secondary, polarity: self.polarity };
        Ok(duties)
    }
}

} // verus!
