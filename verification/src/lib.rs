//! Serial command protocol and complementary duty-cycle control for a
//! two-channel PWM fan controller.
//!
//! Bytes from a serial link are collected into lines ([`line`]), a line is
//! read as a bounded duty value ([`command`]), and the value is applied to
//! two PWM channels whose duties always add up to a fixed ceiling
//! ([`duty`]). The loop that ties these together is a state machine
//! ([`control`]): the caller polls the link and writes the channels, and
//! tells the machine what happened; the machine says what to do next.

pub mod command;
pub mod control;
pub mod decode;
pub mod duty;
pub mod line;
pub mod pwm;
pub mod stream;
pub mod text;
