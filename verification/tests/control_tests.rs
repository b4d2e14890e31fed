use serial_fan::control::{
    Action, ControlLoop, Event, LoopConfig, DEFAULT_BACKOFF_MILLIS, DEFAULT_MAX_DUTY,
    READ_CHUNK_LEN,
};
use serial_fan::duty::{DutyPair, Polarity};

fn board_a() -> LoopConfig {
    LoopConfig {
        max_duty: DEFAULT_MAX_DUTY,
        polarity: Polarity::Direct,
        idle_backoff: false,
        backoff_millis: DEFAULT_BACKOFF_MILLIS,
    }
}

fn board_b() -> LoopConfig {
    LoopConfig {
        max_duty: DEFAULT_MAX_DUTY,
        polarity: Polarity::Inverted,
        idle_backoff: true,
        backoff_millis: DEFAULT_BACKOFF_MILLIS,
    }
}

fn write(value: u32, primary: u32, secondary: u32) -> Action {
    Action::Write { value, duties: DutyPair { primary, secondary } }
}

#[test]
fn the_default_values_are_those_of_the_boards() {
    assert_eq!(DEFAULT_MAX_DUTY, 255);
    assert_eq!(DEFAULT_BACKOFF_MILLIS, 1000);
    assert_eq!(READ_CHUNK_LEN, 100);
}

#[test]
fn a_new_loop_awaits_nothing_and_stands_at_duty_zero() {
    let control = ControlLoop::new(board_a());
    assert_eq!(control.config(), board_a());
    assert_eq!(control.buffered(), "");
    assert_eq!(control.pending(), None);
    assert_eq!(control.duties(), DutyPair { primary: 0, secondary: 255 });
    let control = ControlLoop::new(board_b());
    assert_eq!(control.duties(), DutyPair { primary: 255, secondary: 0 });
}

#[test]
fn end_to_end_on_board_a() {
    let mut control = ControlLoop::new(board_a());
    assert_eq!(control.step(Event::Received(b"100\n")), write(100, 100, 155));
    assert_eq!(control.pending().map(|c| c.value()), Some(100));
    assert_eq!(control.duties(), DutyPair { primary: 0, secondary: 255 });
    assert_eq!(control.step(Event::Written), Action::Read);
    assert_eq!(control.pending(), None);
    assert_eq!(control.duties(), DutyPair { primary: 100, secondary: 155 });
}

#[test]
fn end_to_end_on_the_other_board() {
    let mut control = ControlLoop::new(board_b());
    assert_eq!(control.step(Event::Received(b"100\n")), write(100, 155, 100));
    assert_eq!(control.step(Event::Written), Action::Read);
    assert_eq!(control.duties(), DutyPair { primary: 155, secondary: 100 });
}

#[test]
fn a_lone_terminator_is_skipped() {
    let mut control = ControlLoop::new(board_a());
    assert_eq!(control.step(Event::Received(b"\n")), Action::Skip);
    assert_eq!(control.pending(), None);
    assert_eq!(control.duties(), DutyPair { primary: 0, secondary: 255 });
    assert_eq!(control.buffered(), "");
}

#[test]
fn whitespace_only_content_is_skipped() {
    let mut control = ControlLoop::new(board_a());
    assert_eq!(control.step(Event::Received(b"  ")), Action::Read);
    assert_eq!(control.step(Event::Received(b"\t")), Action::Read);
    assert_eq!(control.step(Event::Received(b" \r\n")), Action::Skip);
    assert_eq!(control.pending(), None);
    assert_eq!(control.duties(), DutyPair { primary: 0, secondary: 255 });
    assert_eq!(control.step(Event::Received(b"9\n")), write(9, 9, 246));
}

#[test]
fn terminator_precedence_gives_the_last_command() {
    let mut control = ControlLoop::new(board_a());
    assert_eq!(control.step(Event::Received(b"12\r34\n")), write(34, 34, 221));
}

#[test]
fn large_numbers_are_clamped_and_malformed_ones_count_as_zero() {
    let mut control = ControlLoop::new(board_a());
    assert_eq!(control.step(Event::Received(b"999999\n")), write(255, 255, 0));
    assert_eq!(control.step(Event::Written), Action::Read);
    assert_eq!(control.duties(), DutyPair { primary: 255, secondary: 0 });
    assert_eq!(control.step(Event::Received(b"abc\n")), write(0, 0, 255));
    assert_eq!(control.step(Event::Written), Action::Read);
    assert_eq!(control.duties(), DutyPair { primary: 0, secondary: 255 });
}

#[test]
fn every_split_of_a_command_gives_the_same_write() {
    let text = b"128\n";
    for first in 0..=text.len() {
        for second in first..=text.len() {
            let mut control = ControlLoop::new(board_a());
            let mut writes = Vec::new();
            for chunk in [&text[..first], &text[first..second], &text[second..]] {
                match control.step(Event::Received(chunk)) {
                    Action::Write { value, duties } => {
                        writes.push((value, duties));
                        assert_eq!(control.step(Event::Written), Action::Read);
                    }
                    Action::Read => {}
                    other => panic!("unexpected {:?}", other),
                }
            }
            assert_eq!(writes, vec![(128, DutyPair { primary: 128, secondary: 127 })]);
            assert_eq!(control.duties(), DutyPair { primary: 128, secondary: 127 });
            assert_eq!(control.buffered(), "");
        }
    }
}

#[test]
fn every_split_of_a_large_number_gives_the_ceiling() {
    let text = b"999999\r";
    for cut in 0..=text.len() {
        let mut control = ControlLoop::new(board_b());
        let mut last = control.step(Event::Received(&text[..cut]));
        if cut < text.len() {
            last = control.step(Event::Received(&text[cut..]));
        }
        assert_eq!(last, write(255, 0, 255));
    }
}

#[test]
fn byte_by_byte_arrival_completes_one_command() {
    let mut control = ControlLoop::new(board_a());
    for byte in b"20" {
        assert_eq!(control.step(Event::Received(&[*byte])), Action::Read);
    }
    assert_eq!(control.buffered(), "20");
    assert_eq!(control.step(Event::Received(b"0")), Action::Read);
    assert_eq!(control.step(Event::Received(b"\n")), write(200, 200, 55));
}

#[test]
fn a_timeout_backs_off_on_every_link() {
    let mut control = ControlLoop::new(board_a());
    assert_eq!(control.step(Event::TimedOut), Action::Backoff { millis: 1000 });
    let mut control = ControlLoop::new(board_b());
    assert_eq!(control.step(Event::TimedOut), Action::Backoff { millis: 1000 });
}

#[test]
fn a_link_that_is_not_connected_backs_off() {
    let mut control = ControlLoop::new(board_a());
    assert_eq!(control.step(Event::Disconnected), Action::Backoff { millis: 1000 });
    let mut control = ControlLoop::new(LoopConfig { backoff_millis: 250, ..board_b() });
    assert_eq!(control.step(Event::Disconnected), Action::Backoff { millis: 250 });
}

#[test]
fn nothing_read_backs_off_only_where_the_link_wants_it() {
    let mut control = ControlLoop::new(board_a());
    assert_eq!(control.step(Event::Received(b"")), Action::Read);
    assert_eq!(control.step(Event::ReadFailed), Action::Read);
    let mut control = ControlLoop::new(board_b());
    assert_eq!(control.step(Event::Received(b"")), Action::Backoff { millis: 1000 });
    assert_eq!(control.step(Event::ReadFailed), Action::Backoff { millis: 1000 });
}

#[test]
fn idle_events_keep_what_is_buffered() {
    let mut control = ControlLoop::new(board_b());
    assert_eq!(control.step(Event::Received(b"4")), Action::Read);
    assert_eq!(control.step(Event::TimedOut), Action::Backoff { millis: 1000 });
    assert_eq!(control.step(Event::ReadFailed), Action::Backoff { millis: 1000 });
    assert_eq!(control.step(Event::Disconnected), Action::Backoff { millis: 1000 });
    assert_eq!(control.step(Event::Received(b"")), Action::Backoff { millis: 1000 });
    assert_eq!(control.buffered(), "4");
    assert_eq!(control.step(Event::Received(b"2\n")), write(42, 213, 42));
}

#[test]
fn bytes_that_are_no_text_are_discarded() {
    let mut control = ControlLoop::new(board_a());
    assert_eq!(control.step(Event::Received(b"1")), Action::Read);
    assert_eq!(control.step(Event::Received(&[0xff, 0xfe, b'\n'])), Action::Discard);
    assert_eq!(control.buffered(), "1");
    assert_eq!(control.pending(), None);
    assert_eq!(control.step(Event::Received(b"5\n")), write(15, 15, 240));
}

#[test]
fn a_failed_write_leaves_the_duties_and_the_next_command_goes_through() {
    let mut control = ControlLoop::new(board_a());
    assert_eq!(control.step(Event::Received(b"50\n")), write(50, 50, 205));
    assert_eq!(control.step(Event::Written), Action::Read);
    assert_eq!(control.step(Event::Received(b"60\n")), write(60, 60, 195));
    assert_eq!(control.step(Event::WriteFailed), Action::Read);
    assert_eq!(control.pending(), None);
    assert_eq!(control.duties(), DutyPair { primary: 50, secondary: 205 });
    assert_eq!(control.step(Event::Received(b"70\n")), write(70, 70, 185));
    assert_eq!(control.step(Event::Written), Action::Read);
    assert_eq!(control.duties(), DutyPair { primary: 70, secondary: 185 });
}

#[test]
fn while_a_write_is_awaited_other_events_ask_for_it_again() {
    let mut control = ControlLoop::new(board_a());
    assert_eq!(control.step(Event::Received(b"80\n")), write(80, 80, 175));
    assert_eq!(control.step(Event::TimedOut), write(80, 80, 175));
    assert_eq!(control.step(Event::Disconnected), write(80, 80, 175));
    assert_eq!(control.step(Event::ReadFailed), write(80, 80, 175));
    assert_eq!(control.step(Event::Received(b"90\n")), write(80, 80, 175));
    assert_eq!(control.buffered(), "");
    assert_eq!(control.duties(), DutyPair { primary: 0, secondary: 255 });
    assert_eq!(control.step(Event::Written), Action::Read);
    assert_eq!(control.duties(), DutyPair { primary: 80, secondary: 175 });
}

#[test]
fn the_outcome_of_a_write_that_nobody_awaits_counts_for_nothing() {
    let mut control = ControlLoop::new(board_b());
    assert_eq!(control.step(Event::Written), Action::Read);
    assert_eq!(control.step(Event::WriteFailed), Action::Read);
    assert_eq!(control.duties(), DutyPair { primary: 255, secondary: 0 });
    assert_eq!(control.pending(), None);
}

#[test]
fn the_same_command_twice_leaves_the_duties_where_they_were() {
    let mut control = ControlLoop::new(board_a());
    assert_eq!(control.step(Event::Received(b"33\n")), write(33, 33, 222));
    assert_eq!(control.step(Event::Written), Action::Read);
    let after_first = control.duties();
    assert_eq!(control.step(Event::Received(b"33\n")), write(33, 33, 222));
    assert_eq!(control.step(Event::Written), Action::Read);
    assert_eq!(control.duties(), after_first);
}

#[test]
fn the_duties_add_up_to_the_ceiling_after_every_event() {
    let mut control = ControlLoop::new(LoopConfig { max_duty: 1023, ..board_b() });
    let events = [
        Event::TimedOut,
        Event::Received(b"5"),
        Event::Received(b"00\n"),
        Event::ReadFailed,
        Event::Written,
        Event::Received(b"\n"),
        Event::Received(b"5000\r"),
        Event::WriteFailed,
        Event::Received(&[0x80]),
        Event::Received(b"x\n"),
        Event::Written,
        Event::Disconnected,
    ];
    for event in events {
        control.step(event);
        let duties = control.duties();
        assert_eq!(duties.primary + duties.secondary, 1023);
    }
    assert_eq!(control.duties(), DutyPair { primary: 1023, secondary: 0 });
}

#[test]
fn a_line_longer_than_one_read_is_still_a_command() {
    let mut control = ControlLoop::new(board_a());
    let zeros = [b'0'; READ_CHUNK_LEN];
    assert_eq!(control.step(Event::Received(&zeros)), Action::Read);
    assert_eq!(control.step(Event::Received(b"0017\n")), write(17, 17, 238));
}
