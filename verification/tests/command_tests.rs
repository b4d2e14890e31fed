use serial_fan::command::{parse_number, Command, CommandParser};

fn command_by_std(line: &str, max_duty: u32) -> Option<u32> {
    let text = line.trim();
    if text.is_empty() {
        return None;
    }
    let value = text.parse::<u32>().unwrap_or(0);
    Some(if value > max_duty { max_duty } else { value })
}

fn number_of(text: &str) -> Option<u32> {
    let chars: Vec<char> = text.chars().collect();
    parse_number(&chars, 0, chars.len())
}

#[test]
fn clamping_cuts_a_large_number_down_to_the_ceiling() {
    let parser = CommandParser::new(255);
    assert_eq!(parser.parse("999999").map(|c| c.value()), Some(255));
}

#[test]
fn malformed_text_falls_back_to_zero() {
    let parser = CommandParser::new(255);
    assert_eq!(parser.parse("abc").map(|c| c.value()), Some(0));
}

#[test]
fn blank_lines_give_no_command() {
    let parser = CommandParser::new(255);
    assert_eq!(parser.parse(""), None);
    assert_eq!(parser.parse(" "), None);
    assert_eq!(parser.parse("\r\n"), None);
    assert_eq!(parser.parse(" \t\u{a0}\u{3000} "), None);
}

#[test]
fn numbers_within_the_ceiling_are_kept() {
    let parser = CommandParser::new(255);
    assert_eq!(parser.parse("0").map(|c| c.value()), Some(0));
    assert_eq!(parser.parse("34").map(|c| c.value()), Some(34));
    assert_eq!(parser.parse("100").map(|c| c.value()), Some(100));
    assert_eq!(parser.parse("255").map(|c| c.value()), Some(255));
    assert_eq!(parser.parse("256").map(|c| c.value()), Some(255));
}

#[test]
fn the_line_is_trimmed_before_it_is_read() {
    let parser = CommandParser::new(255);
    assert_eq!(parser.parse("  34").map(|c| c.value()), Some(34));
    assert_eq!(parser.parse("34\n").map(|c| c.value()), Some(34));
    assert_eq!(parser.parse("\t 7 \r\n").map(|c| c.value()), Some(7));
    assert_eq!(parser.parse("3 4").map(|c| c.value()), Some(0));
    assert_eq!(parser.parse("\n34").map(|c| c.value()), Some(34));
}

#[test]
fn a_number_that_does_not_fit_32_bits_counts_as_zero() {
    let parser = CommandParser::new(255);
    assert_eq!(parser.parse("4294967295").map(|c| c.value()), Some(255));
    assert_eq!(parser.parse("4294967296").map(|c| c.value()), Some(0));
    assert_eq!(parser.parse("99999999999999999999").map(|c| c.value()), Some(0));
    assert_eq!(parser.parse("00000000000000000000012").map(|c| c.value()), Some(12));
}

#[test]
fn one_plus_sign_is_accepted_and_no_other_sign() {
    let parser = CommandParser::new(255);
    assert_eq!(parser.parse("+12").map(|c| c.value()), Some(12));
    assert_eq!(parser.parse("+").map(|c| c.value()), Some(0));
    assert_eq!(parser.parse("++12").map(|c| c.value()), Some(0));
    assert_eq!(parser.parse("-12").map(|c| c.value()), Some(0));
    assert_eq!(parser.parse("-0").map(|c| c.value()), Some(0));
    assert_eq!(parser.parse("12+").map(|c| c.value()), Some(0));
}

#[test]
fn the_ceiling_of_the_parser_decides() {
    assert_eq!(CommandParser::new(1023).parse("999").map(|c| c.value()), Some(999));
    assert_eq!(CommandParser::new(1023).parse("2000").map(|c| c.value()), Some(1023));
    assert_eq!(CommandParser::new(0).parse("5").map(|c| c.value()), Some(0));
    assert_eq!(
        CommandParser::new(u32::MAX).parse("4294967295").map(|c| c.value()),
        Some(u32::MAX)
    );
    assert_eq!(CommandParser::new(7).max_duty(), 7);
}

#[test]
fn parse_agrees_with_std() {
    let samples = [
        "", " ", "0", "1", "9", "10", "099", "128", "255", "256", "1000", "999999", "4294967295",
        "4294967296", "42949672950", "abc", "12a", "a12", "1.5", "1e3", "0x10", "+5", "+", "-5",
        "++5", "+-5", " 42 ", "4 2", "\u{661}\u{662}", "\u{ff11}", "1_0", "٣", "12\u{a0}", "\u{a0}",
    ];
    for max_duty in [0, 1, 100, 255, 256, 65535, u32::MAX] {
        let parser = CommandParser::new(max_duty);
        for sample in samples {
            assert_eq!(
                parser.parse(sample).map(|c| c.value()),
                command_by_std(sample, max_duty),
                "{:?} under {}",
                sample,
                max_duty
            );
        }
    }
}

#[test]
fn parse_number_agrees_with_std() {
    let samples = [
        "", "0", "7", "00", "0123", "4294967294", "4294967295", "4294967296", "4294967300",
        "5000000000", "18446744073709551616", "+0", "+4294967295", "+4294967296", "+", "-", "-1",
        "1-", " 1", "1 ", "12x", "x", "１２",
    ];
    for sample in samples {
        assert_eq!(number_of(sample), sample.parse::<u32>().ok(), "{:?}", sample);
    }
}

#[test]
fn parse_number_reads_the_given_range_only() {
    let chars: Vec<char> = "ab+123cd".chars().collect();
    assert_eq!(parse_number(&chars, 2, 6), Some(123));
    assert_eq!(parse_number(&chars, 3, 6), Some(123));
    assert_eq!(parse_number(&chars, 3, 5), Some(12));
    assert_eq!(parse_number(&chars, 2, 3), None);
    assert_eq!(parse_number(&chars, 4, 4), None);
    assert_eq!(parse_number(&chars, 1, 6), None);
    assert_eq!(parse_number(&chars, 3, 7), None);
}

#[test]
fn clamped_commands_never_exceed_the_ceiling() {
    assert_eq!(Command::clamped(0, 255).value(), 0);
    assert_eq!(Command::clamped(255, 255).value(), 255);
    assert_eq!(Command::clamped(256, 255).value(), 255);
    assert_eq!(Command::clamped(u32::MAX, 255).value(), 255);
    assert_eq!(Command::clamped(9, 0).value(), 0);
    assert_eq!(Command::clamped(100, 255), Command::clamped(100, 1000));
}
