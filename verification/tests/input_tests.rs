use gomoku::{is_white_space, parse_position, parse_position_part, InputError, Position};

#[test]
fn test_parse_position() {
    let board_size = 15;
    let s = "12 14";
    assert_eq!(Position(12, 14), parse_position(s, board_size).unwrap());

    let s = "0 1";
    assert_eq!(Position(0, 1), parse_position(s, board_size).unwrap());

    let s = " 12  14  ";
    assert_eq!(Position(12, 14), parse_position(s, board_size).unwrap());

    let bad_strings = ["12 15", "-1 2", "12.0 15", "12 1 1", "he he", "1, 2", "", "\n"];

    for s in bad_strings {
        assert!(parse_position(s, board_size).is_err());
    }
}

#[test]
fn each_bad_line_has_its_reason() {
    let board_size = 15;
    assert_eq!(Err(InputError::TooLarge), parse_position("12 15", board_size));
    assert_eq!(Err(InputError::TooLarge), parse_position("15 12", board_size));
    assert_eq!(Err(InputError::NotAnInteger), parse_position("-1 2", board_size));
    assert_eq!(Err(InputError::NotAnInteger), parse_position("12.0 15", board_size));
    assert_eq!(Err(InputError::NotTwoParts), parse_position("12 1 1", board_size));
    assert_eq!(Err(InputError::NotAnInteger), parse_position("he he", board_size));
    assert_eq!(Err(InputError::NotAnInteger), parse_position("1, 2", board_size));
    assert_eq!(Err(InputError::NotTwoParts), parse_position("", board_size));
    assert_eq!(Err(InputError::NotTwoParts), parse_position("\n", board_size));
    assert_eq!(Err(InputError::NotTwoParts), parse_position("7", board_size));
    assert_eq!(Err(InputError::NotTwoParts), parse_position("   ", board_size));
}

#[test]
fn first_bad_part_is_reported() {
    assert_eq!(Err(InputError::NotAnInteger), parse_position("x 99", 15));
    assert_eq!(Err(InputError::TooLarge), parse_position("99 x", 15));
    assert_eq!(Err(InputError::NotAnInteger), parse_position("3 x", 15));
    assert_eq!(Err(InputError::NotTwoParts), parse_position("x 99 y", 15));
}

#[test]
fn line_read_from_a_terminal_is_a_move() {
    assert_eq!(Ok(Position(3, 4)), parse_position("3 4\n", 15));
    assert_eq!(Ok(Position(3, 4)), parse_position("3 4\r\n", 15));
    assert_eq!(Ok(Position(3, 4)), parse_position("\t3\t\t4 \n", 15));
    assert_eq!(Ok(Position(14, 0)), parse_position("14 0", 15));
    assert_eq!(Ok(Position(0, 14)), parse_position("0 14", 15));
}

#[test]
fn unicode_white_space_separates_the_parts() {
    assert_eq!(Ok(Position(1, 2)), parse_position("1\u{00A0}2", 15));
    assert_eq!(Ok(Position(1, 2)), parse_position("\u{3000}1\u{2003}\u{2028}2\u{0085}", 15));
    assert_eq!(Err(InputError::NotTwoParts), parse_position("1\u{200B}2", 15));
    assert_eq!(Err(InputError::NotAnInteger), parse_position("1\u{200B}2 3", 15));
}

#[test]
fn plus_sign_and_leading_zeros_are_read() {
    assert_eq!(Ok(Position(3, 4)), parse_position("+3 004", 15));
    assert_eq!(Ok(7), parse_position_part("+7", 15));
    assert_eq!(Ok(7), parse_position_part("0000000000000000000000000000000000007", 15));
    assert_eq!(Ok(0), parse_position_part("+0", 15));
    assert_eq!(Err(InputError::NotAnInteger), parse_position_part("+", 15));
    assert_eq!(Err(InputError::NotAnInteger), parse_position_part("++7", 15));
    assert_eq!(Err(InputError::NotAnInteger), parse_position_part("7+", 15));
    assert_eq!(Err(InputError::NotAnInteger), parse_position_part("-0", 15));
}

#[test]
fn part_is_trimmed_before_it_is_read() {
    assert_eq!(Ok(12), parse_position_part("12", 15));
    assert_eq!(Ok(12), parse_position_part("  12\t\n", 15));
    assert_eq!(Ok(0), parse_position_part("\u{2000}0\u{205F}", 15));
    assert_eq!(Err(InputError::NotAnInteger), parse_position_part("1 2", 15));
    assert_eq!(Err(InputError::NotAnInteger), parse_position_part("", 15));
    assert_eq!(Err(InputError::NotAnInteger), parse_position_part("   ", 15));
    assert_eq!(Err(InputError::NotAnInteger), parse_position_part("1_0", 15));
    assert_eq!(Err(InputError::NotAnInteger), parse_position_part("0x1", 15));
    assert_eq!(Err(InputError::NotAnInteger), parse_position_part("\u{0661}", 15));
}

#[test]
fn part_must_lie_below_the_board_size() {
    assert_eq!(Ok(14), parse_position_part("14", 15));
    assert_eq!(Err(InputError::TooLarge), parse_position_part("15", 15));
    assert_eq!(Err(InputError::TooLarge), parse_position_part("16", 15));
    assert_eq!(Err(InputError::TooLarge), parse_position_part("0", 0));
    assert_eq!(Ok(0), parse_position_part("0", 1));
    assert_eq!(Ok(usize::MAX - 1), parse_position_part(&(usize::MAX - 1).to_string(), usize::MAX));
    assert_eq!(
        Err(InputError::TooLarge),
        parse_position_part(&usize::MAX.to_string(), usize::MAX)
    );
}

#[test]
fn number_too_large_for_the_machine_is_no_integer() {
    let beyond = format!("{}0", usize::MAX);
    assert_eq!(Err(InputError::NotAnInteger), parse_position_part(&beyond, usize::MAX));
    let next = format!("{}", usize::MAX as u128 + 1);
    assert_eq!(Err(InputError::NotAnInteger), parse_position_part(&next, usize::MAX));
    assert_eq!(
        Err(InputError::NotAnInteger),
        parse_position_part("99999999999999999999999999999999999999999", 15)
    );
    assert_eq!(
        Err(InputError::NotAnInteger),
        parse_position_part("99999999999999999999999999999999999999999x", 15)
    );
}

#[test]
fn parts_are_read_as_the_standard_library_reads_them() {
    let samples = [
        "0", "1", "9", "10", "007", "+5", "+", "-", "-5", "", " ", "5 ", " 5", "\t5\n", "5a", "a5",
        "1.5", "1e3", "0x10", "18446744073709551615", "18446744073709551616",
        "018446744073709551615", "184467440737095516150", "４", "٣", "+-1", "--1", "1+", "１２",
        "4294967295", "4294967296", "\u{00A0}8\u{00A0}", "\u{200B}8", "8\u{FEFF}",
    ];
    for s in samples {
        let expected = s.trim().parse::<usize>().ok();
        let got = match parse_position_part(s, usize::MAX) {
            Ok(v) => Some(v),
            Err(InputError::TooLarge) => Some(usize::MAX),
            Err(_) => None,
        };
        assert_eq!(expected, got, "{:?}", s);
    }
}

#[test]
fn lines_are_split_as_the_standard_library_splits_them() {
    let samples = [
        "1 2", " 1 2 ", "1  2", "1\t2", "1\n2", "1\u{00A0}2", "1\u{1680}2", "1\u{180E}2",
        "1\u{2007}2", "1\u{200B}2", "1\u{202F}2", "1\u{2060}2", "1\u{3000}2", "1\u{FEFF}2",
        "1\u{0085}2", "1\u{001C}2", "1\u{000B}2", "1\u{000C}2", "12", "1 2 3", "",
    ];
    for s in samples {
        let parts: Vec<&str> = s.trim().split_whitespace().collect();
        let expected = parts.len() == 2
            && parts[0].trim().parse::<usize>().is_ok()
            && parts[1].trim().parse::<usize>().is_ok();
        assert_eq!(expected, parse_position(s, 100).is_ok(), "{:?}", s);
        assert_eq!(
            parts.len() != 2,
            parse_position(s, 100) == Err(InputError::NotTwoParts),
            "{:?}",
            s
        );
    }
}

#[test]
fn white_space_is_what_the_standard_library_calls_white_space() {
    let mut count = 0;
    for code in 0..=0x10FFFFu32 {
        if let Some(c) = char::from_u32(code) {
            assert_eq!(c.is_whitespace(), is_white_space(c), "U+{:04X}", code);
            if is_white_space(c) {
                count += 1;
            }
        }
    }
    assert_eq!(25, count);
}

#[test]
fn messages_name_the_fault() {
    assert_eq!("Not 2 parts", InputError::NotTwoParts.message());
    assert_eq!("Not an integer", InputError::NotAnInteger.message());
    assert_eq!("Too large", InputError::TooLarge.message());
}
