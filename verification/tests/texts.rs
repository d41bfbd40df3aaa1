use blackjack::error::Error;
use blackjack::input::{char_is_space, parse_player_count};
use blackjack::text::{append_decimal, digit_text};

#[test]
fn numbers_are_written_in_decimal() {
    for n in 0u8..=255 {
        let mut text = String::from("Player ");
        append_decimal(&mut text, n);
        assert_eq!(text, format!("Player {}", n));
    }
    let mut text = String::new();
    append_decimal(&mut text, 105);
    assert_eq!(text, "105");
}

#[test]
fn digits_have_their_characters() {
    let digits = ["0", "1", "2", "3", "4", "5", "6", "7", "8", "9"];
    for d in 0u8..=9 {
        assert_eq!(digit_text(d), digits[d as usize]);
    }
}

#[test]
fn player_counts_are_read_from_a_line() {
    assert_eq!(parse_player_count("3\n"), Ok(3));
    assert_eq!(parse_player_count("0"), Ok(0));
    assert_eq!(parse_player_count("  12 \r\n"), Ok(12));
    assert_eq!(parse_player_count("255"), Ok(255));
    assert_eq!(parse_player_count("+7"), Ok(7));
    assert_eq!(parse_player_count("007"), Ok(7));
    assert_eq!(parse_player_count("\u{3000}26\u{a0}"), Ok(26));
}

#[test]
fn lines_that_name_no_count_are_rejected() {
    for line in ["", "\n", "   ", "abc", "1a", "a1", "-1", "-0", "+", "+ 1", "1 2", "256", "1000", "++1", "1.0", "٣"] {
        assert_eq!(parse_player_count(line), Err(Error::InvalidPlayerCount), "{:?}", line);
    }
}

#[test]
fn player_counts_are_read_as_the_standard_library_reads_them() {
    let pieces = ["", " ", "\t", "\n", "+", "-", "0", "1", "9", "25", "255", "256", "x", "\u{2003}", "\u{200b}"];
    for a in pieces {
        for b in pieces {
            for c in pieces {
                let line = format!("{}{}{}", a, b, c);
                let expected = line.trim().parse::<u8>().ok();
                assert_eq!(parse_player_count(&line).ok(), expected, "{:?}", line);
            }
        }
    }
}

#[test]
fn white_space_is_what_the_standard_library_takes_for_it() {
    for u in 0u32..=0x3100 {
        if let Some(c) = char::from_u32(u) {
            assert_eq!(char_is_space(c), c.is_whitespace(), "{:x}", u);
        }
    }
    assert!(!char_is_space('\u{feff}'));
    assert!(!char_is_space('\u{10ffff}'));
}
