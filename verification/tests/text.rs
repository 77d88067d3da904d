use wm::text::{is_white_space, lines, parse_signed, parse_unsigned, push_signed, split, trim};

#[test]
fn white_space_is_that_of_the_standard_library() {
    for code in 0..=0x10ffff_u32 {
        if let Some(c) = char::from_u32(code) {
            assert_eq!(is_white_space(c), c.is_whitespace(), "{code:x}");
        }
    }
}

#[test]
fn text_is_taken_apart_as_by_the_standard_library() {
    for text in [
        "", " ", "a", " a b\t", "\u{a0}x\u{2028}", ",", "a,b", ",a,,b,", "\n", "a\n", "a\nb", "\r\n",
        "a\r\n\r\nb\r", "a\rb\n", "é,ü\n",
    ] {
        assert_eq!(trim(text), text.trim());
        assert_eq!(split(text, ','), text.split(',').collect::<Vec<_>>());
        assert_eq!(lines(text), text.lines().collect::<Vec<_>>());
    }
}

#[test]
fn numbers_are_read_as_by_the_standard_library() {
    for text in [
        "", "+", "-", "0", "00", "7", "+7", "-7", "++7", "-0", "12a", " 1", "1 ", "٣", "1_0",
        "18446744073709551615", "18446744073709551616", "9223372036854775807",
        "9223372036854775808", "-9223372036854775808", "-9223372036854775809",
        "340282366920938463463374607431768211456", "000000000000000000000000000000000001",
    ] {
        assert_eq!(parse_unsigned(text), text.parse::<usize>().ok(), "{text}");
        assert_eq!(parse_signed(text), text.parse::<isize>().ok(), "{text}");
    }
}

#[test]
fn numbers_are_written_as_by_the_standard_library() {
    for number in [0, 1, -1, 9, 10, 909, -1234567890, isize::MAX, isize::MIN] {
        let mut text = "n=".to_string();
        push_signed(&mut text, number);
        assert_eq!(text, format!("n={number}"));
    }
}
