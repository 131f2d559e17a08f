use frustalz::antialiazing::{is_power_of_four, Antialiazing, AntialiazingError};
use frustalz::screen_dimensions::{DimensionsError, ScreenDimensions};
use frustalz::text::{char_is_whitespace, chars_of, find_char, parse_u32, trim_bounds};
use std::str::FromStr;

#[test]
fn power_of_four_accepts_the_powers() {
    assert!(is_power_of_four(1));
    assert!(is_power_of_four(4));
    assert!(is_power_of_four(16));
    assert!(is_power_of_four(64));
    assert!(is_power_of_four(1 << 30));
}

#[test]
fn power_of_four_refuses_the_rest() {
    assert!(!is_power_of_four(0));
    assert!(!is_power_of_four(2));
    assert!(!is_power_of_four(5));
    assert!(!is_power_of_four(8));
    assert!(!is_power_of_four(12));
    assert!(!is_power_of_four(1 << 31));
    assert!(!is_power_of_four(u32::MAX));
}

#[test]
fn power_of_four_agrees_with_the_bit_test() {
    for n in 0u32..70000 {
        let by_bits = n.count_ones() == 1 && n.trailing_zeros() % 2 == 0;
        assert_eq!(is_power_of_four(n), by_bits, "{}", n);
    }
    for shift in 0..32 {
        let n = 1u32 << shift;
        assert_eq!(is_power_of_four(n), shift % 2 == 0);
    }
}

#[test]
fn antialiazing_new_keeps_powers_of_four_only() {
    assert_eq!(Antialiazing::new(4).map(|a| a.get()), Some(4));
    assert_eq!(Antialiazing::new(1).map(|a| a.get()), Some(1));
    assert!(Antialiazing::new(0).is_none());
    assert!(Antialiazing::new(5).is_none());
    assert!(Antialiazing::new(32).is_none());
}

#[test]
fn antialiazing_converts_to_its_number() {
    let factor = Antialiazing::new(16).unwrap();
    assert_eq!(u32::from(factor), 16);
    let as_number: u32 = factor.into();
    assert_eq!(as_number, 16);
}

#[test]
fn antialiazing_parses_trimmed_numbers() {
    assert_eq!(Antialiazing::parse("4").map(|a| a.get()), Ok(4));
    assert_eq!(Antialiazing::parse("  16\n").map(|a| a.get()), Ok(16));
    assert_eq!(Antialiazing::parse("+64").map(|a| a.get()), Ok(64));
    assert_eq!(Antialiazing::parse("0004").map(|a| a.get()), Ok(4));
}

#[test]
fn antialiazing_parse_reports_each_error() {
    assert_eq!(Antialiazing::parse("5").map(|a| a.get()), Err(AntialiazingError::NotPowerOfFour));
    assert_eq!(Antialiazing::parse("0").map(|a| a.get()), Err(AntialiazingError::NotPowerOfFour));
    assert_eq!(Antialiazing::parse("").map(|a| a.get()), Err(AntialiazingError::InvalidNumber));
    assert_eq!(Antialiazing::parse("four").map(|a| a.get()), Err(AntialiazingError::InvalidNumber));
    assert_eq!(Antialiazing::parse("-4").map(|a| a.get()), Err(AntialiazingError::InvalidNumber));
    assert_eq!(Antialiazing::parse("4 4").map(|a| a.get()), Err(AntialiazingError::InvalidNumber));
    assert_eq!(
        Antialiazing::parse("4294967296").map(|a| a.get()),
        Err(AntialiazingError::InvalidNumber)
    );
}

#[test]
fn antialiazing_from_str_gives_the_messages() {
    assert_eq!(Antialiazing::from_str("16").map(|a| a.get()), Ok(16));
    assert_eq!(Antialiazing::from_str("x").map(|a| a.get()), Err("invalid number"));
    assert_eq!(Antialiazing::from_str("3").map(|a| a.get()), Err("number is not a power of 4"));
    assert_eq!(AntialiazingError::InvalidNumber.message(), "invalid number");
    assert_eq!(AntialiazingError::NotPowerOfFour.message(), "number is not a power of 4");
}

#[test]
fn antialiazing_parse_agrees_with_std() {
    for text in ["1", " 4 ", "+16", "007", "", "+", "-1", "1_0", "4294967295", "4294967296", "\u{a0}64\u{3000}"] {
        let expected = match text.trim().parse::<u32>() {
            Err(_) => Err(AntialiazingError::InvalidNumber),
            Ok(n) if n.count_ones() == 1 && n.trailing_zeros() % 2 == 0 => Ok(n),
            Ok(_) => Err(AntialiazingError::NotPowerOfFour),
        };
        assert_eq!(Antialiazing::parse(text).map(|a| a.get()), expected, "{:?}", text);
    }
}

#[test]
fn dimensions_parse_width_and_height() {
    assert_eq!(ScreenDimensions::parse("800x600").map(|d| d.as_tuple()), Ok((800, 600)));
    assert_eq!(ScreenDimensions::parse(" 1x1 ").map(|d| d.as_tuple()), Ok((1, 1)));
    assert_eq!(ScreenDimensions::parse("+3x+4").map(|d| d.as_tuple()), Ok((3, 4)));
    assert_eq!(
        ScreenDimensions::parse("4294967295x0001").map(|d| d.as_tuple()),
        Ok((4294967295, 1))
    );
}

#[test]
fn dimensions_parse_refuses_zero() {
    assert_eq!(ScreenDimensions::parse("0x5").map(|d| d.as_tuple()), Err(DimensionsError::Zero));
    assert_eq!(ScreenDimensions::parse("5x0").map(|d| d.as_tuple()), Err(DimensionsError::Zero));
    assert_eq!(ScreenDimensions::parse("0x0").map(|d| d.as_tuple()), Err(DimensionsError::Zero));
}

#[test]
fn dimensions_parse_refuses_a_missing_separator() {
    assert_eq!(
        ScreenDimensions::parse("800").map(|d| d.as_tuple()),
        Err(DimensionsError::InvalidFormat)
    );
    assert_eq!(ScreenDimensions::parse("").map(|d| d.as_tuple()), Err(DimensionsError::InvalidFormat));
    assert_eq!(
        ScreenDimensions::parse("800X600").map(|d| d.as_tuple()),
        Err(DimensionsError::InvalidFormat)
    );
}

#[test]
fn dimensions_parse_refuses_a_second_separator() {
    assert_eq!(
        ScreenDimensions::parse("1x2x3").map(|d| d.as_tuple()),
        Err(DimensionsError::InvalidFormat)
    );
    assert_eq!(
        ScreenDimensions::parse("axbx").map(|d| d.as_tuple()),
        Err(DimensionsError::InvalidFormat)
    );
}

#[test]
fn dimensions_parse_reports_width_before_height() {
    assert_eq!(
        ScreenDimensions::parse("x600").map(|d| d.as_tuple()),
        Err(DimensionsError::InvalidWidth)
    );
    assert_eq!(
        ScreenDimensions::parse("ax").map(|d| d.as_tuple()),
        Err(DimensionsError::InvalidWidth)
    );
    assert_eq!(
        ScreenDimensions::parse("800 x600").map(|d| d.as_tuple()),
        Err(DimensionsError::InvalidWidth)
    );
    assert_eq!(
        ScreenDimensions::parse("4294967296x1").map(|d| d.as_tuple()),
        Err(DimensionsError::InvalidWidth)
    );
    assert_eq!(
        ScreenDimensions::parse("800x").map(|d| d.as_tuple()),
        Err(DimensionsError::InvalidHeight)
    );
    assert_eq!(
        ScreenDimensions::parse("0x-5").map(|d| d.as_tuple()),
        Err(DimensionsError::InvalidHeight)
    );
}

#[test]
fn dimensions_from_str_gives_the_messages() {
    assert_eq!(ScreenDimensions::from_str("800x600").map(|d| d.as_tuple()), Ok((800, 600)));
    assert_eq!(ScreenDimensions::from_str("800").map(|d| d.as_tuple()), Err("invalid dimension format"));
    assert_eq!(ScreenDimensions::from_str("ax1").map(|d| d.as_tuple()), Err("invalid width"));
    assert_eq!(ScreenDimensions::from_str("1xb").map(|d| d.as_tuple()), Err("invalid height"));
    assert_eq!(ScreenDimensions::from_str("0x5").map(|d| d.as_tuple()), Err("dimensions cannot be zero"));
    assert_eq!(DimensionsError::Zero.message(), "dimensions cannot be zero");
}

#[test]
fn dimensions_as_tuple_gives_both_sides() {
    assert_eq!(ScreenDimensions(800, 600).as_tuple(), (800, 600));
    assert_eq!(ScreenDimensions(0, 7).as_tuple(), (0, 7));
}

#[test]
fn white_space_is_what_std_says() {
    for code in 0u32..0x11000 {
        if let Some(c) = char::from_u32(code) {
            assert_eq!(char_is_whitespace(c), c.is_whitespace(), "{:x}", code);
        }
    }
}

#[test]
fn trim_bounds_agree_with_std() {
    for text in ["", " ", "abc", "  abc", "abc  ", " a b ", "\t\n x \r\n", "\u{2003}\u{e9}\u{a0}"] {
        let chars = chars_of(text);
        assert_eq!(chars, text.chars().collect::<Vec<char>>());
        let (from, to) = trim_bounds(&chars);
        let kept: String = chars[from..to].iter().collect();
        assert_eq!(kept, text.trim(), "{:?}", text);
    }
}

#[test]
fn parse_u32_agrees_with_std() {
    for text in ["0", "7", "+7", "007", "", "+", "-7", "++7", "7+", "12a", "4294967295", "4294967296", "99999999999", "\u{663}"] {
        let chars = chars_of(text);
        assert_eq!(parse_u32(&chars, 0, chars.len()), text.parse::<u32>().ok(), "{:?}", text);
    }
    let chars = chars_of("ab123cd");
    assert_eq!(parse_u32(&chars, 2, 5), Some(123));
    assert_eq!(parse_u32(&chars, 2, 2), None);
}

#[test]
fn find_char_gives_the_first_position() {
    let chars = chars_of("10x20x30");
    assert_eq!(find_char(&chars, 0, chars.len(), 'x'), 2);
    assert_eq!(find_char(&chars, 3, chars.len(), 'x'), 5);
    assert_eq!(find_char(&chars, 6, chars.len(), 'x'), chars.len());
    assert_eq!(find_char(&chars, 0, 2, 'x'), 2);
}
