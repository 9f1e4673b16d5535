use pixelsynth::{parse_colors, Color, ConfigError};

#[test]
fn parses_three_channels() {
    assert_eq!(Color::parse("255:0:0"), Ok(Color { red: 255, green: 0, blue: 0 }));
    assert_eq!(Color::parse("0:255:0"), Ok(Color { red: 0, green: 255, blue: 0 }));
    assert_eq!(Color::parse("1:2:3"), Ok(Color { red: 1, green: 2, blue: 3 }));
    assert_eq!(Color::parse("12:34:56"), Ok(Color { red: 12, green: 34, blue: 56 }));
}

#[test]
fn parses_bytes_like_text() {
    assert_eq!(Color::parse_bytes(b"9:80:200"), Ok(Color { red: 9, green: 80, blue: 200 }));
    assert_eq!(Color::parse_bytes(b"9:80"), Err(ConfigError::MalformedColor));
}

#[test]
fn accepts_the_channel_bounds() {
    assert_eq!(Color::parse("0:0:0"), Ok(Color { red: 0, green: 0, blue: 0 }));
    assert_eq!(Color::parse("255:255:255"), Ok(Color { red: 255, green: 255, blue: 255 }));
}

#[test]
fn accepts_leading_zeros_and_plus_signs() {
    assert_eq!(Color::parse("007:000:0255"), Ok(Color { red: 7, green: 0, blue: 255 }));
    assert_eq!(Color::parse("+1:+20:+255"), Ok(Color { red: 1, green: 20, blue: 255 }));
    assert_eq!(
        Color::parse("00000000000000000000000000001:2:3"),
        Ok(Color { red: 1, green: 2, blue: 3 })
    );
}

#[test]
fn rejects_channels_above_255() {
    assert_eq!(Color::parse("256:0:0"), Err(ConfigError::ChannelOutOfRange));
    assert_eq!(Color::parse("0:300:0"), Err(ConfigError::ChannelOutOfRange));
    assert_eq!(Color::parse("0:0:999"), Err(ConfigError::ChannelOutOfRange));
    assert_eq!(
        Color::parse("99999999999999999999999999999999999:0:0"),
        Err(ConfigError::ChannelOutOfRange)
    );
    assert_eq!(Color::parse("+256:1:1"), Err(ConfigError::ChannelOutOfRange));
}

#[test]
fn rejects_a_wrong_number_of_fields() {
    assert_eq!(Color::parse(""), Err(ConfigError::MalformedColor));
    assert_eq!(Color::parse("1"), Err(ConfigError::MalformedColor));
    assert_eq!(Color::parse("1:2"), Err(ConfigError::MalformedColor));
    assert_eq!(Color::parse("1:2:3:4"), Err(ConfigError::MalformedColor));
    assert_eq!(Color::parse("1:2:3:"), Err(ConfigError::MalformedColor));
    assert_eq!(Color::parse(":1:2:3"), Err(ConfigError::MalformedColor));
}

#[test]
fn rejects_fields_that_are_not_numbers() {
    assert_eq!(Color::parse("::"), Err(ConfigError::MalformedColor));
    assert_eq!(Color::parse("1::3"), Err(ConfigError::MalformedColor));
    assert_eq!(Color::parse("a:b:c"), Err(ConfigError::MalformedColor));
    assert_eq!(Color::parse("1:2:3x"), Err(ConfigError::MalformedColor));
    assert_eq!(Color::parse(" 1:2:3"), Err(ConfigError::MalformedColor));
    assert_eq!(Color::parse("1:2:3 "), Err(ConfigError::MalformedColor));
    assert_eq!(Color::parse("-1:2:3"), Err(ConfigError::MalformedColor));
    assert_eq!(Color::parse("+:2:3"), Err(ConfigError::MalformedColor));
    assert_eq!(Color::parse("++1:2:3"), Err(ConfigError::MalformedColor));
    assert_eq!(Color::parse("1+:2:3"), Err(ConfigError::MalformedColor));
    assert_eq!(Color::parse("1.0:2:3"), Err(ConfigError::MalformedColor));
    assert_eq!(Color::parse("0x10:2:3"), Err(ConfigError::MalformedColor));
    assert_eq!(Color::parse("1,2,3"), Err(ConfigError::MalformedColor));
    assert_eq!(Color::parse("\u{ff11}:2:3"), Err(ConfigError::MalformedColor));
}

#[test]
fn a_malformed_field_outweighs_a_channel_out_of_range() {
    assert_eq!(Color::parse("999:x:1"), Err(ConfigError::MalformedColor));
    assert_eq!(Color::parse("x:999:1"), Err(ConfigError::MalformedColor));
    assert_eq!(Color::parse("999:1:"), Err(ConfigError::MalformedColor));
    assert_eq!(Color::parse("999:1:2:3"), Err(ConfigError::MalformedColor));
    assert_eq!(Color::parse("999x:1:2"), Err(ConfigError::MalformedColor));
}

#[test]
fn parses_a_list_in_order() {
    let texts: Vec<String> =
        vec!["255:0:0".to_string(), "0:255:0".to_string(), "0:0:255".to_string()];
    assert_eq!(
        parse_colors(&texts),
        Ok(vec![
            Color { red: 255, green: 0, blue: 0 },
            Color { red: 0, green: 255, blue: 0 },
            Color { red: 0, green: 0, blue: 255 },
        ])
    );
}

#[test]
fn parses_an_empty_list() {
    let texts: Vec<String> = Vec::new();
    assert_eq!(parse_colors(&texts), Ok(Vec::new()));
}

#[test]
fn a_list_fails_with_its_first_bad_text() {
    let texts: Vec<String> = vec!["1:2:3".to_string(), "4:5:600".to_string(), "oops".to_string()];
    assert_eq!(parse_colors(&texts), Err(ConfigError::ChannelOutOfRange));
    let texts: Vec<String> = vec!["1:2:3".to_string(), "oops".to_string(), "4:5:600".to_string()];
    assert_eq!(parse_colors(&texts), Err(ConfigError::MalformedColor));
}
