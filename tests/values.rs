use ls_colors_editor::{Background, Color, ParseError, Style};

#[test]
fn style_codes_read_back() {
    let all = [
        Style::Normal,
        Style::Bold,
        Style::Underscore,
        Style::Blink,
        Style::Reverse,
        Style::Concealed,
    ];
    for s in all {
        assert_eq!(Style::from_str(&s.to_string()), Ok(s));
    }
    assert_eq!(Style::Bold.to_string(), "01");
    assert_eq!(Style::Concealed.to_string(), "08");
}

#[test]
fn style_rejects_unknown_codes() {
    assert_eq!(Style::from_str("02"), Err(ParseError::UnknownStyle("02".to_string())));
    assert_eq!(Style::from_str("1"), Err(ParseError::UnknownStyle("1".to_string())));
    assert_eq!(Style::from_str(" 01"), Err(ParseError::UnknownStyle(" 01".to_string())));
    assert_eq!(Style::from_str(""), Err(ParseError::UnknownStyle(String::new())));
}

#[test]
fn color_codes_read_back() {
    let all = [
        Color::Black,
        Color::Red,
        Color::Green,
        Color::Yellow,
        Color::Blue,
        Color::Magenta,
        Color::Cyan,
        Color::White,
        Color::BrightBlack,
        Color::BrightRed,
        Color::BrightGreen,
        Color::BrightYellow,
        Color::BrightBlue,
        Color::BrightMagenta,
        Color::BrightCyan,
        Color::BrightWhite,
    ];
    for c in all {
        assert_eq!(Color::from_str(&c.to_string()), Ok(c));
    }
    assert_eq!(Color::Red.to_string(), "31");
    assert_eq!(Color::BrightWhite.to_string(), "97");
    assert_eq!(Color::from_str("94"), Ok(Color::BrightBlue));
    assert_eq!(Color::from_str("38"), Err(ParseError::UnknownColor("38".to_string())));
    assert_eq!(Color::from_str("41"), Err(ParseError::UnknownColor("41".to_string())));
}

#[test]
fn background_codes_read_back() {
    let all = [
        Background::Black,
        Background::Red,
        Background::Green,
        Background::Yellow,
        Background::Blue,
        Background::Magenta,
        Background::Cyan,
        Background::White,
        Background::BrightBlack,
        Background::BrightRed,
        Background::BrightGreen,
        Background::BrightYellow,
        Background::BrightBlue,
        Background::BrightMagenta,
        Background::BrightCyan,
        Background::BrightWhite,
    ];
    for b in all {
        assert_eq!(Background::from_str(&b.to_string()), Ok(b));
    }
    assert_eq!(Background::Blue.to_string(), "44");
    assert_eq!(Background::BrightRed.to_string(), "101");
    assert_eq!(Background::from_str("107"), Ok(Background::BrightWhite));
    assert_eq!(Background::from_str("108"), Err(ParseError::UnknownBackground("108".to_string())));
}

#[test]
fn extended_palette_renders_empty() {
    assert_eq!(Color::_Ansi(5).to_string(), "");
    assert_eq!(Color::_RGB(1, 2, 3).to_string(), "");
    assert_eq!(Background::_Ansi(200).to_string(), "");
}
