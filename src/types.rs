use vstd::prelude::*;
use vstd::string::*;

verus! {

/// A code that names no value of the type it was read as; it holds the code.
#[derive(Debug, PartialEq, Eq)]
pub enum ParseError {
    UnknownStyle(String),
    UnknownColor(String),
    UnknownBackground(String),
}

/// Display style of a rule.
#[derive(Debug, Clone, Copy, PartialEq, Eq, Structural)]
pub enum Style {
    Normal,
    Bold,
    Underscore,
    Blink,
    Reverse,
    Concealed,
}

/// The two-digit code of each style.
pub open spec fn style_code(s: Style) -> Seq<char> {
    match s {
        Style::Normal => seq!['0', '0'],
        Style::Bold => seq!['0', '1'],
        Style::Underscore => seq!['0', '4'],
        Style::Blink => seq!['0', '5'],
        Style::Reverse => seq!['0', '7'],
        Style::Concealed => seq!['0', '8'],
    }
}

/// The style whose code is exactly `c`, if any.
pub open spec fn parse_style(c: Seq<char>) -> Option<Style> {
    if c == style_code(Style::Normal) {
        Some(Style::Normal)
    } else if c == style_code(Style::Bold) {
        Some(Style::Bold)
    } else if c == style_code(Style::Underscore) {
        Some(Style::Underscore)
    } else if c == style_code(Style::Blink) {
        Some(Style::Blink)
    } else if c == style_code(Style::Reverse) {
        Some(Style::Reverse)
    } else if c == style_code(Style::Concealed) {
        Some(Style::Concealed)
    } else {
        None
    }
}

impl Style {
    /// Reads a style from its exact code.
    pub fn from_str(s: &str) -> (r: Result<Style, ParseError>)
        ensures
            match r {
                Ok(v) => parse_style(s@) == Some(v),
                Err(e) => parse_style(s@).is_none() && e is UnknownStyle && e->UnknownStyle_0@ == s@,
            },
    {
        if s.unicode_len() == 2 && s.get_char(0) == '0' {
            let c = s.get_char(1);
            proof {
                assert(s@ =~= seq!['0', c]);
            }
            if c == '0' {
                return Ok(Style::Normal);
            } else if c == '1' {
                return Ok(Style::Bold);
            } else if c == '4' {
                return Ok(Style::Underscore);
            } else if c == '5' {
                return Ok(Style::Blink);
            } else if c == '7' {
                return Ok(Style::Reverse);
            } else if c == '8' {
                return Ok(Style::Concealed);
            }
        }
        Err(ParseError::UnknownStyle(s.to_string()))
    }

    /// The two-digit code of this style.
    pub fn to_string(&self) -> (r: String)
        ensures
            r@ == style_code(*self),
    {
        let r = match self {
            Style::Normal => "00",
            Style::Bold => "01",
            Style::Underscore => "04",
            Style::Blink => "05",
            Style::Reverse => "07",
            Style::Concealed => "08",
        };
        proof {
            reveal_strlit("00");
            reveal_strlit("01");
            reveal_strlit("04");
            reveal_strlit("05");
            reveal_strlit("07");
            reveal_strlit("08");
        }
        String::from_str(r)
    }
}


/// Foreground colour of a rule.
#[derive(Debug, Clone, Copy, PartialEq, Eq, Structural)]
pub enum Color {
    Black,
    Red,
    Green,
    Yellow,
    Blue,
    Magenta,
    Cyan,
    White,
    BrightBlack,
    BrightRed,
    BrightGreen,
    BrightYellow,
    BrightBlue,
    BrightMagenta,
    BrightCyan,
    BrightWhite,
    /// Indexed palette entry; read but not rendered.
    _Ansi(u8),
    /// RGB triple; read but not rendered.
    _RGB(u8, u8, u8),
}

/// The code of each foreground colour; empty for the extended palette.
pub open spec fn color_code(c: Color) -> Seq<char> {
    match c {
        Color::Black => seq!['3', '0'],
        Color::Red => seq!['3', '1'],
        Color::Green => seq!['3', '2'],
        Color::Yellow => seq!['3', '3'],
        Color::Blue => seq!['3', '4'],
        Color::Magenta => seq!['3', '5'],
        Color::Cyan => seq!['3', '6'],
        Color::White => seq!['3', '7'],
        Color::BrightBlack => seq!['9', '0'],
        Color::BrightRed => seq!['9', '1'],
        Color::BrightGreen => seq!['9', '2'],
        Color::BrightYellow => seq!['9', '3'],
        Color::BrightBlue => seq!['9', '4'],
        Color::BrightMagenta => seq!['9', '5'],
        Color::BrightCyan => seq!['9', '6'],
        Color::BrightWhite => seq!['9', '7'],
        _ => Seq::empty(),
    }
}

/// The foreground colour at palette index `i` (0 to 7), plain or bright.
pub open spec fn color_at(i: int, bright: bool) -> Color {
    if bright {
        if i == 0 {
            Color::BrightBlack
        } else if i == 1 {
            Color::BrightRed
        } else if i == 2 {
            Color::BrightGreen
        } else if i == 3 {
            Color::BrightYellow
        } else if i == 4 {
            Color::BrightBlue
        } else if i == 5 {
            Color::BrightMagenta
        } else if i == 6 {
            Color::BrightCyan
        } else {
            Color::BrightWhite
        }
    } else {
        if i == 0 {
            Color::Black
        } else if i == 1 {
            Color::Red
        } else if i == 2 {
            Color::Green
        } else if i == 3 {
            Color::Yellow
        } else if i == 4 {
            Color::Blue
        } else if i == 5 {
            Color::Magenta
        } else if i == 6 {
            Color::Cyan
        } else {
            Color::White
        }
    }
}

/// Whether `d` is a palette digit, `0` to `7`.
pub open spec fn is_palette_digit(d: char) -> bool {
    '0' <= d && d <= '7'
}

/// The palette index that the digit `d` stands for.
pub open spec fn palette_index(d: char) -> int {
    d as int - '0' as int
}

/// The foreground colour whose code is exactly `c`, if any.
pub open spec fn parse_color(c: Seq<char>) -> Option<Color> {
    if c.len() == 2 && (c[0] == '3' || c[0] == '9') && is_palette_digit(c[1]) {
        Some(color_at(palette_index(c[1]), c[0] == '9'))
    } else {
        None
    }
}

impl Color {
    /// The color at palette index `i`, plain or bright.
    fn at(i: u8, bright: bool) -> (r: Color)
        requires
            i < 8,
        ensures
            r == color_at(i as int, bright),
    {
        if bright {
            match i {
                0 => Color::BrightBlack,
                1 => Color::BrightRed,
                2 => Color::BrightGreen,
                3 => Color::BrightYellow,
                4 => Color::BrightBlue,
                5 => Color::BrightMagenta,
                6 => Color::BrightCyan,
                _ => Color::BrightWhite,
            }
        } else {
            match i {
                0 => Color::Black,
                1 => Color::Red,
                2 => Color::Green,
                3 => Color::Yellow,
                4 => Color::Blue,
                5 => Color::Magenta,
                6 => Color::Cyan,
                _ => Color::White,
            }
        }
    }

    /// Reads a color from its exact code.
    pub fn from_str(s: &str) -> (r: Result<Color, ParseError>)
        ensures
            match r {
                Ok(v) => parse_color(s@) == Some(v),
                Err(e) => parse_color(s@).is_none() && e is UnknownColor && e->UnknownColor_0@ == s@,
            },
    {
        let n = s.unicode_len();
        if n == 2 {
            let c0 = s.get_char(0);
            let c1 = s.get_char(1);
            if (c0 == '3' || c0 == '9') && '0' <= c1 && c1 <= '7' {
                let i = (c1 as u32 - '0' as u32) as u8;
                return Ok(Color::at(i, c0 == '9'));
            }
        }
        Err(ParseError::UnknownColor(s.to_string()))
    }

    /// The code of this color; empty for the extended palette.
    pub fn to_string(&self) -> (r: String)
        ensures
            r@ == color_code(*self),
    {
        let r = match self {
            Color::Black => "30",
            Color::Red => "31",
            Color::Green => "32",
            Color::Yellow => "33",
            Color::Blue => "34",
            Color::Magenta => "35",
            Color::Cyan => "36",
            Color::White => "37",
            Color::BrightBlack => "90",
            Color::BrightRed => "91",
            Color::BrightGreen => "92",
            Color::BrightYellow => "93",
            Color::BrightBlue => "94",
            Color::BrightMagenta => "95",
            Color::BrightCyan => "96",
            Color::BrightWhite => "97",
            _ => "",
        };
        proof {
            reveal_strlit("30");
            reveal_strlit("31");
            reveal_strlit("32");
            reveal_strlit("33");
            reveal_strlit("34");
            reveal_strlit("35");
            reveal_strlit("36");
            reveal_strlit("37");
            reveal_strlit("90");
            reveal_strlit("91");
            reveal_strlit("92");
            reveal_strlit("93");
            reveal_strlit("94");
            reveal_strlit("95");
            reveal_strlit("96");
            reveal_strlit("97");
            reveal_strlit("");
        }
        String::from_str(r)
    }
}

/// Background colour of a rule.
#[derive(Debug, Clone, Copy, PartialEq, Eq, Structural)]
pub enum Background {
    Black,
    Red,
    Green,
    Yellow,
    Blue,
    Magenta,
    Cyan,
    White,
    BrightBlack,
    BrightRed,
    BrightGreen,
    BrightYellow,
    BrightBlue,
    BrightMagenta,
    BrightCyan,
    BrightWhite,
    /// Indexed palette entry; read but not rendered.
    _Ansi(u8),
    /// RGB triple; read but not rendered.
    _RGB(u8, u8, u8),
}

/// The code of each background colour; empty for the extended palette.
pub open spec fn background_code(c: Background) -> Seq<char> {
    match c {
        Background::Black => seq!['4', '0'],
        Background::Red => seq!['4', '1'],
        Background::Green => seq!['4', '2'],
        Background::Yellow => seq!['4', '3'],
        Background::Blue => seq!['4', '4'],
        Background::Magenta => seq!['4', '5'],
        Background::Cyan => seq!['4', '6'],
        Background::White => seq!['4', '7'],
        Background::BrightBlack => seq!['1', '0', '0'],
        Background::BrightRed => seq!['1', '0', '1'],
        Background::BrightGreen => seq!['1', '0', '2'],
        Background::BrightYellow => seq!['1', '0', '3'],
        Background::BrightBlue => seq!['1', '0', '4'],
        Background::BrightMagenta => seq!['1', '0', '5'],
        Background::BrightCyan => seq!['1', '0', '6'],
        Background::BrightWhite => seq!['1', '0', '7'],
        _ => Seq::empty(),
    }
}

/// The background colour at palette index `i` (0 to 7), plain or bright.
pub open spec fn background_at(i: int, bright: bool) -> Background {
    if bright {
        if i == 0 {
            Background::BrightBlack
        } else if i == 1 {
            Background::BrightRed
        } else if i == 2 {
            Background::BrightGreen
        } else if i == 3 {
            Background::BrightYellow
        } else if i == 4 {
            Background::BrightBlue
        } else if i == 5 {
            Background::BrightMagenta
        } else if i == 6 {
            Background::BrightCyan
        } else {
            Background::BrightWhite
        }
    } else {
        if i == 0 {
            Background::Black
        } else if i == 1 {
            Background::Red
        } else if i == 2 {
            Background::Green
        } else if i == 3 {
            Background::Yellow
        } else if i == 4 {
            Background::Blue
        } else if i == 5 {
            Background::Magenta
        } else if i == 6 {
            Background::Cyan
        } else {
            Background::White
        }
    }
}

/// The background colour whose code is exactly `c`, if any.
pub open spec fn parse_background(c: Seq<char>) -> Option<Background> {
    if c.len() == 2 && c[0] == '4' && is_palette_digit(c[1]) {
        Some(background_at(palette_index(c[1]), false))
    } else if c.len() == 3 && c[0] == '1' && c[1] == '0' && is_palette_digit(c[2]) {
        Some(background_at(palette_index(c[2]), true))
    } else {
        None
    }
}

impl Background {
    /// The background at palette index `i`, plain or bright.
    fn at(i: u8, bright: bool) -> (r: Background)
        requires
            i < 8,
        ensures
            r == background_at(i as int, bright),
    {
        if bright {
            match i {
                0 => Background::BrightBlack,
                1 => Background::BrightRed,
                2 => Background::BrightGreen,
                3 => Background::BrightYellow,
                4 => Background::BrightBlue,
                5 => Background::BrightMagenta,
                6 => Background::BrightCyan,
                _ => Background::BrightWhite,
            }
        } else {
            match i {
                0 => Background::Black,
                1 => Background::Red,
                2 => Background::Green,
                3 => Background::Yellow,
                4 => Background::Blue,
                5 => Background::Magenta,
                6 => Background::Cyan,
                _ => Background::White,
            }
        }
    }

    /// Reads a background from its exact code.
    pub fn from_str(s: &str) -> (r: Result<Background, ParseError>)
        ensures
            match r {
                Ok(v) => parse_background(s@) == Some(v),
                Err(e) => parse_background(s@).is_none() && e is UnknownBackground && e->UnknownBackground_0@ == s@,
            },
    {
        let n = s.unicode_len();
        if n == 2 {
            let c0 = s.get_char(0);
            let c1 = s.get_char(1);
            if c0 == '4' && '0' <= c1 && c1 <= '7' {
                let i = (c1 as u32 - '0' as u32) as u8;
                return Ok(Background::at(i, false));
            }
        } else if n == 3 {
            let c0 = s.get_char(0);
            let c1 = s.get_char(1);
            let c2 = s.get_char(2);
            if c0 == '1' && c1 == '0' && '0' <= c2 && c2 <= '7' {
                let i = (c2 as u32 - '0' as u32) as u8;
                return Ok(Background::at(i, true));
            }
        }
        Err(ParseError::UnknownBackground(s.to_string()))
    }

    /// The code of this background; empty for the extended palette.
    pub fn to_string(&self) -> (r: String)
        ensures
            r@ == background_code(*self),
    {
        let r = match self {
            Background::Black => "40",
            Background::Red => "41",
            Background::Green => "42",
            Background::Yellow => "43",
            Background::Blue => "44",
            Background::Magenta => "45",
            Background::Cyan => "46",
            Background::White => "47",
            Background::BrightBlack => "100",
            Background::BrightRed => "101",
            Background::BrightGreen => "102",
            Background::BrightYellow => "103",
            Background::BrightBlue => "104",
            Background::BrightMagenta => "105",
            Background::BrightCyan => "106",
            Background::BrightWhite => "107",
            _ => "",
        };
        proof {
            reveal_strlit("40");
            reveal_strlit("41");
            reveal_strlit("42");
            reveal_strlit("43");
            reveal_strlit("44");
            reveal_strlit("45");
            reveal_strlit("46");
            reveal_strlit("47");
            reveal_strlit("100");
            reveal_strlit("101");
            reveal_strlit("102");
            reveal_strlit("103");
            reveal_strlit("104");
            reveal_strlit("105");
            reveal_strlit("106");
            reveal_strlit("107");
            reveal_strlit("");
        }
        String::from_str(r)
    }
}

/// Whether `c` is one of the sixteen named foreground colours.
pub open spec fn is_named_color(c: Color) -> bool {
    !(c is _Ansi || c is _RGB)
}

/// Whether `b` is one of the sixteen named background colours.
pub open spec fn is_named_background(b: Background) -> bool {
    !(b is _Ansi || b is _RGB)
}

/// Reading the code of a style gives back that style.
pub proof fn lemma_style_round_trip(s: Style)
    ensures
        parse_style(style_code(s)) == Some(s),
{
}

/// Reading the code of a named foreground colour gives back that colour.
pub proof fn lemma_color_round_trip(c: Color)
    requires
        is_named_color(c),
    ensures
        parse_color(color_code(c)) == Some(c),
{
}

/// Reading the code of a named background colour gives back that colour.
pub proof fn lemma_background_round_trip(b: Background)
    requires
        is_named_background(b),
    ensures
        parse_background(background_code(b)) == Some(b),
{
}

} // verus!
