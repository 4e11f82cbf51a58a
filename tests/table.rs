use ls_colors_editor::{
    add_action, create_ls_string, parse_command, parse_values, preview_lines, remove_action, set_action, Command,
    Background, Color, ColorMap, CommandError, LsItem, Style,
};

fn parsed(s: &str) -> ColorMap {
    let mut m = ColorMap::default();
    m.parse_env_string(s.to_string()).unwrap();
    m
}

fn codes(m: &ColorMap, k: &str) -> (Option<Style>, Option<Color>, Option<Background>) {
    let i = m.get(k).unwrap();
    (i.style, i.color, i.bg)
}

#[test]
fn default_table_has_builtins() {
    let m = ColorMap::default();
    assert_eq!(m.len(), 20);
    let di = m.get("di").unwrap();
    assert_eq!(di.description, "directory");
    assert_eq!(di.order, 4);
    assert_eq!(m.get("bd").unwrap().order, 15);
    assert_eq!((di.style, di.color, di.bg), (None, None, None));
    assert_eq!(
        create_ls_string(&m),
        "rs=:ca=:cd=:di=:do=:ex=:fi=:ln=:mh=:mi=:no=:or=:ow=:pi=:bd=:sg=:so=:st=:su=:tw="
    );
}

#[test]
fn parse_sample_string() {
    let m = parsed("di=01;34:*.tar=01;31");
    assert_eq!(codes(&m, "di"), (Some(Style::Bold), Some(Color::Blue), None));
    assert_eq!(codes(&m, "*.tar"), (Some(Style::Bold), Some(Color::Red), None));
    let tar = m.get("*.tar").unwrap();
    assert_eq!(tar.order, 21);
    assert_eq!(tar.description, "file extension: *.tar");
    assert_eq!(m.len(), 21);
}

#[test]
fn serialize_sample_table() {
    let m = parsed("di=01;34:*.tar=01;31");
    let s = create_ls_string(&m);
    let parts: Vec<&str> = s.split(':').collect();
    assert!(parts.contains(&"di=01;34"));
    assert!(parts.contains(&"*.tar=01;31"));
    assert!(s.ends_with(":tw=:*.tar=01;31"));
}

#[test]
fn parse_bright_and_background_codes() {
    let m = parsed("ex=01;92;104:ln=44;36:fi=00:");
    assert_eq!(codes(&m, "ex"), (Some(Style::Bold), Some(Color::BrightGreen), Some(Background::BrightBlue)));
    assert_eq!(codes(&m, "ln"), (None, Some(Color::Cyan), Some(Background::Blue)));
    assert_eq!(codes(&m, "fi"), (Some(Style::Normal), None, None));
}

#[test]
fn parse_degrades_unknown_codes() {
    let m = parsed("di=02;39;48:*.x=38;5;123");
    assert_eq!(codes(&m, "di"), (None, None, None));
    assert_eq!(codes(&m, "*.x"), (None, None, None));
}

#[test]
fn parse_rejects_segment_without_equals() {
    let mut m = ColorMap::default();
    let r = m.parse_env_string("di=01:oops:fi=31".to_string());
    assert_eq!(r.unwrap_err().segment, "oops");
    assert_eq!(codes(&m, "di"), (None, None, None));
}

#[test]
fn parse_values_classifies_by_first_digit() {
    assert_eq!(parse_values("01;34"), (Some("01"), Some("34"), None));
    assert_eq!(parse_values("44;01"), (Some("01"), None, Some("44")));
    assert_eq!(parse_values("101;95"), (None, Some("95"), Some("101")));
    assert_eq!(parse_values("01;31;41;32"), (Some("01"), Some("31"), Some("41;32")));
    assert_eq!(parse_values("x;;"), (None, None, None));
}

#[test]
fn set_keeps_other_fields() {
    let mut m = parsed("di=01;34:*.tar=01;31");
    assert!(set_action(&mut m, "di", "color", "31").is_ok());
    assert_eq!(codes(&m, "di"), (Some(Style::Bold), Some(Color::Red), None));
    assert_eq!(m.get("di").unwrap().order, 4);
    assert!(set_action(&mut m, "*.tar", "bg", "100").is_ok());
    assert_eq!(codes(&m, "*.tar"), (Some(Style::Bold), Some(Color::Red), Some(Background::BrightBlack)));
}

#[test]
fn set_unknown_key_fails() {
    let mut m = parsed("di=01;34:*.tar=01;31");
    let before = create_ls_string(&m);
    assert!(matches!(set_action(&mut m, "zz", "color", "31"), Err(CommandError::UnknownKey(_))));
    assert_eq!(create_ls_string(&m), before);
}

#[test]
fn set_bad_field_or_value_fails() {
    let mut m = parsed("di=01;34");
    assert!(matches!(set_action(&mut m, "di", "colour", "31"), Err(CommandError::InvalidField(_))));
    assert!(matches!(set_action(&mut m, "di", "color", "41"), Err(CommandError::InvalidCodeValue(_))));
    assert_eq!(codes(&m, "di"), (Some(Style::Bold), Some(Color::Blue), None));
}

#[test]
fn add_duplicate_fails() {
    let mut m = parsed("di=01;34:*.tar=01;31");
    let before = create_ls_string(&m);
    assert!(matches!(add_action(&mut m, "*.tar", "color", "32"), Err(CommandError::DuplicateKey(_))));
    assert_eq!(create_ls_string(&m), before);
}

#[test]
fn add_builtin_key_fails() {
    let mut m = ColorMap::default();
    let before = create_ls_string(&m);
    assert!(matches!(add_action(&mut m, "fi", "color", "31"), Err(CommandError::DuplicateKey(_))));
    assert!(matches!(
        add_action(&mut m, "zz", "color", "31"),
        Err(CommandError::InvalidExtensionFormat(_))
    ));
    assert_eq!(create_ls_string(&m), before);
    assert_eq!(m.len(), 20);
}

#[test]
fn add_extension_appends() {
    let mut m = ColorMap::default();
    assert!(add_action(&mut m, "*.rs", "bg", "42").is_ok());
    let it: &LsItem = m.get("*.rs").unwrap();
    assert_eq!((it.style, it.color, it.bg), (None, None, Some(Background::Green)));
    assert_eq!(it.order, 21);
    assert_eq!(it.description, "file extension: *.rs");
    assert!(create_ls_string(&m).ends_with(":tw=:*.rs=42"));
    assert!(matches!(add_action(&mut m, "*.md", "bold", "01"), Err(CommandError::InvalidField(_))));
    assert!(matches!(add_action(&mut m, "*.md", "style", "09"), Err(CommandError::InvalidCodeValue(_))));
    assert_eq!(m.len(), 21);
}

#[test]
fn remove_extension_deletes() {
    let mut m = parsed("di=01;34:*.tar=01;31");
    assert!(remove_action(&mut m, "*.tar").is_ok());
    assert!(m.get("*.tar").is_none());
    assert_eq!(m.len(), 20);
    assert!(matches!(remove_action(&mut m, "*.tar"), Err(CommandError::NothingToRemove(_))));
}

#[test]
fn remove_builtin_clears() {
    let mut m = parsed("di=01;34:*.tar=01;31");
    assert!(remove_action(&mut m, "di").is_ok());
    assert_eq!(codes(&m, "di"), (None, None, None));
    assert_eq!(m.len(), 21);
    assert_eq!(m.get("di").unwrap().description, "directory");
    assert!(matches!(remove_action(&mut m, "zz"), Err(CommandError::UnknownKey(_))));
}

#[test]
fn round_trip_is_stable() {
    let mut m = parsed("di=01;34:*.tar=01;31:ex=01;32:*.a=90:*.b=44");
    set_action(&mut m, "fi", "bg", "103").unwrap();
    remove_action(&mut m, "*.tar").unwrap();
    add_action(&mut m, "*.c", "style", "05").unwrap();
    let s = create_ls_string(&m);
    let again = create_ls_string(&parsed(&s));
    assert_eq!(again, s);
}

#[test]
fn item_text_forms() {
    let m = parsed("di=01;34;101");
    let di = m.get("di").unwrap();
    assert_eq!(di.make_color_id(), "01;34;101");
    assert_eq!(di.to_string(), "01;34;101");
    assert_eq!(di.display_colors_values(), "01;     34;    101");
    assert_eq!(di.color_helper("x"), "\x1b[01;34;101mx\x1b[0m");
    assert_eq!(di._preview(), "\x1b[01;34;101mdirectory\x1b[0m");
    let fi = m.get("fi").unwrap();
    assert_eq!(fi.display_colors_values(), "--;     --;     --");
}

#[test]
fn preview_groups_extensions() {
    let m = parsed("rs=0:di=01;34:*.a=31:*.b=31:*.c=32");
    let lines = preview_lines(&m);
    assert_eq!(lines.len(), 20 + 2);
    assert_eq!(lines[0], "--;     --;     -- : [rs] \x1b[mreset to no color\x1b[0m");
    assert_eq!(lines[3], "01;     34;     -- : [di] \x1b[01;34mdirectory\x1b[0m");
    assert_eq!(lines[20], "--;     31;     -- : \x1b[31m*.a;*.b\x1b[0m");
    assert_eq!(lines[21], "--;     32;     -- : [*.c] \x1b[32mfile extension: *.c\x1b[0m");
}

#[test]
fn preview_wraps_long_groups() {
    let mut s = String::new();
    for i in 0..15 {
        s.push_str(&format!("*.e{}=31:", i));
    }
    let m = parsed(&s);
    let lines = preview_lines(&m);
    assert_eq!(lines.len(), 20 + 2);
    let first: Vec<String> = (0..13).map(|i| format!("*.e{}", i)).collect();
    assert_eq!(lines[20], format!("--;     31;     -- : \x1b[31m{}\x1b[0m", first.join(";")));
    let rest = "*.e13;*.e14";
    assert_eq!(lines[21], format!("{:>w$}", format!("\x1b[31m{}\x1b[0m", rest), w = rest.len() + 33));
}

#[test]
fn commands_are_read_from_lines() {
    assert!(matches!(parse_command("help"), Command::Help));
    assert!(matches!(parse_command("quit"), Command::Quit));
    assert!(matches!(parse_command("view"), Command::View));
    assert!(matches!(parse_command("export"), Command::Export));
    match parse_command("set fi color 31") {
        Command::SetCode(k, f, v) => assert_eq!((k.as_str(), f.as_str(), v.as_str()), ("fi", "color", "31")),
        other => panic!("unexpected {:?}", other),
    }
    match parse_command("add *.rs bg 42") {
        Command::AddRule(k, f, v) => assert_eq!((k.as_str(), f.as_str(), v.as_str()), ("*.rs", "bg", "42")),
        other => panic!("unexpected {:?}", other),
    }
    match parse_command("remove *.rs") {
        Command::RemoveRule(k) => assert_eq!(k, "*.rs"),
        other => panic!("unexpected {:?}", other),
    }
    match parse_command("frobnicate") {
        Command::UnknownSingle(w) => assert_eq!(w, "frobnicate"),
        other => panic!("unexpected {:?}", other),
    }
    assert!(matches!(parse_command("set fi color"), Command::Unrecognized(_)));
    assert!(matches!(parse_command("help "), Command::Unrecognized(_)));
    assert!(matches!(parse_command("move a b c"), Command::Unrecognized(_)));
}
