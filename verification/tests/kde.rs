use exabind::key_event::KeyCode;
use exabind::key_event::MediaKeyCode;
use exabind::key_event::ModifierKeyCode;
use exabind::parser::kde::parse_key_code;
use exabind::parser::kde::parse_keystroke;
use exabind::parser::kde::parse_section_friendly_name;
use exabind::parser::kde::parse_section_header;
use exabind::parser::kde::parse_shortcut_record;
use exabind::parser::kde::parse_shortcuts;
use exabind::parser::kde::LineRecord;
use exabind::shortcut::Shortcut;

#[test]
fn test_shortcut() {
    let input = "ExposeClass=none,Ctrl+F7,Toggle Present Windows (Window class)";
    let res = parse_shortcut_record(input, 0);
    let (rec, pos) = res.expect("record expected");
    assert_eq!(
        rec,
        LineRecord::Shortcut {
            id: "ExposeClass".to_string(),
            shortcut: "none".to_string(),
            default_shortcut: "Ctrl+F7".to_string(),
            label: "Toggle Present Windows (Window class)".to_string(),
        }
    );
    assert_eq!(pos, input.chars().count());

    let input = "Switch to Desktop 10=none,,Switch to Desktop 10";
    let res = parse_shortcut_record(input, 0);
    let (rec, pos) = res.expect("record expected");
    assert_eq!(
        rec,
        LineRecord::Shortcut {
            id: "Switch to Desktop 10".to_string(),
            shortcut: "none".to_string(),
            default_shortcut: "".to_string(),
            label: "Switch to Desktop 10".to_string(),
        }
    );
    assert_eq!(pos, input.chars().count());
}

#[test]
fn test_section_header() {
    let input = "[section37]";
    let res = parse_section_header(input, 0);
    let (name, pos) = res.expect("header expected");
    assert_eq!(name, "section37");
    // the whole input is consumed
    assert_eq!(pos, input.chars().count());
}

#[test]
fn test_section_friendly_name() {
    let input = "_k_friendly_name=section 31 covert ops\n";
    let res = parse_section_friendly_name(input, 0);
    let (name, pos) = res.expect("friendly name expected");
    assert_eq!(name, "section 31 covert ops");
    // the final newline is not consumed
    assert_eq!(pos, input.chars().count() - 1);
}

#[test]
fn test_section_friendly_name_no_linebreak() {
    let input = "_k_friendly_name=section 31 covert ops";
    let res = parse_section_friendly_name(input, 0);
    let (name, pos) = res.expect("friendly name expected");
    assert_eq!(name, "section 31 covert ops");
    assert_eq!(pos, input.chars().count());
}

#[test]
fn test_key_code() {
    let input = "Ctrl+F7";
    let (key, pos) = parse_key_code(input, 0);
    assert_eq!(key, KeyCode::Modifier(ModifierKeyCode::LeftControl));
    // "+F7" remains
    assert_eq!(pos, 4);

    let input = "F12";
    let (key, pos) = parse_key_code(input, 0);
    assert_eq!(key, KeyCode::F(12));
    assert_eq!(pos, input.chars().count());

    let input = "Media Play";
    let (key, pos) = parse_key_code(input, 0);
    assert_eq!(key, KeyCode::Media(MediaKeyCode::Play));
    assert_eq!(pos, input.chars().count());

    let input = "Volume Down";
    let (key, pos) = parse_key_code(input, 0);
    assert_eq!(key, KeyCode::Media(MediaKeyCode::LowerVolume));
    assert_eq!(pos, input.chars().count());
}

#[test]
fn test_shortcut_keystroke() {
    let input = "Ctrl+F7";
    let (shortcut, _) = parse_keystroke(input, 0);
    assert_eq!(
        shortcut,
        Shortcut::new(vec![
            KeyCode::Modifier(ModifierKeyCode::LeftControl),
            KeyCode::F(7),
        ])
    );

    let input = "Ctrl+F7+Shift";
    let (shortcut, _) = parse_keystroke(input, 0);
    assert_eq!(
        shortcut,
        Shortcut::new(vec![
            KeyCode::Modifier(ModifierKeyCode::LeftControl),
            KeyCode::Modifier(ModifierKeyCode::LeftShift),
            KeyCode::F(7),
        ])
    );
}

#[test]
fn test_shortcut_with_multiple_bindings() {
    let input = "Meta+Down\\tVolume Down";
    let shortcuts = parse_shortcuts(input);
    assert_eq!(
        shortcuts,
        vec![
            Shortcut::new(vec![
                KeyCode::Modifier(ModifierKeyCode::LeftMeta),
                KeyCode::Down,
            ]),
            Shortcut::new(vec![KeyCode::Media(MediaKeyCode::LowerVolume)]),
        ]
    );

    let input = r#"Ctrl+\\\\\tMeta+0"#;
    let shortcuts = parse_shortcuts(input);
    assert_eq!(
        shortcuts,
        vec![
            Shortcut::new(vec![
                KeyCode::Modifier(ModifierKeyCode::LeftControl),
                KeyCode::Char('\\'),
            ]),
            Shortcut::new(vec![
                KeyCode::Modifier(ModifierKeyCode::LeftMeta),
                KeyCode::Char('0'),
            ]),
        ]
    );
}

#[test]
fn test_parse_shortcuts() {
    let input = "Ctrl+Alt+Esc\\tMeta+Alt+Down";
    let shortcuts = parse_shortcuts(input);
    assert_eq!(
        shortcuts,
        vec![
            Shortcut::new(vec![
                KeyCode::Modifier(ModifierKeyCode::LeftControl),
                KeyCode::Modifier(ModifierKeyCode::LeftAlt),
                KeyCode::Esc,
            ]),
            Shortcut::new(vec![
                KeyCode::Modifier(ModifierKeyCode::LeftMeta),
                KeyCode::Modifier(ModifierKeyCode::LeftAlt),
                KeyCode::Down,
            ]),
        ]
    );

    let input = "Meta+Ctrl+F";
    let shortcuts = parse_shortcuts(input);
    assert_eq!(
        shortcuts,
        vec![Shortcut::new(vec![
            KeyCode::Modifier(ModifierKeyCode::LeftMeta),
            KeyCode::Modifier(ModifierKeyCode::LeftControl),
            KeyCode::Char('f'),
        ])]
    );
}
