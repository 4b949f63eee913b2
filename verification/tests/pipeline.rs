use exabind::key_event::KeyCode;
use exabind::key_event::ModifierKeyCode;
use exabind::keymap::KeyMap;
use exabind::parser::kde::parse_document;
use exabind::parser::kde::parse_kglobalshortcuts;
use exabind::parser::kde::parse_shortcuts;
use exabind::shortcut::Action;
use exabind::shortcut::Shortcut;

fn sample_document() -> String {
    [
        "[kwin]",
        "_k_friendly_name=KWin",
        "ExposeClass=none,Ctrl+F7,Toggle Present Windows (Window class)",
        "Switch to Desktop 10=none,,Switch to Desktop 10",
        "Window Close=Alt+F4,Alt+F4,Close Window",
        "",
        "[media]",
        "_k_friendly_name=Media Controls",
        "play=Media Play,Media Play,Play media playback",
        "volume_down=Volume Down\\tMeta+Down,Volume Down,Lower Volume",
        "",
    ]
    .join("\n")
}

#[test]
fn parses_the_sample_document() {
    let keymap = parse_kglobalshortcuts(&sample_document()).expect("document should parse");
    assert_eq!(keymap.name, "KDE");

    let mut categories = keymap.categories();
    categories.sort();
    assert_eq!(
        categories,
        vec![("KWin".to_string(), 1), ("Media Controls".to_string(), 2)]
    );

    let kwin = keymap.actions_by_category("KWin");
    assert_eq!(kwin.len(), 1);
    assert_eq!(kwin[0].name(), "Close Window");
    assert_eq!(
        kwin[0].shortcuts()[0],
        Shortcut::new(vec![
            KeyCode::Modifier(ModifierKeyCode::LeftAlt),
            KeyCode::F(4),
        ])
    );

    let media = keymap.actions_by_category("Media Controls");
    assert_eq!(media.len(), 2);
    assert_eq!(media[0].name(), "Play media playback");
    assert_eq!(media[1].name(), "Lower Volume");
    // the tab escape yields two alternative shortcuts on one action
    assert_eq!(media[1].shortcuts().len(), 2);
}

// a record whose used shortcut field is `none` contributes no action, even
// though the default field holds a real binding
#[test]
fn none_binding_yields_no_action() {
    let input = "[s]\nExposeClass=none,Ctrl+F7,Toggle Present Windows (Window class)\n";
    let keymap = parse_kglobalshortcuts(input).expect("document should parse");
    assert_eq!(keymap.categories().len(), 0);
    assert!(keymap.actions_by_category("s").is_empty());
}

// a record with an empty shortcut field likewise contributes no action
#[test]
fn empty_binding_yields_no_action() {
    let input = "[s]\nSwitch to Desktop 10=none,,Switch to Desktop 10\n";
    let keymap = parse_kglobalshortcuts(input).expect("document should parse");
    assert_eq!(keymap.categories().len(), 0);
}

// every produced action holds at least one shortcut, and every category at
// least one action
#[test]
fn produced_keymap_is_complete() {
    let keymap = parse_kglobalshortcuts(&sample_document()).expect("document should parse");
    for (category, count) in keymap.categories() {
        let actions = keymap.actions_by_category(&category);
        assert_eq!(actions.len(), count);
        assert!(!actions.is_empty());
        for action in actions {
            assert!(!action.shortcuts().is_empty());
            for shortcut in action.shortcuts() {
                assert!(!shortcut.keystroke().is_empty());
            }
        }
    }
}

#[test]
fn record_before_any_header_is_fatal() {
    let input = "Window Close=Alt+F4,Alt+F4,Close Window\n[kwin]\n";
    assert!(parse_kglobalshortcuts(input).is_none());
}

#[test]
fn unparseable_remainder_is_fatal() {
    // the last line has no '=' and cannot be a record
    let input = "[kwin]\nWindow Close=Alt+F4,Alt+F4,Close Window\njunk without equals\n";
    assert!(parse_kglobalshortcuts(input).is_none());
    // a shortcut record missing its second comma is no record either
    let input = "[kwin]\nWindow Close=Alt+F4,Alt+F4 Close Window\n";
    assert!(parse_kglobalshortcuts(input).is_none());
    // an unterminated header swallows the line as a shortcut id; without a
    // '=' anywhere after it, the document fails
    let input = "[kwin\n";
    assert!(parse_kglobalshortcuts(input).is_none());
}

#[test]
fn unknown_vocabulary_degrades_gracefully() {
    let input = "[s]\na=Ctrl+Wobble,none,Do A\n";
    let keymap = parse_kglobalshortcuts(input).expect("document should parse");
    // the unknown token is dropped; Ctrl alone remains
    let actions = keymap.actions_by_category("s");
    assert_eq!(actions.len(), 1);
    assert_eq!(
        actions[0].shortcuts()[0],
        Shortcut::new(vec![KeyCode::Modifier(ModifierKeyCode::LeftControl)])
    );
}

#[test]
fn friendly_name_overrides_header() {
    let input = "[internal]\n_k_friendly_name=Pretty\na=Ctrl+X,none,Do A\n";
    let keymap = parse_kglobalshortcuts(input).expect("document should parse");
    assert_eq!(keymap.categories(), vec![("Pretty".to_string(), 1)]);
    assert!(keymap.actions_by_category("internal").is_empty());
}

// two sections resolving to the same label merge into one category, the
// later section's actions following the earlier section's
#[test]
fn equal_category_labels_merge() {
    let input = "[s]\na=Ctrl+A,none,Do A\n[t]\n_k_friendly_name=s\nb=Ctrl+B,none,Do B\n";
    let keymap = parse_kglobalshortcuts(input).expect("document should parse");
    assert_eq!(keymap.categories(), vec![("s".to_string(), 2)]);
    let actions = keymap.actions_by_category("s");
    assert_eq!(actions[0].name(), "Do A");
    assert_eq!(actions[1].name(), "Do B");
}

#[test]
fn blank_lines_are_skipped() {
    let input = "\n   \n[s]\n\na=Ctrl+A,none,Do A\n\n   \n";
    let keymap = parse_kglobalshortcuts(input).expect("document should parse");
    assert_eq!(keymap.categories(), vec![("s".to_string(), 1)]);
}

#[test]
fn empty_document_yields_empty_keymap() {
    let keymap = parse_kglobalshortcuts("").expect("empty document should parse");
    assert_eq!(keymap.categories().len(), 0);
    assert!(keymap.actions().is_empty());
}

#[test]
fn document_records_in_order() {
    let input = "[s]\n_k_friendly_name=S\na=Ctrl+A,none,Do A\n";
    let records = parse_document(input).expect("document should parse");
    assert_eq!(records.len(), 3);
}

// a synthetically generated document reproduces the category, action and
// shortcut structure of the model it was generated from
#[test]
fn round_trip_of_generated_document() {
    let model: Vec<(&str, Vec<(&str, Vec<&str>)>)> = vec![
        (
            "System",
            vec![
                ("Lock Screen", vec!["Meta+l"]),
                ("Log Out", vec!["Ctrl+Alt+Del", "Meta+q"]),
            ],
        ),
        ("Media", vec![("Play", vec!["Media Play"])]),
    ];

    // generate: headers + friendly names + shortcut records
    let mut doc = String::new();
    for (idx, (category, actions)) in model.iter().enumerate() {
        doc.push_str(&format!("[section{}]\n", idx));
        doc.push_str(&format!("_k_friendly_name={}\n", category));
        for (aidx, (label, bindings)) in actions.iter().enumerate() {
            doc.push_str(&format!(
                "k{}={},none,{}\n",
                aidx,
                bindings.join("\\t"),
                label
            ));
        }
    }

    let keymap = parse_kglobalshortcuts(&doc).expect("generated document should parse");

    assert_eq!(keymap.categories().len(), model.len());
    for (category, actions) in model {
        let parsed = keymap.actions_by_category(category);
        assert_eq!(parsed.len(), actions.len());
        for (action, (label, bindings)) in parsed.iter().zip(actions) {
            assert_eq!(action.name(), label);
            let expected: Vec<Shortcut> = bindings
                .iter()
                .flat_map(|b| parse_shortcuts(b))
                .collect();
            assert_eq!(action.shortcuts(), &expected[..]);
        }
    }
}

#[test]
fn keymap_queries() {
    let a = Action::new_filter_empty(
        "Do A",
        "s",
        vec![Shortcut::new(vec![KeyCode::Char('a')])],
    );
    let keymap = KeyMap::new("test", vec![("s".to_string(), vec![a])]);
    assert_eq!(keymap.categories(), vec![("s".to_string(), 1)]);
    assert_eq!(keymap.actions_by_category("s").len(), 1);
    // an unknown category is an empty sequence, never an error
    assert!(keymap.actions_by_category("nowhere").is_empty());
    assert_eq!(keymap.actions().len(), 1);
    assert_eq!(keymap.category_map().len(), 1);
}
