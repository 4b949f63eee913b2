use exabind::context::KeyMapContext;
use exabind::display::format_keycode;
use exabind::key_event::supplant_key_code;
use exabind::key_event::KeyCode;
use exabind::key_event::KeyEvent;
use exabind::key_event::KeyModifiers;
use exabind::key_event::MediaKeyCode;
use exabind::key_event::ModifierKeyCode;
use exabind::parser::kde::parse_kglobalshortcuts;
use exabind::shortcut::Action;
use exabind::shortcut::Shortcut;

// canonicalizing an already-canonical token list yields the same list
#[test]
fn canonicalization_is_idempotent() {
    let tokens = vec![
        KeyCode::F(7),
        KeyCode::Modifier(ModifierKeyCode::LeftShift),
        KeyCode::Modifier(ModifierKeyCode::LeftControl),
        KeyCode::Modifier(ModifierKeyCode::LeftShift),
        KeyCode::Char('x'),
    ];
    let once = Shortcut::new(tokens);
    let twice = Shortcut::new(once.keystroke().to_vec());
    assert_eq!(once, twice);
}

// modifiers come first, deduplicated, in the fixed global precedence order
#[test]
fn canonicalization_orders_modifiers() {
    let shortcut = Shortcut::new(vec![
        KeyCode::Char('x'),
        KeyCode::Modifier(ModifierKeyCode::RightShift),
        KeyCode::Modifier(ModifierKeyCode::LeftControl),
        KeyCode::Modifier(ModifierKeyCode::IsoLevel3Shift),
        KeyCode::Modifier(ModifierKeyCode::LeftControl),
        KeyCode::Modifier(ModifierKeyCode::LeftMeta),
    ]);
    assert_eq!(
        shortcut.keystroke(),
        &[
            KeyCode::Modifier(ModifierKeyCode::IsoLevel3Shift),
            KeyCode::Modifier(ModifierKeyCode::LeftMeta),
            KeyCode::Modifier(ModifierKeyCode::LeftControl),
            KeyCode::Modifier(ModifierKeyCode::RightShift),
            KeyCode::Char('x'),
        ][..]
    );
}

#[test]
fn shortcut_uses_modifier() {
    let shortcut = Shortcut::new(vec![
        KeyCode::Modifier(ModifierKeyCode::LeftControl),
        KeyCode::Char('x'),
    ]);
    assert!(shortcut.uses_modifier(ModifierKeyCode::LeftControl));
    assert!(!shortcut.uses_modifier(ModifierKeyCode::LeftAlt));
}

#[test]
fn action_filters_empty_shortcuts() {
    // only empty keystrokes are dropped here; the unrecognized sentinel is
    // the tokenizer's concern and passes through untouched
    let action = Action::new_filter_empty(
        "Do A",
        "s",
        vec![
            Shortcut::new(vec![]),
            Shortcut::new(vec![KeyCode::Char('a')]),
            Shortcut::new(vec![KeyCode::Null]),
        ],
    );
    assert_eq!(action.shortcuts().len(), 2);
    assert_eq!(action.name(), "Do A");
    assert_eq!(action.category(), "s");
    assert!(action.is_bound());
}

#[test]
fn action_update_category() {
    let mut action = Action::new("Do A", vec![Shortcut::new(vec![KeyCode::Char('a')])]);
    assert_eq!(action.category(), "");
    action.update_category("elsewhere");
    assert_eq!(action.category(), "elsewhere");
    assert_eq!(action.name(), "Do A");
}

#[test]
fn format_keycode_labels() {
    assert_eq!(format_keycode(KeyCode::F(7)), "F7");
    assert_eq!(format_keycode(KeyCode::F(12)), "F12");
    assert_eq!(format_keycode(KeyCode::Char('f')), "F");
    assert_eq!(format_keycode(KeyCode::Char(' ')), "\u{2423}");
    assert_eq!(format_keycode(KeyCode::Esc), "ESC");
    assert_eq!(format_keycode(KeyCode::Left), "\u{2190}");
    assert_eq!(
        format_keycode(KeyCode::Modifier(ModifierKeyCode::LeftControl)),
        "CTRL"
    );
    assert_eq!(
        format_keycode(KeyCode::Media(MediaKeyCode::RaiseVolume)),
        "\u{1f50a}"
    );
}

#[test]
fn supplant_shifted_characters() {
    assert_eq!(supplant_key_code(KeyCode::Char('!')), KeyCode::Char('1'));
    assert_eq!(supplant_key_code(KeyCode::Char('|')), KeyCode::Char('\\'));
    assert_eq!(supplant_key_code(KeyCode::Char('a')), KeyCode::Char('a'));
    assert_eq!(supplant_key_code(KeyCode::Esc), KeyCode::Esc);
}

#[test]
fn key_event_construction() {
    let event = KeyEvent::new(KeyCode::Char('a'), KeyModifiers::empty());
    assert_eq!(event.code, KeyCode::Char('a'));
    assert_eq!(event.modifiers.bits, 0);
}

fn sample_context() -> KeyMapContext {
    let input = "[a]\nx=Ctrl+X,none,Cut\ny=Shift+V,none,Paste Special\n[b]\nz=Meta+Z,none,Zoom\n";
    let keymap = parse_kglobalshortcuts(input).expect("document should parse");
    KeyMapContext::new(keymap)
}

#[test]
fn context_category_navigation() {
    let mut context = sample_context();
    assert_eq!(context.category(), None);
    context.next_category();
    assert_eq!(context.category(), Some("a"));
    context.next_category();
    assert_eq!(context.category(), Some("b"));
    // wraps around at the end
    context.next_category();
    assert_eq!(context.category(), Some("a"));
    context.previous_category();
    assert_eq!(context.category(), Some("b"));
    context.deselect_category();
    assert_eq!(context.category(), None);
    assert_eq!(context.category_idx(), None);
}

#[test]
fn context_unordered_categories() {
    let context = sample_context();
    assert_eq!(context.unordered_categories(), vec!["a", "b"]);
}

#[test]
fn context_filtered_actions() {
    let mut context = sample_context();
    context.next_category();
    assert_eq!(context.sorted_category_idx(), Some(0));

    let all = context.filtered_actions();
    assert_eq!(all.len(), 2);
    assert!(all.iter().all(|b| b.enabled_in_ui()));

    // holding Ctrl keeps only the shortcut using exactly Ctrl enabled
    context.toggle_filter_key(ModifierKeyCode::LeftControl);
    let filtered = context.filtered_actions();
    assert_eq!(filtered.len(), 2);
    assert!(filtered[0].enabled_in_ui());
    assert_eq!(filtered[0].name(), "Cut");
    assert!(!filtered[1].enabled_in_ui());

    let (idx, by_category) = context.filtered_actions_by_category("b");
    assert_eq!(idx, 1);
    assert_eq!(by_category.len(), 1);
    assert_eq!(by_category[0].name(), "Zoom");
    assert!(!by_category[0].enabled_in_ui());
    assert_eq!(
        by_category[0].shortcut(),
        &Shortcut::new(vec![
            KeyCode::Modifier(ModifierKeyCode::LeftMeta),
            KeyCode::Char('z'),
        ])
    );

    // releasing the filter enables everything again
    context.toggle_filter_key(ModifierKeyCode::RightControl);
    assert!(context.filtered_actions().iter().all(|b| b.enabled_in_ui()));
}
