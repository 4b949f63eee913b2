use exabind::key_event::KeyCode;
use exabind::key_event::ModifierKeyCode;
use exabind::parser::jetbrains::categorize_action;
use exabind::parser::jetbrains::parse_jetbrains_keymap;
use exabind::shortcut::Action;
use exabind::shortcut::Shortcut;

#[test]
fn parse_keycode() {
    let res = exabind::parser::jetbrains::parse_keycode("ctrl ", 0);
    let (key, pos) = res.expect("key expected");
    // " " remains
    assert_eq!(pos, 4);
    assert_eq!(key, KeyCode::Modifier(ModifierKeyCode::LeftControl));
}

#[test]
fn parse_keycodes() {
    let input = "ctrl shift a";
    let key_codes = exabind::parser::jetbrains::parse_keycodes(input).expect("keys expected");
    assert_eq!(
        key_codes,
        vec![
            KeyCode::Modifier(ModifierKeyCode::LeftControl),
            KeyCode::Modifier(ModifierKeyCode::LeftShift),
            KeyCode::Char('a'),
        ]
    );
}

#[test]
fn jetbrains_test_jetbrains_xml_parser() {
    let input = r#"<keymap version="1" name="Eclipse copy" parent="Eclipse">
    <action id="$Copy">
        <keyboard-shortcut first-keystroke="ctrl c" />
    </action>
    <action id="$Redo">
        <keyboard-shortcut first-keystroke="shift ctrl z" />
    </action>
    <action id=":cursive.repl.actions/jump-to-repl">
        <keyboard-shortcut first-keystroke="ctrl 2" />
    </action>
    <action id=":cursive.repl.actions/run-last-sexp">
        <keyboard-shortcut first-keystroke="ctrl 3" />
    </action>
    <action id=":cursive.repl.actions/sync-files">
        <keyboard-shortcut first-keystroke="shift ctrl r" />
    </action>
    <action id="ActivateMavenProjectsToolWindow">
        <keyboard-shortcut first-keystroke="f2" />
    </action>
    <action id="Build">
        <keyboard-shortcut first-keystroke="ctrl f9" />
    </action>
    <action id="BuildProject">
        <keyboard-shortcut first-keystroke="ctrl b" />
    </action>
    <action id="ChooseDebugConfiguration">
        <keyboard-shortcut first-keystroke="alt d" />
    </action>
    <action id="ChooseRunConfiguration">
        <keyboard-shortcut first-keystroke="alt r" />
    </action>
    <action id="CloseActiveTab" />
    <action id="CloseContent">
        <keyboard-shortcut first-keystroke="ctrl w" />
    </action>
    <action id="CollapseAll">
        <keyboard-shortcut first-keystroke="ctrl subtract" />
    </action>
    <action id="CollapseAllRegions">
        <keyboard-shortcut first-keystroke="shift ctrl divide" />
        <keyboard-shortcut first-keystroke="ctrl minus" />
    </action>
</keymap>"#;
    let keymap = parse_jetbrains_keymap(input).unwrap();
    assert_eq!(keymap.version, "1");
    assert_eq!(keymap.name, "Eclipse copy");
    assert_eq!(keymap.parent.as_deref(), Some("Eclipse"));
    assert_eq!(keymap.actions.len(), 14);

    let copy = &keymap.actions[0];
    assert_eq!(copy.name(), "$Copy");
    assert_eq!(copy.shortcuts().len(), 1);
    assert_eq!(
        copy.shortcuts()[0],
        Shortcut::new(vec![
            KeyCode::Modifier(ModifierKeyCode::LeftControl),
            KeyCode::Char('c'),
        ])
    );

    // "CloseActiveTab" has no binding and is skipped by valid_actions
    let closed = &keymap.actions[10];
    assert_eq!(closed.name(), "CloseActiveTab");
    assert!(!closed.is_bound());
    let valid = keymap.valid_actions();
    assert_eq!(valid.len(), 13);
    assert_eq!(valid[0].0, "edit");
    assert_eq!(valid[0].1.name(), "$Copy");
}

#[test]
fn categorize_actions_by_name() {
    let action = |name: &str| Action::new(name, vec![Shortcut::new(vec![KeyCode::F(5)])]);
    assert_eq!(categorize_action(&action("ToggleBookmark3")), "bookmarks");
    assert_eq!(categorize_action(&action("GotoLine")), "navigate");
    assert_eq!(categorize_action(&action("Back")), "navigate");
    assert_eq!(categorize_action(&action("TypeHierarchy")), "hierarchy");
    assert_eq!(categorize_action(&action("IntroduceVariable")), "refactor");
    assert_eq!(categorize_action(&action("Move")), "refactor");
    assert_eq!(categorize_action(&action("SplitVertically")), "editor tab");
    assert_eq!(categorize_action(&action("EditorDeleteLine")), "editor");
    assert_eq!(categorize_action(&action("$Cut")), "edit");
    assert_eq!(categorize_action(&action("FindUsages")), "find");
    assert_eq!(categorize_action(&action("ActivateTerminalToolWindow")), "tool window");
    assert_eq!(categorize_action(&action("BuildProject")), "build");
    assert_eq!(categorize_action(&action("CloseContent")), "close");
    assert_eq!(categorize_action(&action("CollapseAll")), "tree actions");
    assert_eq!(categorize_action(&action("Debugger.AddToWatch")), "debug/run");
    assert_eq!(categorize_action(&action("RunToCursor")), "debug/run");
    assert_eq!(categorize_action(&action("ParameterInfo")), "code introspection");
    assert_eq!(categorize_action(&action("MoveLineUp")), "code formatting");
    assert_eq!(categorize_action(&action("CodeCompletion")), "code completion");
    assert_eq!(categorize_action(&action("Terminal.Paste")), "terminal");
    assert_eq!(categorize_action(&action("NextDiff")), "diff");
    assert_eq!(categorize_action(&action("OpenFile")), "file");
    assert_eq!(categorize_action(&action("FileChooser.GotoHome")), "file chooser");
    assert_eq!(categorize_action(&action("Vcs.ShowHistory")), "vcs");
    assert_eq!(categorize_action(&action("SomethingUnheardOf")), "other");
}

#[test]
fn unknown_key_word_fails_keystroke() {
    assert_eq!(exabind::parser::jetbrains::parse_keycodes("ctrl wobble"), None);
    // and the failure propagates through the whole document
    let input = r#"<keymap version="1" name="x">
    <action id="A">
        <keyboard-shortcut first-keystroke="ctrl wobble" />
    </action>
</keymap>"#;
    assert!(parse_jetbrains_keymap(input).is_none());
}

#[test]
fn missing_required_attribute_fails() {
    assert!(parse_jetbrains_keymap(r#"<keymap version="1"></keymap>"#).is_none());
    assert!(parse_jetbrains_keymap(r#"<keymap name="x"></keymap>"#).is_none());
    // an action without an id is likewise a failure
    let input = r#"<keymap version="1" name="x"><action/></keymap>"#;
    assert!(parse_jetbrains_keymap(input).is_none());
}

#[test]
fn keystroke_words_are_case_insensitive() {
    let keys = exabind::parser::jetbrains::parse_keycodes("CTRL Shift A").expect("keys expected");
    assert_eq!(
        keys,
        vec![
            KeyCode::Modifier(ModifierKeyCode::LeftControl),
            KeyCode::Modifier(ModifierKeyCode::LeftShift),
            KeyCode::Char('a'),
        ]
    );
}
