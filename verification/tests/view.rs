use braillepcap::view::{handle_key, Key, KeyAction, ViewMode};

fn type_keys(mut mode: ViewMode, keys: &[Key]) -> ViewMode {
    for key in keys {
        let (next, action) = handle_key(mode, *key);
        assert_eq!(action, KeyAction::Nothing);
        mode = next;
    }
    mode
}

fn prompt(text: &str, error: Option<&str>) -> ViewMode {
    ViewMode::ZoomInput { value: text.chars().collect(), error: error.map(|e| e.to_string()) }
}

#[test]
fn main_view_keys_quit_pause_zoom_and_reset() {
    assert_eq!(handle_key(ViewMode::Main, Key::Char('q')), (ViewMode::Main, KeyAction::Quit));
    assert_eq!(handle_key(ViewMode::Main, Key::Char(' ')), (ViewMode::Main, KeyAction::TogglePause));
    assert_eq!(handle_key(ViewMode::Main, Key::Char('z')), (prompt("", None), KeyAction::OpenZoom));
    assert_eq!(handle_key(ViewMode::Main, Key::Char('Z')), (prompt("", None), KeyAction::OpenZoom));
    assert_eq!(handle_key(ViewMode::Main, Key::Char('r')), (ViewMode::Main, KeyAction::Reset));
    assert_eq!(handle_key(ViewMode::Main, Key::Char('R')), (ViewMode::Main, KeyAction::Reset));
    assert_eq!(handle_key(ViewMode::Main, Key::Char('Q')), (ViewMode::Main, KeyAction::Nothing));
    assert_eq!(handle_key(ViewMode::Main, Key::Esc), (ViewMode::Main, KeyAction::Nothing));
}

#[test]
fn the_prompt_edits_its_text() {
    let mode = type_keys(
        prompt("", None),
        &[Key::Char('1'), Key::Char('0'), Key::Char('x'), Key::Backspace, Key::Char('.')],
    );
    assert_eq!(mode, prompt("10.", None));
    let mode = type_keys(mode, &[Key::Char('\u{8}'), Key::Char('\u{7}'), Key::Delete]);
    assert_eq!(mode, prompt("", None));
    // Erasing an empty prompt leaves it empty; non-ASCII and tabs are not typed.
    let mode = type_keys(mode, &[Key::Backspace, Key::Char('é'), Key::Char('\t'), Key::Char(' ')]);
    assert_eq!(mode, prompt(" ", None));
    let mode = type_keys(mode, &[Key::Other]);
    assert_eq!(mode, prompt(" ", None));
}

#[test]
fn enter_opens_the_detail_view_or_explains_the_refusal() {
    let (mode, action) = handle_key(prompt(" 10.20/16 ", None), Key::Enter);
    assert_eq!((mode, action), (ViewMode::Detail { focus: (10, 20) }, KeyAction::Nothing));

    let (mode, action) = handle_key(prompt("10.253", None), Key::Enter);
    assert_eq!(action, KeyAction::Nothing);
    assert_eq!(mode, prompt("10.253", Some("Zoom start must be between 0 and 252")));

    // Typing after a refusal clears the message.
    let mode = type_keys(mode, &[Key::Backspace]);
    assert_eq!(mode, prompt("10.25", None));
}

#[test]
fn esc_returns_to_a_fresh_main_view() {
    assert_eq!(handle_key(prompt("10", None), Key::Esc), (ViewMode::Main, KeyAction::Reset));
    let detail = ViewMode::Detail { focus: (1, 2) };
    assert_eq!(handle_key(detail, Key::Esc), (ViewMode::Main, KeyAction::Reset));
    let detail = ViewMode::Detail { focus: (1, 2) };
    assert_eq!(
        handle_key(detail, Key::Char('q')),
        (ViewMode::Detail { focus: (1, 2) }, KeyAction::Nothing)
    );
}
