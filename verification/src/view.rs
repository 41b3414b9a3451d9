//! The views of the screen and how key presses move between them: the main
//! grid, the prompt for a /16 to zoom into, and the detail view of that /16.

use vstd::prelude::*;

use crate::activity::{lemma_zoom_target_round_trip, parse_zoom_chars, two_part_text, slash_16, zoom_target};

verus! {

/// A key press, as far as the views tell keys apart.
#[derive(Clone, Copy, Debug, PartialEq, Eq)]
pub enum Key {
    Char(char),
    Enter,
    Esc,
    Backspace,
    Delete,
    Other,
}

/// What the program does, besides changing view, after a key press.
#[derive(Clone, Copy, Debug, PartialEq, Eq)]
pub enum KeyAction {
    Nothing,
    /// Leave the program.
    Quit,
    /// Pause or resume the main view.
    TogglePause,
    /// The zoom prompt opened: the detail counters start afresh.
    OpenZoom,
    /// The main view starts over (see `reset_screen_state`).
    Reset,
}

/// The view on screen.
#[derive(Debug, PartialEq, Eq)]
pub enum ViewMode {
    /// The grid of all /16 networks.
    Main,
    /// The prompt for a /16 to zoom into: what was typed, and why the last
    /// entry was refused.
    ZoomInput { value: Vec<char>, error: Option<String> },
    /// The detail view of the /16 `focus`.
    Detail { focus: (u8, u8) },
}

/// The abstract view on screen, with the prompt's text as characters.
pub enum ViewModel {
    Main,
    ZoomInput { value: Seq<char>, error: Option<Seq<char>> },
    Detail { focus: (u8, u8) },
}

impl View for ViewMode {
    type V = ViewModel;

    open spec fn view(&self) -> ViewModel {
        match self {
            ViewMode::Main => ViewModel::Main,
            ViewMode::ZoomInput { value, error } => ViewModel::ZoomInput {
                value: value@,
                error: match error {
                    Some(e) => Some(e@),
                    None => None,
                },
            },
            ViewMode::Detail { focus } => ViewModel::Detail { focus: *focus },
        }
    }
}

/// Control characters that the prompt takes as erasing the last character
/// (BEL and BS, as some terminals send them, and U+0127).
pub open spec fn erases_input(c: char) -> bool {
    c == '\u{7}' || c == '\u{8}' || c == '\u{127}'
}

/// Characters that the prompt takes as typed: printable ASCII and space.
pub open spec fn types_into_input(c: char) -> bool {
    (0x21 <= c as u32 && c as u32 <= 0x7e) || c == ' '
}

/// The prompt's text without its last character (unchanged when empty).
pub open spec fn erase_last(value: Seq<char>) -> Seq<char> {
    if value.len() > 0 {
        value.drop_last()
    } else {
        value
    }
}

/// The view after a key press, and the action that goes with it.
///
/// In the main view `q` quits, space pauses or resumes, `z` opens the zoom
/// prompt and `r` starts the view over. In the prompt Esc returns to the
/// main view (which starts over), Enter opens the detail view of the /16
/// typed or shows why it was refused, and the other keys edit the text. In
/// the detail view Esc returns to the main view, which starts over.
pub open spec fn key_step(m: ViewModel, k: Key) -> (ViewModel, KeyAction) {
    match m {
        ViewModel::Main => match k {
            Key::Char(c) => if c == 'q' {
                (m, KeyAction::Quit)
            } else if c == ' ' {
                (m, KeyAction::TogglePause)
            } else if c == 'z' || c == 'Z' {
                (ViewModel::ZoomInput { value: Seq::empty(), error: None }, KeyAction::OpenZoom)
            } else if c == 'r' || c == 'R' {
                (m, KeyAction::Reset)
            } else {
                (m, KeyAction::Nothing)
            },
            _ => (m, KeyAction::Nothing),
        },
        ViewModel::ZoomInput { value, error } => match k {
            Key::Esc => (ViewModel::Main, KeyAction::Reset),
            Key::Enter => match zoom_target(value) {
                Ok(focus) => (ViewModel::Detail { focus }, KeyAction::Nothing),
                Err(msg) => (ViewModel::ZoomInput { value, error: Some(msg) }, KeyAction::Nothing),
            },
            Key::Backspace | Key::Delete => (
                ViewModel::ZoomInput { value: erase_last(value), error: None },
                KeyAction::Nothing,
            ),
            Key::Char(c) => if erases_input(c) {
                (ViewModel::ZoomInput { value: erase_last(value), error: None }, KeyAction::Nothing)
            } else if types_into_input(c) {
                (ViewModel::ZoomInput { value: value.push(c), error: None }, KeyAction::Nothing)
            } else {
                (m, KeyAction::Nothing)
            },
            Key::Other => (m, KeyAction::Nothing),
        },
        ViewModel::Detail { .. } => match k {
            Key::Esc => (ViewModel::Main, KeyAction::Reset),
            _ => (m, KeyAction::Nothing),
        },
    }
}

/// Handles one key press: returns the next view and the action to perform.
pub fn handle_key(mode: ViewMode, key: Key) -> (r: (ViewMode, KeyAction))
    ensures
        (r.0@, r.1) == key_step(mode@, key),
        match (mode@, key) {
            (ViewModel::ZoomInput { value, error }, Key::Char(c)) => ((0x21 <= c as u32 && c as u32
                <= 0x7e) || c == ' ') ==> r.0@ == (ViewModel::ZoomInput {
                value: value.push(c),
                error: None,
            }) && r.1 == KeyAction::Nothing,
            _ => true,
        },
{
    match mode {
        ViewMode::Main => match key {
            Key::Char(c) => {
                if c == 'q' {
                    (ViewMode::Main, KeyAction::Quit)
                } else if c == ' ' {
                    (ViewMode::Main, KeyAction::TogglePause)
                } else if c == 'z' || c == 'Z' {
                    let value: Vec<char> = Vec::new();
                    proof {
                        assert(value@ =~= Seq::<char>::empty());
                    }
                    (ViewMode::ZoomInput { value, error: None }, KeyAction::OpenZoom)
                } else if c == 'r' || c == 'R' {
                    (ViewMode::Main, KeyAction::Reset)
                } else {
                    (ViewMode::Main, KeyAction::Nothing)
                }
            },
            _ => (ViewMode::Main, KeyAction::Nothing),
        },
        ViewMode::ZoomInput { value, error } => {
            let mut value = value;
            match key {
                Key::Esc => (ViewMode::Main, KeyAction::Reset),
                Key::Enter => match parse_zoom_chars(&value) {
                    Ok(focus) => (ViewMode::Detail { focus }, KeyAction::Nothing),
                    Err(msg) => (ViewMode::ZoomInput { value, error: Some(msg) }, KeyAction::Nothing),
                },
                Key::Backspace | Key::Delete => {
                    value.pop();
                    (ViewMode::ZoomInput { value, error: None }, KeyAction::Nothing)
                },
                Key::Char(c) => {
                    let code = c as u32;
                    if c == '\u{7}' || c == '\u{8}' || c == '\u{127}' {
                        value.pop();
                        (ViewMode::ZoomInput { value, error: None }, KeyAction::Nothing)
                    } else if (0x21 <= code && code <= 0x7e) || c == ' ' {
                        value.push(c);
                        (ViewMode::ZoomInput { value, error: None }, KeyAction::Nothing)
                    } else {
                        (ViewMode::ZoomInput { value, error }, KeyAction::Nothing)
                    }
                },
                Key::Other => (ViewMode::ZoomInput { value, error }, KeyAction::Nothing),
            }
        },
        ViewMode::Detail { focus } => match key {
            Key::Esc => (ViewMode::Main, KeyAction::Reset),
            _ => (ViewMode::Detail { focus }, KeyAction::Nothing),
        },
    }
}

/// In the zoom prompt every printable ASCII character (`!` to `~`) and the
/// space is typed: it is appended to the text, any refusal message is
/// cleared, and nothing else happens.
pub proof fn lemma_prompt_types_printable(value: Seq<char>, error: Option<Seq<char>>, c: char)
    requires
        (0x21 <= c as u32 && c as u32 <= 0x7e) || c == ' ',
    ensures
        key_step((ViewModel::ZoomInput { value, error }), Key::Char(c)) == (
            (ViewModel::ZoomInput { value: value.push(c), error: None }),
            KeyAction::Nothing,
        ),
{
}

/// Erasing in the zoom prompt (Backspace or Delete) drops the last character
/// typed, if any, clears any refusal message, and does nothing else.
pub proof fn lemma_prompt_erases(value: Seq<char>, error: Option<Seq<char>>, k: Key)
    requires
        k == Key::Backspace || k == Key::Delete,
    ensures
        key_step((ViewModel::ZoomInput { value, error }), k) == (
            (ViewModel::ZoomInput {
                value: if value.len() > 0 {
                    value.subrange(0, value.len() - 1)
                } else {
                    value
                },
                error: None,
            }),
            KeyAction::Nothing,
        ),
{
}
/// The main view's keys: `q` quits, space pauses or resumes, `z` or `Z`
/// opens an empty zoom prompt, `r` or `R` starts the view over; Esc in the
/// prompt or the detail view returns to a fresh main view; in the detail
/// view no other key does anything.
pub proof fn lemma_view_keys(value: Seq<char>, error: Option<Seq<char>>, focus: (u8, u8), k: Key)
    ensures
        key_step(ViewModel::Main, Key::Char('q')) == (ViewModel::Main, KeyAction::Quit),
        key_step(ViewModel::Main, Key::Char(' ')) == (ViewModel::Main, KeyAction::TogglePause),
        key_step(ViewModel::Main, Key::Char('z')).0 == (ViewModel::ZoomInput {
            value: Seq::empty(),
            error: None,
        }),
        key_step(ViewModel::Main, Key::Char('z')).1 == KeyAction::OpenZoom,
        key_step(ViewModel::Main, Key::Char('Z')) == key_step(ViewModel::Main, Key::Char('z')),
        key_step(ViewModel::Main, Key::Char('r')) == (ViewModel::Main, KeyAction::Reset),
        key_step(ViewModel::Main, Key::Char('R')) == (ViewModel::Main, KeyAction::Reset),
        key_step((ViewModel::ZoomInput { value, error }), Key::Esc) == (
            ViewModel::Main,
            KeyAction::Reset,
        ),
        key_step((ViewModel::Detail { focus }), Key::Esc) == (ViewModel::Main, KeyAction::Reset),
        k != Key::Esc ==> key_step((ViewModel::Detail { focus }), k) == (
            (ViewModel::Detail { focus }),
            KeyAction::Nothing,
        ),
{
}
/// Enter in the zoom prompt opens the detail view of the /16 typed: for
/// `a.b` or `a.b/16` in decimal, with `a` and `b` at most 252, the detail
/// view of `(a, b)`, with nothing else to do.
pub proof fn lemma_enter_opens_typed_network(a: u8, b: u8, error: Option<Seq<char>>)
    requires
        a <= 252,
        b <= 252,
    ensures
        key_step((ViewModel::ZoomInput { value: two_part_text(a, b), error }), Key::Enter) == (
            (ViewModel::Detail { focus: (a, b) }),
            KeyAction::Nothing,
        ),
        key_step(
            (ViewModel::ZoomInput { value: two_part_text(a, b) + slash_16(), error }),
            Key::Enter,
        ) == ((ViewModel::Detail { focus: (a, b) }), KeyAction::Nothing),
{
    lemma_zoom_target_round_trip(a, b, 0, 0);
}

/// BEL, BS and U+0127 erase in the zoom prompt as Backspace does.
pub proof fn lemma_prompt_control_erases(value: Seq<char>, error: Option<Seq<char>>, c: char)
    requires
        c == '\u{7}' || c == '\u{8}' || c == '\u{127}',
    ensures
        key_step((ViewModel::ZoomInput { value, error }), Key::Char(c)) == key_step(
            (ViewModel::ZoomInput { value, error }),
            Key::Backspace,
        ),
{
}
} // verus!
