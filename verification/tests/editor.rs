use vfs_shell::buffer::GapBuffer;
use vfs_shell::editor::handle_key_event;
use vfs_shell::editor::EditorInput;

fn session(events: &[EditorInput]) -> (bool, bool, GapBuffer) {
    let mut input_mode = false;
    let mut quit = false;
    let mut data = GapBuffer::new();
    for e in events {
        handle_key_event(*e, &mut input_mode, &mut quit, &mut data);
    }
    (input_mode, quit, data)
}

#[test]
fn command_mode_i_enters_insert_mode() {
    let (input_mode, quit, _) = session(&[EditorInput::Char('i')]);
    assert!(input_mode);
    assert!(!quit);
}

#[test]
fn command_mode_ctrl_s_commits() {
    let (input_mode, quit, data) = session(&[EditorInput::Ctrl('s')]);
    assert!(!input_mode);
    assert!(quit);
    assert_eq!(data.to_string(), "");
}

#[test]
fn command_mode_ignores_other_input() {
    let (input_mode, quit, data) = session(&[
        EditorInput::Char('x'),
        EditorInput::Ctrl('q'),
        EditorInput::Left,
        EditorInput::Backspace,
        EditorInput::Enter,
        EditorInput::Esc,
    ]);
    assert!(!input_mode);
    assert!(!quit);
    assert_eq!(data.to_string(), "");
}

#[test]
fn insert_mode_types_characters() {
    let (input_mode, quit, data) = session(&[
        EditorInput::Char('i'),
        EditorInput::Char('h'),
        EditorInput::Char('i'),
    ]);
    assert!(input_mode);
    assert!(!quit);
    assert_eq!(data.to_string(), "hi");
}

#[test]
fn insert_mode_esc_returns_to_command_mode() {
    let (input_mode, quit, data) = session(&[
        EditorInput::Char('i'),
        EditorInput::Char('a'),
        EditorInput::Esc,
        EditorInput::Char('b'),
    ]);
    // the trailing 'b' lands in command mode and is not typed
    assert!(!input_mode);
    assert!(!quit);
    assert_eq!(data.to_string(), "a");
}

#[test]
fn insert_mode_ignores_control_chords() {
    let (input_mode, _, data) = session(&[
        EditorInput::Char('i'),
        EditorInput::Char('a'),
        EditorInput::Ctrl('s'),
    ]);
    assert!(input_mode);
    assert_eq!(data.to_string(), "a");
}

#[test]
fn insert_mode_edits_with_backspace_enter_and_arrows() {
    let (_, _, data) = session(&[
        EditorInput::Char('i'),
        EditorInput::Char('a'),
        EditorInput::Char('c'),
        EditorInput::Left,
        EditorInput::Char('b'),
        EditorInput::Right,
        EditorInput::Enter,
        EditorInput::Char('d'),
        EditorInput::Backspace,
        EditorInput::Char('e'),
    ]);
    assert_eq!(data.to_string(), "abc\ne");
}

#[test]
fn full_session_produces_committed_text() {
    let (input_mode, quit, data) = session(&[
        EditorInput::Char('i'),
        EditorInput::Char('a'),
        EditorInput::Char('b'),
        EditorInput::Enter,
        EditorInput::Char('c'),
        EditorInput::Esc,
        EditorInput::Ctrl('s'),
    ]);
    assert!(!input_mode);
    assert!(quit);
    assert_eq!(data.to_string(), "ab\nc");
}

#[test]
fn arrows_move_across_rows_in_insert_mode() {
    let (_, _, data) = session(&[
        EditorInput::Char('i'),
        EditorInput::Char('a'),
        EditorInput::Enter,
        EditorInput::Char('b'),
        EditorInput::Up,
        EditorInput::Char('x'),
        EditorInput::Down,
        EditorInput::Char('y'),
    ]);
    assert_eq!(data.to_string(), "ax\nby");
}
