//! The modal editor controller: a two-state (command / insert) machine
//! that drives the cursor text buffer from discrete input events.
//!
//! In command mode, an `i` enters insert mode and a control-`s` commits
//! the session. In insert mode, printable characters, arrows, backspace
//! and enter act on the buffer and escape returns to command mode. Any
//! input outside these combinations is ignored: no state change, no
//! buffer mutation.

use vstd::prelude::*;

use crate::buffer::BufferView;
use crate::buffer::GapBuffer;
use crate::buffer::delete_backward_spec;
use crate::buffer::insert_char_spec;
use crate::buffer::move_down_spec;
use crate::buffer::move_left_spec;
use crate::buffer::move_right_spec;
use crate::buffer::move_up_spec;
use crate::buffer::split_line_spec;

verus! {

/// A discrete input event of the editor, as the terminal reports it:
/// a printable character, a character pressed together with control, a
/// navigation key, backspace, enter or escape.
#[derive(Debug, Clone, Copy, PartialEq, Eq, Structural)]
pub enum EditorInput {
    Char(char),
    Ctrl(char),
    Left,
    Right,
    Up,
    Down,
    Backspace,
    Enter,
    Esc,
}

/// The outcome of one editor step: the interaction flags and the buffer
/// model after the event.
#[verifier::ext_equal]
pub struct EditorStep {
    pub input_mode: bool,
    pub quit: bool,
    pub buffer: BufferView,
}

/// What one input event does to the editor. `input_mode` true means
/// insert mode; `quit` true means the session commits. Unrecognized
/// combinations leave everything as it was.
pub open spec fn editor_step_spec(
    input_mode: bool,
    quit: bool,
    v: BufferView,
    event: EditorInput,
) -> EditorStep
    recommends
        v.wf(),
{
    if input_mode {
        match event {
            EditorInput::Char(c) => EditorStep {
                input_mode: true,
                quit: false,
                buffer: insert_char_spec(v, c),
            },
            EditorInput::Left => EditorStep {
                input_mode: true,
                quit: false,
                buffer: move_left_spec(v),
            },
            EditorInput::Right => EditorStep {
                input_mode: true,
                quit: false,
                buffer: move_right_spec(v),
            },
            EditorInput::Up => EditorStep { input_mode: true, quit: false, buffer: move_up_spec(v) },
            EditorInput::Down => EditorStep {
                input_mode: true,
                quit: false,
                buffer: move_down_spec(v),
            },
            EditorInput::Backspace => EditorStep {
                input_mode: true,
                quit: false,
                buffer: delete_backward_spec(v),
            },
            EditorInput::Enter => EditorStep {
                input_mode: true,
                quit: false,
                buffer: split_line_spec(v),
            },
            EditorInput::Esc => EditorStep { input_mode: false, quit: false, buffer: v },
            EditorInput::Ctrl(_) => EditorStep { input_mode: true, quit: quit, buffer: v },
        }
    } else {
        match event {
            EditorInput::Ctrl(c) => if c == 's' {
                EditorStep { input_mode: false, quit: true, buffer: v }
            } else {
                EditorStep { input_mode: false, quit: quit, buffer: v }
            },
            EditorInput::Char(c) => if c == 'i' {
                EditorStep { input_mode: true, quit: false, buffer: v }
            } else {
                EditorStep { input_mode: false, quit: quit, buffer: v }
            },
            _ => EditorStep { input_mode: false, quit: quit, buffer: v },
        }
    }
}

/// In command mode, every input other than the insert key and the save
/// chord is ignored: no mode change, no commit, no buffer mutation.
pub proof fn lemma_command_mode_ignores_unrecognized(quit: bool, v: BufferView, event: EditorInput)
    requires
        !(event matches EditorInput::Ctrl(c) && c == 's'),
        !(event matches EditorInput::Char(c) && c == 'i'),
    ensures
        editor_step_spec(false, quit, v, event) == (EditorStep {
            input_mode: false,
            quit: quit,
            buffer: v,
        }),
{
}

/// The session commits only through the save chord: after any step that
/// reports a commit, either the event was a control-`s` in command mode
/// or the commit had already been reported before the step.
pub proof fn lemma_commit_only_by_save(
    input_mode: bool,
    quit: bool,
    v: BufferView,
    event: EditorInput,
)
    ensures
        editor_step_spec(input_mode, quit, v, event).quit ==> quit || (!input_mode
            && (event matches EditorInput::Ctrl(c) && c == 's')),
{
}

/// Applies one input event to the editor state: exactly the step that
/// `editor_step_spec` describes, nothing else. The buffer stays
/// well-formed.
pub fn handle_key_event(
    event: EditorInput,
    input_mode: &mut bool,
    quit: &mut bool,
    data: &mut GapBuffer,
)
    requires
        old(data)@.wf(),
        old(data)@.current_line().len() < usize::MAX,
        old(data)@.lines.len() < usize::MAX,
        old(data)@.line > 0 ==> old(data)@.lines[old(data)@.line - 1].len()
            + old(data)@.current_line().len() <= usize::MAX,
    ensures
        final(data)@.wf(),
        (EditorStep {
            input_mode: *final(input_mode),
            quit: *final(quit),
            buffer: final(data)@,
        }) == editor_step_spec(*old(input_mode), *old(quit), old(data)@, event),
{
    if *input_mode {
        match event {
            EditorInput::Char(c) => {
                data.push(c);
                *quit = false;
            },
            EditorInput::Left => {
                data.move_left();
                *quit = false;
            },
            EditorInput::Right => {
                data.move_right();
                *quit = false;
            },
            EditorInput::Up => {
                data.move_up();
                *quit = false;
            },
            EditorInput::Down => {
                data.move_down();
                *quit = false;
            },
            EditorInput::Backspace => {
                data.remove();
                *quit = false;
            },
            EditorInput::Enter => {
                data.push_line();
                *quit = false;
            },
            EditorInput::Esc => {
                *input_mode = false;
                *quit = false;
            },
            EditorInput::Ctrl(_) => {},
        }
    } else {
        match event {
            EditorInput::Ctrl(c) => {
                if c == 's' {
                    *quit = true;
                }
            },
            EditorInput::Char(c) => {
                if c == 'i' {
                    *input_mode = true;
                    *quit = false;
                }
            },
            _ => {},
        }
    }
}

} // verus!
