//! The editor's key handling: for the focused area and the key pressed, the
//! operation to perform and the focus change that follows.

use vstd::prelude::*;

use crate::app::{
    add_value_app_model, add_value_app_pre, clear_message_model, clear_policy_model,
    copy_to_clipboard_model, delete_char_model, delete_char_pre, delete_selected_value_model,
    enter_char_model, enter_char_pre, import_csp_model, move_cursor_left_model,
    move_cursor_right_model, move_cursor_to_end_model, move_cursor_to_start_model,
    next_directive_model, next_policy_directive_model, next_policy_directive_pre, next_value_model,
    next_value_pre, previous_directive_model,
    previous_policy_directive_model, previous_value_model, App, AppModel, Focus,
};
use crate::pattern::is_valid_value;
use crate::text::{byte_len, byte_len_exceeds, string_byte_len, trim_string};
use crate::csp::DIRECTIVE_COUNT;

verus! {

/// A key press, as the editor distinguishes them.
#[derive(Clone, Copy, PartialEq, Eq, Debug, Structural)]
pub enum Key {
    Enter,
    Tab,
    BackTab,
    Esc,
    Backspace,
    Delete,
    Left,
    Right,
    Up,
    Down,
    Home,
    End,
    Char(char),
    Other,
}

/// The state with the focus moved to `f`.
pub open spec fn focus_on(a: AppModel, f: Focus) -> AppModel {
    AppModel { focus: f, ..a }
}

/// The state with the cursor at byte offset `pos`.
pub open spec fn cursor_at(a: AppModel, pos: int) -> AppModel {
    AppModel { cursor_position: pos as usize, ..a }
}

/// The state after a quit request.
pub open spec fn quit(a: AppModel) -> AppModel {
    AppModel { should_quit: true, ..a }
}

/// The editing keys shared by both input fields.
pub open spec fn edit_step(a: AppModel, key: Key) -> AppModel {
    match key {
        Key::Char(c) => enter_char_model(a, c),
        Key::Backspace => delete_char_model(a),
        Key::Left => move_cursor_left_model(a),
        Key::Right => move_cursor_right_model(a),
        Key::Home => move_cursor_to_start_model(a),
        Key::End => move_cursor_to_end_model(a),
        _ => a,
    }
}

/// What the editing keys need.
pub open spec fn edit_pre(a: AppModel, key: Key) -> bool {
    match key {
        Key::Char(_) => enter_char_pre(a),
        Key::Backspace => delete_char_pre(a),
        _ => true,
    }
}

/// A key in the import field: Enter imports, Tab and Esc leave for the
/// directive selector (Esc also empties the field), BackTab goes back to the
/// policy list (to the value field, cursor at its end, when the policy is
/// empty), Ctrl+q quits, and the other keys edit the field.
pub open spec fn import_input_step(a: AppModel, key: Key, ctrl: bool) -> AppModel {
    match key {
        Key::Enter => import_csp_model(a),
        Key::Tab => cursor_at(focus_on(a, Focus::DirectiveSelect), 0),
        Key::BackTab => if a.policy.len() != 0 {
            cursor_at(focus_on(a, Focus::DirectiveList), 0)
        } else {
            cursor_at(focus_on(a, Focus::ValueInput), byte_len(a.value_input) as usize as int)
        },
        Key::Esc => cursor_at(
            focus_on(AppModel { import_input: Seq::empty(), ..a }, Focus::DirectiveSelect),
            0,
        ),
        Key::Char(c) => if c == 'q' && ctrl {
            quit(a)
        } else {
            enter_char_model(a, c)
        },
        _ => edit_step(a, key),
    }
}

/// What a key in the import field needs.
pub open spec fn import_input_pre(a: AppModel, key: Key, ctrl: bool) -> bool {
    match key {
        Key::Char(c) => (c == 'q' && ctrl) || enter_char_pre(a),
        _ => edit_pre(a, key),
    }
}

/// A key on the directive selector: Left and Right change the offered
/// directive, Tab and BackTab move to the value and import fields (cursor at
/// their end), q quits, c copies, Down enters a non-empty policy's list.
pub open spec fn directive_select_step(a: AppModel, key: Key) -> AppModel {
    match key {
        Key::Left => previous_directive_model(a),
        Key::Right => next_directive_model(a),
        Key::Tab => cursor_at(focus_on(a, Focus::ValueInput), byte_len(a.value_input) as usize as int),
        Key::BackTab => cursor_at(focus_on(a, Focus::Import), byte_len(a.import_input) as usize as int),
        Key::Char(c) => if c == 'q' {
            quit(a)
        } else if c == 'c' {
            copy_to_clipboard_model(a)
        } else {
            a
        },
        Key::Down => if a.policy.len() != 0 {
            focus_on(a, Focus::DirectiveList)
        } else {
            a
        },
        _ => a,
    }
}

/// What a key on the directive selector needs.
pub open spec fn directive_select_pre(a: AppModel, key: Key) -> bool {
    key == Key::Right ==> a.selected_directive_index < usize::MAX
}

/// A key in the value field: Enter adds the value, Tab moves to the policy
/// list (to the import field when the policy is empty), BackTab to the
/// directive selector, Esc empties the field, Ctrl+q quits, and the other
/// keys edit the field.
pub open spec fn value_input_step(a: AppModel, key: Key, ctrl: bool) -> AppModel {
    match key {
        Key::Enter => add_value_app_model(a),
        Key::Tab => cursor_at(
            focus_on(
                a,
                if a.policy.len() != 0 {
                    Focus::DirectiveList
                } else {
                    Focus::Import
                },
            ),
            0,
        ),
        Key::BackTab => focus_on(a, Focus::DirectiveSelect),
        Key::Esc => cursor_at(AppModel { value_input: Seq::empty(), ..a }, 0),
        Key::Char(c) => if c == 'q' && ctrl {
            quit(a)
        } else {
            enter_char_model(a, c)
        },
        _ => edit_step(a, key),
    }
}

/// What a key in the value field needs.
pub open spec fn value_input_pre(a: AppModel, key: Key, ctrl: bool) -> bool {
    match key {
        Key::Enter => add_value_app_pre(a),
        Key::Char(c) => (c == 'q' && ctrl) || enter_char_pre(a),
        _ => edit_pre(a, key),
    }
}

/// The focus after browsing values: the directive list hands over to the value list.
pub open spec fn onto_values(a: AppModel) -> AppModel {
    if a.focus == Focus::DirectiveList {
        focus_on(a, Focus::ValueList)
    } else {
        a
    }
}

/// A key in the policy list: Up and Down change the directive, Left and
/// Right the value (entering the value list), Tab and BackTab move to the
/// import and value fields (cursor at their end), d or Delete deletes the
/// selected value (back to the selector once the policy is empty), q quits,
/// c copies, x clears the policy, Esc returns to the directive selector.
pub open spec fn directive_list_step(a: AppModel, key: Key) -> AppModel {
    match key {
        Key::Up => previous_policy_directive_model(a),
        Key::Down => next_policy_directive_model(a),
        Key::Left => onto_values(previous_value_model(a)),
        Key::Right => onto_values(next_value_model(a)),
        Key::Tab => cursor_at(focus_on(a, Focus::Import), byte_len(a.import_input) as usize as int),
        Key::BackTab => cursor_at(focus_on(a, Focus::ValueInput), byte_len(a.value_input) as usize as int),
        Key::Delete => after_delete(delete_selected_value_model(a)),
        Key::Char(c) => if c == 'd' {
            after_delete(delete_selected_value_model(a))
        } else if c == 'q' {
            quit(a)
        } else if c == 'c' {
            copy_to_clipboard_model(a)
        } else if c == 'x' {
            focus_on(clear_policy_model(a), Focus::DirectiveSelect)
        } else {
            a
        },
        Key::Esc => focus_on(a, Focus::DirectiveSelect),
        _ => a,
    }
}

/// After a deletion, an empty policy sends the focus back to the directive selector.
pub open spec fn after_delete(a: AppModel) -> AppModel {
    if a.policy.len() == 0 {
        focus_on(a, Focus::DirectiveSelect)
    } else {
        a
    }
}

/// What a key in the policy list needs.
pub open spec fn directive_list_pre(a: AppModel, key: Key) -> bool {
    &&& key == Key::Down ==> next_policy_directive_pre(a)
    &&& key == Key::Right ==> next_value_pre(a)
}

/// A key press: the status message is cleared, then the key goes to the
/// handler of the focused area.
pub open spec fn key_step(a: AppModel, key: Key, ctrl: bool) -> AppModel {
    let b = clear_message_model(a);
    match b.focus {
        Focus::Import => import_input_step(b, key, ctrl),
        Focus::DirectiveSelect => directive_select_step(b, key),
        Focus::ValueInput => value_input_step(b, key, ctrl),
        _ => directive_list_step(b, key),
    }
}

/// What a key press needs.
pub open spec fn key_pre(a: AppModel, key: Key, ctrl: bool) -> bool {
    let b = clear_message_model(a);
    match b.focus {
        Focus::Import => import_input_pre(b, key, ctrl),
        Focus::DirectiveSelect => directive_select_pre(b, key),
        Focus::ValueInput => value_input_pre(b, key, ctrl),
        _ => directive_list_pre(b, key),
    }
}

/// The policy list has the focus only while the policy has a directive.
pub open spec fn list_focus_ok(a: AppModel) -> bool {
    (a.focus == Focus::DirectiveList || a.focus == Focus::ValueList) ==> a.policy.len() > 0
}

/// Every key press keeps the policy list from having the focus while the
/// policy is empty.
pub proof fn lemma_key_keeps_list_focus_ok(a: AppModel, key: Key, ctrl: bool)
    requires
        list_focus_ok(a),
    ensures
        list_focus_ok(key_step(a, key, ctrl)),
{
}

/// Whether a key press asks for the CSP string to be copied: `c` on the
/// directive selector or in the policy list.
pub open spec fn copy_key(a: AppModel, key: Key) -> bool {
    key == Key::Char('c') && (a.focus == Focus::DirectiveSelect || a.focus == Focus::DirectiveList
        || a.focus == Focus::ValueList)
}

/// A copy key press does nothing but clear the status message and copy.
pub proof fn lemma_copy_key_only_copies(a: AppModel, key: Key, ctrl: bool)
    requires
        copy_key(a, key),
    ensures
        key_step(a, key, ctrl) == copy_to_clipboard_model(clear_message_model(a)),
{
}

/// Whether the key press asks for the CSP string to be copied (see `copy_key`).
pub fn requests_copy(app: &App, key: Key) -> (r: bool)
    ensures
        r == copy_key(app@, key),
{
    match key {
        Key::Char(c) => c == 'c' && (app.focus == Focus::DirectiveSelect || app.focus
            == Focus::DirectiveList || app.focus == Focus::ValueList),
        _ => false,
    }
}

/// Whether `enter_char` can take the state (see `enter_char_pre`).
fn enter_char_allowed(app: &App) -> (r: bool)
    ensures
        r == enter_char_pre(app@),
{
    match app.focus {
        Focus::Import => app.import_input.as_str().is_char_boundary(app.cursor_position)
            && app.cursor_position < usize::MAX,
        Focus::ValueInput => app.value_input.as_str().is_char_boundary(app.cursor_position)
            && app.cursor_position < usize::MAX,
        _ => true,
    }
}

/// Whether `delete_char` can take the state (see `delete_char_pre`).
fn delete_char_allowed(app: &App) -> (r: bool)
    ensures
        r == delete_char_pre(app@),
{
    if app.cursor_position == 0 {
        return true;
    }
    let pos = app.cursor_position - 1;
    match app.focus {
        Focus::Import => app.import_input.as_str().is_char_boundary(pos) && byte_len_exceeds(
            app.import_input.as_str(),
            pos,
        ),
        Focus::ValueInput => app.value_input.as_str().is_char_boundary(pos) && byte_len_exceeds(
            app.value_input.as_str(),
            pos,
        ),
        _ => true,
    }
}

/// Whether `add_value` can take the state (see `add_value_app_pre`).
fn add_value_allowed(app: &App) -> (r: bool)
    ensures
        r == add_value_app_pre(app@),
{
    if app.selected_directive_index < DIRECTIVE_COUNT {
        return true;
    }
    let value = trim_string(app.value_input.as_str());
    value.as_str().is_empty() || !is_valid_value(value.as_str())
}

/// Whether the editor can take the key press in its current state (see
/// `key_pre`): a typing or deleting key needs the cursor of the focused field
/// on a character boundary, adding a valid value needs an offered directive,
/// and no selection may step past the largest index.
pub fn key_allowed(app: &App, key: Key, ctrl: bool) -> (r: bool)
    ensures
        r == key_pre(app@, key, ctrl),
{
    match app.focus {
        Focus::Import => match key {
            Key::Char(c) => (c == 'q' && ctrl) || enter_char_allowed(app),
            Key::Backspace => delete_char_allowed(app),
            _ => true,
        },
        Focus::DirectiveSelect => match key {
            Key::Right => app.selected_directive_index < usize::MAX,
            _ => true,
        },
        Focus::ValueInput => match key {
            Key::Enter => add_value_allowed(app),
            Key::Char(c) => (c == 'q' && ctrl) || enter_char_allowed(app),
            Key::Backspace => delete_char_allowed(app),
            _ => true,
        },
        _ => match key {
            Key::Down => app.policy.get_directives().len() == 0 || app.selected_policy_directive
                < usize::MAX,
            Key::Right => {
                let directives = app.policy.get_directives();
                if app.selected_policy_directive < directives.len() {
                    directives[app.selected_policy_directive].1.len() == 0
                        || app.selected_value_index < usize::MAX
                } else {
                    true
                }
            },
            _ => true,
        },
    }
}

/// Handles a key in the import field (see `import_input_step`).
pub fn handle_import_input(app: &mut App, key: Key, ctrl: bool)
    requires
        import_input_pre(old(app)@, key, ctrl),
    ensures
        final(app)@ == import_input_step(old(app)@, key, ctrl),
{
    match key {
        Key::Enter => {
            app.import_csp();
        },
        Key::Tab => {
            app.focus = Focus::DirectiveSelect;
            app.cursor_position = 0;
        },
        Key::BackTab => {
            if !app.policy.is_empty() {
                app.focus = Focus::DirectiveList;
                app.cursor_position = 0;
            } else {
                app.focus = Focus::ValueInput;
                app.cursor_position = string_byte_len(&app.value_input);
            }
        },
        Key::Esc => {
            app.import_input = String::new();
            app.focus = Focus::DirectiveSelect;
            app.cursor_position = 0;
        },
        Key::Char(c) => {
            if c == 'q' && ctrl {
                app.should_quit = true;
            } else {
                app.enter_char(c);
            }
        },
        Key::Backspace => {
            app.delete_char();
        },
        Key::Left => {
            app.move_cursor_left();
        },
        Key::Right => {
            app.move_cursor_right();
        },
        Key::Home => {
            app.move_cursor_to_start();
        },
        Key::End => {
            app.move_cursor_to_end();
        },
        _ => {},
    }
}

/// Handles a key on the directive selector (see `directive_select_step`).
pub fn handle_directive_select(app: &mut App, key: Key)
    requires
        directive_select_pre(old(app)@, key),
    ensures
        final(app)@ == directive_select_step(old(app)@, key),
{
    match key {
        Key::Left => {
            app.previous_directive();
        },
        Key::Right => {
            app.next_directive();
        },
        Key::Tab => {
            app.focus = Focus::ValueInput;
            app.cursor_position = string_byte_len(&app.value_input);
        },
        Key::BackTab => {
            app.focus = Focus::Import;
            app.cursor_position = string_byte_len(&app.import_input);
        },
        Key::Char(c) => {
            if c == 'q' {
                app.should_quit = true;
            } else if c == 'c' {
                app.copy_to_clipboard();
            }
        },
        Key::Down => {
            if !app.policy.is_empty() {
                app.focus = Focus::DirectiveList;
            }
        },
        _ => {},
    }
}

/// Handles a key in the value field (see `value_input_step`).
pub fn handle_value_input(app: &mut App, key: Key, ctrl: bool)
    requires
        value_input_pre(old(app)@, key, ctrl),
    ensures
        final(app)@ == value_input_step(old(app)@, key, ctrl),
{
    match key {
        Key::Enter => {
            app.add_value();
        },
        Key::Tab => {
            if !app.policy.is_empty() {
                app.focus = Focus::DirectiveList;
            } else {
                app.focus = Focus::Import;
            }
            app.cursor_position = 0;
        },
        Key::BackTab => {
            app.focus = Focus::DirectiveSelect;
        },
        Key::Esc => {
            app.value_input = String::new();
            app.cursor_position = 0;
        },
        Key::Char(c) => {
            if c == 'q' && ctrl {
                app.should_quit = true;
            } else {
                app.enter_char(c);
            }
        },
        Key::Backspace => {
            app.delete_char();
        },
        Key::Left => {
            app.move_cursor_left();
        },
        Key::Right => {
            app.move_cursor_right();
        },
        Key::Home => {
            app.move_cursor_to_start();
        },
        Key::End => {
            app.move_cursor_to_end();
        },
        _ => {},
    }
}

/// Deletes the selected value, then leaves an emptied policy's list.
fn delete_from_list(app: &mut App)
    ensures
        final(app)@ == after_delete(delete_selected_value_model(old(app)@)),
{
    app.delete_selected_value();
    if app.policy.is_empty() {
        app.focus = Focus::DirectiveSelect;
    }
}

/// Handles a key in the policy list (see `directive_list_step`).
pub fn handle_directive_list(app: &mut App, key: Key)
    requires
        directive_list_pre(old(app)@, key),
    ensures
        final(app)@ == directive_list_step(old(app)@, key),
{
    match key {
        Key::Up => {
            app.previous_policy_directive();
        },
        Key::Down => {
            app.next_policy_directive();
        },
        Key::Left => {
            app.previous_value();
            if app.focus == Focus::DirectiveList {
                app.focus = Focus::ValueList;
            }
        },
        Key::Right => {
            app.next_value();
            if app.focus == Focus::DirectiveList {
                app.focus = Focus::ValueList;
            }
        },
        Key::Tab => {
            app.focus = Focus::Import;
            app.cursor_position = string_byte_len(&app.import_input);
        },
        Key::BackTab => {
            app.focus = Focus::ValueInput;
            app.cursor_position = string_byte_len(&app.value_input);
        },
        Key::Delete => {
            delete_from_list(app);
        },
        Key::Char(c) => {
            if c == 'd' {
                delete_from_list(app);
            } else if c == 'q' {
                app.should_quit = true;
            } else if c == 'c' {
                app.copy_to_clipboard();
            } else if c == 'x' {
                app.clear_policy();
                app.focus = Focus::DirectiveSelect;
            }
        },
        Key::Esc => {
            app.focus = Focus::DirectiveSelect;
        },
        _ => {},
    }
}

/// Handles one key press (see `key_step`): clears the status message and
/// passes the key to the handler of the focused area.
pub fn handle_key(app: &mut App, key: Key, ctrl: bool)
    requires
        key_pre(old(app)@, key, ctrl),
    ensures
        final(app)@ == key_step(old(app)@, key, ctrl),
{
    app.clear_message();
    match app.focus {
        Focus::Import => handle_import_input(app, key, ctrl),
        Focus::DirectiveSelect => handle_directive_select(app, key),
        Focus::ValueInput => handle_value_input(app, key, ctrl),
        Focus::DirectiveList | Focus::ValueList => handle_directive_list(app, key),
    }
}

} // verus!
