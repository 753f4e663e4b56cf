//! The editor state: the policy being edited, the input fields, the
//! selections, the status message, and the operations the keys trigger.

use vstd::prelude::*;
use vstd::string::StringExecFns;

use crate::csp::{
    add_value_model, directive_at, directive_name, lemma_add_then_lookup, lemma_remove_then_lookup,
    lookup, parse_model, policy_wf, remove_value_model, render_policy, CspPolicy, PolicyModel,
    DIRECTIVE_COUNT,
};
use crate::pattern::{is_valid_value, valid_value};
use crate::text::{
    byte_len, char_index_at, lemma_byte_len_push, lemma_encode_concat, lemma_prefix_boundary,
    on_char_boundary, string_byte_len, string_insert, string_remove, trim, trim_string,
};

verus! {

/// Different input modes for the application.
#[derive(Clone, Copy, PartialEq, Eq, Debug, Structural)]
pub enum InputMode {
    Normal,
    Import,
    AddValue,
    SelectDirective,
}

/// Different focus areas in the user interface.
#[derive(Clone, Copy, PartialEq, Eq, Debug, Structural)]
pub enum Focus {
    DirectiveList,
    ValueList,
    Import,
    DirectiveSelect,
    ValueInput,
}

/// What writing the CSP string to the system clipboard gave.
pub enum ClipboardOutcome {
    /// The string is on the clipboard.
    Copied,
    /// The clipboard was there but refused the string; the reason.
    Failed(String),
    /// No clipboard could be opened; the reason.
    Unavailable(String),
}

/// The status message that reports a clipboard outcome, and whether it is a success.
pub open spec fn clipboard_message(o: ClipboardOutcome) -> (Seq<char>, bool) {
    match o {
        ClipboardOutcome::Copied => ("Copied to clipboard!"@, true),
        ClipboardOutcome::Failed(e) => ("Failed to copy: "@ + e@, false),
        ClipboardOutcome::Unavailable(e) => ("Clipboard unavailable: "@ + e@, false),
    }
}

/// The abstract state of the editor.
pub ghost struct AppModel {
    pub policy: PolicyModel,
    pub input_mode: InputMode,
    pub focus: Focus,
    pub import_input: Seq<char>,
    pub value_input: Seq<char>,
    pub selected_directive_index: usize,
    pub selected_policy_directive: usize,
    pub selected_value_index: usize,
    pub message: Option<(Seq<char>, bool)>,
    pub should_quit: bool,
    pub cursor_position: usize,
}

/// Application state.
pub struct App {
    pub policy: CspPolicy,
    pub input_mode: InputMode,
    pub focus: Focus,
    pub import_input: String,
    pub value_input: String,
    pub selected_directive_index: usize,
    pub selected_policy_directive: usize,
    pub selected_value_index: usize,
    /// The status message and whether it reports a success.
    pub message: Option<(String, bool)>,
    pub should_quit: bool,
    pub cursor_position: usize,
}

impl View for App {
    type V = AppModel;

    open spec fn view(&self) -> AppModel {
        AppModel {
            policy: self.policy@,
            input_mode: self.input_mode,
            focus: self.focus,
            import_input: self.import_input@,
            value_input: self.value_input@,
            selected_directive_index: self.selected_directive_index,
            selected_policy_directive: self.selected_policy_directive,
            selected_value_index: self.selected_value_index,
            message: match self.message {
                Some(m) => Some((m.0@, m.1)),
                None => None,
            },
            should_quit: self.should_quit,
            cursor_position: self.cursor_position,
        }
    }
}

/// The state of a freshly started editor.
pub open spec fn initial_app() -> AppModel {
    AppModel {
        policy: Seq::empty(),
        input_mode: InputMode::Normal,
        focus: Focus::DirectiveSelect,
        import_input: Seq::empty(),
        value_input: Seq::empty(),
        selected_directive_index: 0,
        selected_policy_directive: 0,
        selected_value_index: 0,
        message: None,
        should_quit: false,
        cursor_position: 0,
    }
}

/// The state with status message `text`, marked as a success when `ok`.
pub open spec fn with_message(a: AppModel, text: Seq<char>, ok: bool) -> AppModel {
    AppModel { message: Some((text, ok)), ..a }
}

/// Selecting the next offered directive, wrapping around after the last.
pub open spec fn next_directive_model(a: AppModel) -> AppModel {
    AppModel {
        selected_directive_index: ((a.selected_directive_index + 1) % (DIRECTIVE_COUNT as int)) as usize,
        ..a
    }
}

/// Selecting the previous offered directive, wrapping around before the first.
pub open spec fn previous_directive_model(a: AppModel) -> AppModel {
    AppModel {
        selected_directive_index: if a.selected_directive_index == 0 {
            (DIRECTIVE_COUNT - 1) as usize
        } else {
            (a.selected_directive_index - 1) as usize
        },
        ..a
    }
}

/// Selecting the next directive of the policy, wrapping around; the value
/// selection goes back to the first value. Nothing changes on an empty policy.
pub open spec fn next_policy_directive_model(a: AppModel) -> AppModel {
    let count = a.policy.len();
    if count > 0 {
        AppModel {
            selected_policy_directive: ((a.selected_policy_directive + 1) % (count as int)) as usize,
            selected_value_index: 0,
            ..a
        }
    } else {
        a
    }
}

/// What stepping to the next policy directive needs: the selection can still
/// move on when the policy has a directive.
pub open spec fn next_policy_directive_pre(a: AppModel) -> bool {
    a.policy.len() > 0 ==> a.selected_policy_directive < usize::MAX
}

/// Selecting the previous directive of the policy, wrapping around; the value
/// selection goes back to the first value. Nothing changes on an empty policy.
pub open spec fn previous_policy_directive_model(a: AppModel) -> AppModel {
    let count = a.policy.len();
    if count > 0 {
        AppModel {
            selected_policy_directive: if a.selected_policy_directive == 0 {
                (count - 1) as usize
            } else {
                (a.selected_policy_directive - 1) as usize
            },
            selected_value_index: 0,
            ..a
        }
    } else {
        a
    }
}

/// The number of values of the selected policy directive, if one is selected.
pub open spec fn selected_value_count(a: AppModel) -> Option<nat> {
    if a.selected_policy_directive < a.policy.len() {
        Some(a.policy[a.selected_policy_directive as int].1.len())
    } else {
        None
    }
}

/// Selecting the next value of the selected directive, wrapping around.
pub open spec fn next_value_model(a: AppModel) -> AppModel {
    match selected_value_count(a) {
        Some(count) => if count > 0 {
            AppModel {
                selected_value_index: ((a.selected_value_index + 1) % (count as int)) as usize,
                ..a
            }
        } else {
            a
        },
        None => a,
    }
}

/// What stepping to the next value needs: the selection can still move on
/// when the selected directive has a value.
pub open spec fn next_value_pre(a: AppModel) -> bool {
    match selected_value_count(a) {
        Some(count) => count > 0 ==> a.selected_value_index < usize::MAX,
        None => true,
    }
}

/// Selecting the previous value of the selected directive, wrapping around.
pub open spec fn previous_value_model(a: AppModel) -> AppModel {
    match selected_value_count(a) {
        Some(count) => if count > 0 {
            AppModel {
                selected_value_index: if a.selected_value_index == 0 {
                    (count - 1) as usize
                } else {
                    (a.selected_value_index - 1) as usize
                },
                ..a
            }
        } else {
            a
        },
        None => a,
    }
}

/// Adding the typed value (trimmed) to the selected offered directive: an
/// empty or invalid value only sets an error message; a valid one is added,
/// the value input is emptied and a success message names value and directive.
pub open spec fn add_value_app_model(a: AppModel) -> AppModel {
    let value = trim(a.value_input);
    if value.len() == 0 {
        with_message(a, "Please enter a value"@, false)
    } else if !valid_value(value) {
        with_message(
            a,
            "Invalid value format. Use valid domains, keywords like 'self', or wildcards"@,
            false,
        )
    } else {
        let directive = directive_at(a.selected_directive_index as int);
        with_message(
            AppModel {
                policy: add_value_model(a.policy, directive, value),
                value_input: Seq::empty(),
                cursor_position: 0,
                ..a
            },
            "Added '"@ + value + "' to "@ + directive,
            true,
        )
    }
}

/// What `add_value` needs: the selected offered directive exists whenever a
/// valid value is to be added.
pub open spec fn add_value_app_pre(a: AppModel) -> bool {
    let value = trim(a.value_input);
    (value.len() > 0 && valid_value(value)) ==> a.selected_directive_index < DIRECTIVE_COUNT
}

/// Deleting the selected value of the selected policy directive, with a
/// success message; the directive selection is moved back onto the last
/// directive when it ran past the end, and the value selection goes back to
/// the first value. Nothing changes when no value is selected.
pub open spec fn delete_selected_value_model(a: AppModel) -> AppModel {
    if a.selected_policy_directive < a.policy.len() && a.selected_value_index
        < a.policy[a.selected_policy_directive as int].1.len() {
        let d = a.policy[a.selected_policy_directive as int].0;
        let v = a.policy[a.selected_policy_directive as int].1[a.selected_value_index as int];
        let p = remove_value_model(a.policy, d, v);
        let n = p.len();
        with_message(
            AppModel {
                policy: p,
                selected_policy_directive: if a.selected_policy_directive >= n && n > 0 {
                    (n - 1) as usize
                } else {
                    a.selected_policy_directive
                },
                selected_value_index: 0,
                ..a
            },
            "Removed '"@ + v + "' from "@ + d,
            true,
        )
    } else {
        a
    }
}

/// Importing the typed CSP string (trimmed): an empty input only sets an
/// error message; otherwise the parsed policy replaces the current one, the
/// import input is emptied, selections are reset, and the editor returns to
/// the directive selector in normal mode with a success message.
pub open spec fn import_csp_model(a: AppModel) -> AppModel {
    let input = trim(a.import_input);
    if input.len() == 0 {
        with_message(a, "Please enter a CSP string to import"@, false)
    } else {
        with_message(
            AppModel {
                policy: parse_model(input),
                import_input: Seq::empty(),
                cursor_position: 0,
                selected_policy_directive: 0,
                selected_value_index: 0,
                input_mode: InputMode::Normal,
                focus: Focus::DirectiveSelect,
                ..a
            },
            "CSP successfully imported!"@,
            true,
        )
    }
}

/// Copying without clipboard support: an error on an empty policy string,
/// otherwise a message that points at the preview.
pub open spec fn copy_to_clipboard_model(a: AppModel) -> AppModel {
    if render_policy(a.policy).len() == 0 {
        with_message(a, "Nothing to copy - CSP is empty"@, false)
    } else {
        with_message(
            a,
            "CSP string displayed above (clipboard not available in this build)"@,
            true,
        )
    }
}

/// Emptying the policy and resetting the selections, with a success message.
pub open spec fn clear_policy_model(a: AppModel) -> AppModel {
    with_message(
        AppModel {
            policy: Seq::empty(),
            selected_policy_directive: 0,
            selected_value_index: 0,
            ..a
        },
        "Policy cleared"@,
        true,
    )
}

/// The text of the input field that has the focus, if any.
pub open spec fn focused_input(a: AppModel) -> Option<Seq<char>> {
    match a.focus {
        Focus::Import => Some(a.import_input),
        Focus::ValueInput => Some(a.value_input),
        _ => None,
    }
}

/// The state with the focused input field holding `s`.
pub open spec fn with_focused_input(a: AppModel, s: Seq<char>) -> AppModel {
    match a.focus {
        Focus::Import => AppModel { import_input: s, ..a },
        Focus::ValueInput => AppModel { value_input: s, ..a },
        _ => a,
    }
}

/// Typing `c` into the focused input field at the cursor (a byte offset),
/// which then moves one byte to the right. Nothing changes without a focused field.
pub open spec fn enter_char_model(a: AppModel, c: char) -> AppModel {
    match focused_input(a) {
        Some(s) => AppModel {
            cursor_position: (a.cursor_position + 1) as usize,
            ..with_focused_input(a, s.insert(char_index_at(s, a.cursor_position as int), c))
        },
        None => a,
    }
}

/// What `enter_char` needs: the cursor of a focused field is on a character
/// boundary and can still move right.
pub open spec fn enter_char_pre(a: AppModel) -> bool {
    match focused_input(a) {
        Some(s) => on_char_boundary(s, a.cursor_position as int) && a.cursor_position
            < usize::MAX,
        None => true,
    }
}

/// Deleting the character before the cursor of the focused input field: the
/// cursor moves one byte left and the character found there is removed.
/// Nothing changes at the start of the field or without a focused field.
pub open spec fn delete_char_model(a: AppModel) -> AppModel {
    match focused_input(a) {
        Some(s) => if a.cursor_position > 0 {
            let pos = (a.cursor_position - 1) as usize;
            AppModel {
                cursor_position: pos,
                ..with_focused_input(a, s.remove(char_index_at(s, pos as int)))
            }
        } else {
            a
        },
        None => a,
    }
}

/// What `delete_char` needs: one byte left of the cursor of a focused field
/// starts a character.
pub open spec fn delete_char_pre(a: AppModel) -> bool {
    match focused_input(a) {
        Some(s) => a.cursor_position > 0 ==> (on_char_boundary(s, a.cursor_position - 1)
            && a.cursor_position - 1 < byte_len(s)),
        None => true,
    }
}

/// The state without a status message.
pub open spec fn clear_message_model(a: AppModel) -> AppModel {
    AppModel { message: None, ..a }
}

/// Moving the cursor to the start of the field.
pub open spec fn move_cursor_to_start_model(a: AppModel) -> AppModel {
    AppModel { cursor_position: 0, ..a }
}

/// Moving the cursor one byte to the left, unless it is at the start.
pub open spec fn move_cursor_left_model(a: AppModel) -> AppModel {
    if a.cursor_position > 0 {
        AppModel { cursor_position: (a.cursor_position - 1) as usize, ..a }
    } else {
        a
    }
}

/// The byte length of the focused input field, zero without one.
pub open spec fn focused_len(a: AppModel) -> nat {
    match focused_input(a) {
        Some(s) => byte_len(s),
        None => 0,
    }
}

/// Moving the cursor one byte to the right, unless it is at the end of the
/// focused field.
pub open spec fn move_cursor_right_model(a: AppModel) -> AppModel {
    if a.cursor_position < focused_len(a) as usize {
        AppModel { cursor_position: (a.cursor_position + 1) as usize, ..a }
    } else {
        a
    }
}

/// Moving the cursor to the end of the focused field (to zero without one).
pub open spec fn move_cursor_to_end_model(a: AppModel) -> AppModel {
    AppModel { cursor_position: focused_len(a) as usize, ..a }
}

impl App {
    /// A fresh editor: empty policy and inputs, focus on the directive selector.
    pub fn new() -> (r: Self)
        ensures
            r@ == initial_app(),
    {
        let r = App {
            policy: CspPolicy::new(),
            input_mode: InputMode::Normal,
            focus: Focus::DirectiveSelect,
            import_input: String::new(),
            value_input: String::new(),
            selected_directive_index: 0,
            selected_policy_directive: 0,
            selected_value_index: 0,
            message: None,
            should_quit: false,
            cursor_position: 0,
        };
        assert(r@ =~= initial_app());
        r
    }

    /// The name of the selected offered directive.
    pub fn get_selected_directive(&self) -> (r: &str)
        requires
            self.selected_directive_index < DIRECTIVE_COUNT,
        ensures
            r@ == directive_at(self.selected_directive_index as int),
    {
        directive_name(self.selected_directive_index)
    }

    /// Selects the next offered directive, wrapping around after the last.
    pub fn next_directive(&mut self)
        requires
            old(self).selected_directive_index < usize::MAX,
        ensures
            final(self)@ == next_directive_model(old(self)@),
    {
        self.selected_directive_index = (self.selected_directive_index + 1) % DIRECTIVE_COUNT;
    }

    /// Selects the previous offered directive, wrapping around before the first.
    pub fn previous_directive(&mut self)
        ensures
            final(self)@ == previous_directive_model(old(self)@),
    {
        if self.selected_directive_index == 0 {
            self.selected_directive_index = DIRECTIVE_COUNT - 1;
        } else {
            self.selected_directive_index -= 1;
        }
    }

    /// Selects the next directive of the policy, wrapping around.
    pub fn next_policy_directive(&mut self)
        requires
            next_policy_directive_pre(old(self)@),
        ensures
            final(self)@ == next_policy_directive_model(old(self)@),
    {
        let count = self.policy.get_directives().len();
        if count > 0 {
            self.selected_policy_directive = (self.selected_policy_directive + 1) % count;
            self.selected_value_index = 0;
        }
    }

    /// Selects the previous directive of the policy, wrapping around.
    pub fn previous_policy_directive(&mut self)
        ensures
            final(self)@ == previous_policy_directive_model(old(self)@),
    {
        let count = self.policy.get_directives().len();
        if count > 0 {
            if self.selected_policy_directive == 0 {
                self.selected_policy_directive = count - 1;
            } else {
                self.selected_policy_directive -= 1;
            }
            self.selected_value_index = 0;
        }
    }

    /// Selects the next value of the selected directive, wrapping around.
    pub fn next_value(&mut self)
        requires
            next_value_pre(old(self)@),
        ensures
            final(self)@ == next_value_model(old(self)@),
    {
        let directives = self.policy.get_directives();
        if self.selected_policy_directive < directives.len() {
            let count = directives[self.selected_policy_directive].1.len();
            if count > 0 {
                self.selected_value_index = (self.selected_value_index + 1) % count;
            }
        }
    }

    /// Selects the previous value of the selected directive, wrapping around.
    pub fn previous_value(&mut self)
        ensures
            final(self)@ == previous_value_model(old(self)@),
    {
        let directives = self.policy.get_directives();
        if self.selected_policy_directive < directives.len() {
            let count = directives[self.selected_policy_directive].1.len();
            if count > 0 {
                if self.selected_value_index == 0 {
                    self.selected_value_index = count - 1;
                } else {
                    self.selected_value_index -= 1;
                }
            }
        }
    }

    fn set_error(&mut self, msg: &str)
        ensures
            final(self)@ == with_message(old(self)@, msg@, false),
    {
        self.message = Some((msg.to_owned(), false));
    }

    fn set_success(&mut self, msg: &str)
        ensures
            final(self)@ == with_message(old(self)@, msg@, true),
    {
        self.message = Some((msg.to_owned(), true));
    }

    /// Adds the typed value to the selected offered directive (see `add_value_app_model`).
    pub fn add_value(&mut self)
        requires
            add_value_app_pre(old(self)@),
        ensures
            final(self)@ == add_value_app_model(old(self)@),
    {
        let value = trim_string(self.value_input.as_str());
        if value.as_str().is_empty() {
            self.set_error("Please enter a value");
            return ;
        }
        if !is_valid_value(value.as_str()) {
            self.set_error(
                "Invalid value format. Use valid domains, keywords like 'self', or wildcards",
            );
            return ;
        }
        let directive = self.get_selected_directive().to_owned();
        self.policy.add_value(directive.as_str(), value.as_str());
        self.value_input = String::new();
        self.cursor_position = 0;
        let mut msg = String::new();
        msg.append("Added '");
        msg.append(value.as_str());
        msg.append("' to ");
        msg.append(directive.as_str());
        self.set_success(msg.as_str());
    }

    /// Deletes the selected value of the selected policy directive (see
    /// `delete_selected_value_model`).
    pub fn delete_selected_value(&mut self)
        ensures
            final(self)@ == delete_selected_value_model(old(self)@),
    {
        let directives = self.policy.get_directives();
        if self.selected_policy_directive < directives.len() {
            let values = directives[self.selected_policy_directive].1;
            match values.get(self.selected_value_index) {
                Some(value) => {
                    let directive = directives[self.selected_policy_directive].0.clone();
                    let value = value.clone();
                    self.policy.remove_value(directive.as_str(), value.as_str());
                    let mut msg = String::new();
                    msg.append("Removed '");
                    msg.append(value.as_str());
                    msg.append("' from ");
                    msg.append(directive.as_str());
                    self.set_success(msg.as_str());
                    let new_count = self.policy.get_directives().len();
                    if self.selected_policy_directive >= new_count && new_count > 0 {
                        self.selected_policy_directive = new_count - 1;
                    }
                    self.selected_value_index = 0;
                },
                None => {},
            }
        }
    }

    /// Imports the typed CSP string (see `import_csp_model`).
    pub fn import_csp(&mut self)
        ensures
            final(self)@ == import_csp_model(old(self)@),
    {
        let input = trim_string(self.import_input.as_str());
        if input.as_str().is_empty() {
            self.set_error("Please enter a CSP string to import");
            return ;
        }
        match CspPolicy::parse(input.as_str()) {
            Ok(policy) => {
                self.policy = policy;
                self.import_input = String::new();
                self.cursor_position = 0;
                self.selected_policy_directive = 0;
                self.selected_value_index = 0;
                self.set_success("CSP successfully imported!");
                self.input_mode = InputMode::Normal;
                self.focus = Focus::DirectiveSelect;
            },
            Err(e) => {
                let mut msg = String::new();
                msg.append("Error parsing CSP: ");
                msg.append(e.as_str());
                self.set_error(msg.as_str());
            },
        }
    }

    /// The CSP string of the policy being edited.
    pub fn get_csp_string(&self) -> (r: String)
        ensures
            r@ == render_policy(self.policy@),
    {
        self.policy.to_string()
    }

    /// Reports on copying the CSP string; this build has no clipboard (see
    /// `copy_to_clipboard_model`).
    pub fn copy_to_clipboard(&mut self)
        ensures
            final(self)@ == copy_to_clipboard_model(old(self)@),
    {
        let csp = self.get_csp_string();
        if csp.as_str().is_empty() {
            self.set_error("Nothing to copy - CSP is empty");
            return ;
        }
        self.set_success("CSP string displayed above (clipboard not available in this build)");
    }

    /// For a build with a clipboard: the CSP string to copy, or `None` with an
    /// error message when it is empty.
    pub fn clipboard_text(&mut self) -> (r: Option<String>)
        ensures
            render_policy(old(self)@.policy).len() == 0 ==> r is None && final(self)@
                == with_message(old(self)@, "Nothing to copy - CSP is empty"@, false),
            render_policy(old(self)@.policy).len() > 0 ==> r is Some && r.unwrap()@
                == render_policy(old(self)@.policy) && final(self)@ == old(self)@,
    {
        let csp = self.get_csp_string();
        if csp.as_str().is_empty() {
            self.set_error("Nothing to copy - CSP is empty");
            return None;
        }
        Some(csp)
    }

    /// For a build with a clipboard: reports what writing to the clipboard gave.
    pub fn report_clipboard(&mut self, outcome: ClipboardOutcome)
        ensures
            final(self)@ == with_message(
                old(self)@,
                clipboard_message(outcome).0,
                clipboard_message(outcome).1,
            ),
    {
        match outcome {
            ClipboardOutcome::Copied => self.set_success("Copied to clipboard!"),
            ClipboardOutcome::Failed(e) => {
                let mut msg = String::new();
                msg.append("Failed to copy: ");
                msg.append(e.as_str());
                self.set_error(msg.as_str());
            },
            ClipboardOutcome::Unavailable(e) => {
                let mut msg = String::new();
                msg.append("Clipboard unavailable: ");
                msg.append(e.as_str());
                self.set_error(msg.as_str());
            },
        }
    }

    /// Empties the policy and resets the selections.
    pub fn clear_policy(&mut self)
        ensures
            final(self)@ == clear_policy_model(old(self)@),
    {
        self.policy.clear();
        self.selected_policy_directive = 0;
        self.selected_value_index = 0;
        self.set_success("Policy cleared");
    }

    /// Removes the status message.
    pub fn clear_message(&mut self)
        ensures
            final(self)@ == clear_message_model(old(self)@),
    {
        self.message = None;
    }

    /// Types `c` into the focused input field at the cursor.
    pub fn enter_char(&mut self, c: char)
        requires
            enter_char_pre(old(self)@),
        ensures
            final(self)@ == enter_char_model(old(self)@, c),
    {
        match self.focus {
            Focus::Import => {
                string_insert(&mut self.import_input, self.cursor_position, c);
                self.cursor_position += 1;
            },
            Focus::ValueInput => {
                string_insert(&mut self.value_input, self.cursor_position, c);
                self.cursor_position += 1;
            },
            _ => {},
        }
    }

    /// Deletes the character before the cursor of the focused input field.
    pub fn delete_char(&mut self)
        requires
            delete_char_pre(old(self)@),
        ensures
            final(self)@ == delete_char_model(old(self)@),
    {
        match self.focus {
            Focus::Import => {
                if self.cursor_position > 0 {
                    self.cursor_position -= 1;
                    string_remove(&mut self.import_input, self.cursor_position);
                }
            },
            Focus::ValueInput => {
                if self.cursor_position > 0 {
                    self.cursor_position -= 1;
                    string_remove(&mut self.value_input, self.cursor_position);
                }
            },
            _ => {},
        }
    }

    /// Moves the cursor one byte to the left, unless it is at the start.
    pub fn move_cursor_left(&mut self)
        ensures
            final(self)@ == move_cursor_left_model(old(self)@),
    {
        if self.cursor_position > 0 {
            self.cursor_position -= 1;
        }
    }

    /// Moves the cursor one byte to the right, unless it is at the end of the focused field.
    pub fn move_cursor_right(&mut self)
        ensures
            final(self)@ == move_cursor_right_model(old(self)@),
    {
        let len = match self.focus {
            Focus::Import => string_byte_len(&self.import_input),
            Focus::ValueInput => string_byte_len(&self.value_input),
            _ => 0,
        };
        if self.cursor_position < len {
            self.cursor_position += 1;
        }
    }

    /// Moves the cursor to the start of the field.
    pub fn move_cursor_to_start(&mut self)
        ensures
            final(self)@ == move_cursor_to_start_model(old(self)@),
    {
        self.cursor_position = 0;
    }

    /// Moves the cursor to the end of the focused field.
    pub fn move_cursor_to_end(&mut self)
        ensures
            final(self)@ == move_cursor_to_end_model(old(self)@),
    {
        self.cursor_position = match self.focus {
            Focus::Import => string_byte_len(&self.import_input),
            Focus::ValueInput => string_byte_len(&self.value_input),
            _ => 0,
        };
    }
}

/// One step forward with wrap-around, and one step back from anywhere.
proof fn lemma_wrap_step(x: int, n: int)
    requires
        0 <= x < n,
    ensures
        x + 1 < n ==> (x + 1) % n == x + 1,
        x + 1 == n ==> (x + 1) % n == 0,
        x == 0 ==> (n - 1 + 1) % n == 0,
        x > 0 ==> (x - 1 + 1) % n == x,
{
    if x + 1 < n {
        vstd::arithmetic::div_mod::lemma_small_mod((x + 1) as nat, n as nat);
    }
    vstd::arithmetic::div_mod::lemma_mod_self_0(n);
    if x > 0 {
        vstd::arithmetic::div_mod::lemma_small_mod(x as nat, n as nat);
    }
}

/// Stepping to the next offered directive and back (or back and then on)
/// returns to the same directive, and each step keeps the selection among
/// the offered directives.
pub proof fn lemma_directive_navigation(a: AppModel)
    requires
        a.selected_directive_index < DIRECTIVE_COUNT,
    ensures
        previous_directive_model(next_directive_model(a)) == a,
        next_directive_model(previous_directive_model(a)) == a,
        next_directive_model(a).selected_directive_index < DIRECTIVE_COUNT,
        previous_directive_model(a).selected_directive_index < DIRECTIVE_COUNT,
{
}

/// Stepping through the policy's directives forth and back returns to the
/// same directive (on its first value), and each step keeps the selection
/// within the policy.
pub proof fn lemma_policy_directive_navigation(a: AppModel)
    requires
        a.selected_policy_directive < a.policy.len() <= usize::MAX,
    ensures
        previous_policy_directive_model(next_policy_directive_model(a)) == (AppModel {
            selected_value_index: 0,
            ..a
        }),
        next_policy_directive_model(previous_policy_directive_model(a)) == (AppModel {
            selected_value_index: 0,
            ..a
        }),
        next_policy_directive_model(a).selected_policy_directive < a.policy.len(),
        previous_policy_directive_model(a).selected_policy_directive < a.policy.len(),
{
    let n = a.policy.len() as int;
    let x = a.selected_policy_directive as int;
    lemma_wrap_step(x, n);
    let target = AppModel { selected_value_index: 0, ..a };
    let f = next_policy_directive_model(a);
    let fb = previous_policy_directive_model(f);
    assert(f.policy == a.policy);
    assert(fb.selected_policy_directive == a.selected_policy_directive);
    assert(fb == target);
    let b = previous_policy_directive_model(a);
    let bf = next_policy_directive_model(b);
    assert(b.policy == a.policy);
    assert(bf.selected_policy_directive == a.selected_policy_directive);
    assert(bf == target);
}

/// Stepping through the selected directive's values forth and back returns
/// to the same value, and each step keeps the selection among its values.
pub proof fn lemma_value_navigation(a: AppModel)
    requires
        a.selected_policy_directive < a.policy.len(),
        a.selected_value_index < a.policy[a.selected_policy_directive as int].1.len() <= usize::MAX,
    ensures
        previous_value_model(next_value_model(a)) == a,
        next_value_model(previous_value_model(a)) == a,
        next_value_model(a).selected_value_index < a.policy[a.selected_policy_directive as int].1.len(),
        previous_value_model(a).selected_value_index < a.policy[a.selected_policy_directive as int].1.len(),
{
    let n = a.policy[a.selected_policy_directive as int].1.len() as int;
    let x = a.selected_value_index as int;
    lemma_wrap_step(x, n);
    assert(selected_value_count(a) == Some(n as nat));
    let f = next_value_model(a);
    assert(f.policy == a.policy && f.selected_policy_directive == a.selected_policy_directive);
    assert(selected_value_count(f) == Some(n as nat));
    let fb = previous_value_model(f);
    assert(fb.selected_value_index == a.selected_value_index);
    assert(fb == a);
    let b = previous_value_model(a);
    assert(b.policy == a.policy && b.selected_policy_directive == a.selected_policy_directive);
    assert(selected_value_count(b) == Some(n as nat));
    let bf = next_value_model(b);
    assert(bf.selected_value_index == a.selected_value_index);
    assert(bf == a);
}

/// Adding a valid typed value puts it into the selected offered directive.
pub proof fn lemma_add_value_adds(a: AppModel)
    requires
        policy_wf(a.policy),
        trim(a.value_input).len() > 0,
        valid_value(trim(a.value_input)),
    ensures
        lookup(add_value_app_model(a).policy, directive_at(a.selected_directive_index as int)) is Some,
        lookup(add_value_app_model(a).policy, directive_at(a.selected_directive_index as int)).unwrap().contains(
            trim(a.value_input),
        ),
        forall|other: Seq<char>|
            other != directive_at(a.selected_directive_index as int) ==> #[trigger] lookup(
                add_value_app_model(a).policy,
                other,
            ) == lookup(a.policy, other),
{
    let d = directive_at(a.selected_directive_index as int);
    lemma_add_then_lookup(a.policy, d, trim(a.value_input), d);
    assert forall|other: Seq<char>| other != d implies #[trigger] lookup(
        add_value_app_model(a).policy,
        other,
    ) == lookup(a.policy, other) by {
        lemma_add_then_lookup(a.policy, d, trim(a.value_input), other);
    }
}

/// Deleting the selected value takes that value out of its directive, and
/// leaves the directive selection within the policy unless the policy became
/// empty.
pub proof fn lemma_delete_selected_value(a: AppModel)
    requires
        policy_wf(a.policy),
        a.selected_policy_directive < a.policy.len(),
        a.selected_value_index < a.policy[a.selected_policy_directive as int].1.len(),
    ensures
        ({
            let b = delete_selected_value_model(a);
            let d = a.policy[a.selected_policy_directive as int].0;
            let v = a.policy[a.selected_policy_directive as int].1[a.selected_value_index as int];
            &&& b.policy.len() == 0 || b.selected_policy_directive < b.policy.len()
            &&& match lookup(b.policy, d) {
                Some(vals) => !vals.contains(v),
                None => true,
            }
            &&& forall|other: Seq<char>|
                other != d ==> #[trigger] lookup(b.policy, other) == lookup(a.policy, other)
        }),
{
    let d = a.policy[a.selected_policy_directive as int].0;
    let v = a.policy[a.selected_policy_directive as int].1[a.selected_value_index as int];
    lemma_remove_then_lookup(a.policy, d, v, d);
    let b = delete_selected_value_model(a);
    assert forall|other: Seq<char>| other != d implies #[trigger] lookup(b.policy, other) == lookup(
        a.policy,
        other,
    ) by {
        lemma_remove_then_lookup(a.policy, d, v, other);
    }
}

/// Importing a non-blank string replaces the policy by the one that the
/// trimmed string denotes, whatever policy the editor held before: two
/// editors that import the same text end with the same policy.
pub proof fn lemma_import_replaces_policy(a: AppModel, b: AppModel)
    requires
        trim(a.import_input).len() > 0,
        b.import_input == a.import_input,
    ensures
        import_csp_model(a).policy == parse_model(trim(a.import_input)),
        import_csp_model(a).policy == import_csp_model(b).policy,
        import_csp_model(a).message == Some(("CSP successfully imported!"@, true)),
{
}

/// Typing a character at a character boundary of the focused field and then
/// deleting back restores the field and the cursor.
pub proof fn lemma_enter_then_delete(a: AppModel, c: char, k: int)
    requires
        focused_input(a) is Some,
        0 <= k <= focused_input(a).unwrap().len(),
        a.cursor_position == byte_len(focused_input(a).unwrap().take(k)),
        a.cursor_position < usize::MAX,
    ensures
        enter_char_pre(a),
        delete_char_pre(enter_char_model(a, c)),
        delete_char_model(enter_char_model(a, c)) == a,
{
    let s = focused_input(a).unwrap();
    let b = a.cursor_position as int;
    lemma_prefix_boundary(s, k);
    let s2 = s.insert(k, c);
    assert(s2.take(k) =~= s.take(k));
    lemma_prefix_boundary(s2, k);
    assert(s2.take(k + 1) =~= s.take(k).push(c));
    lemma_byte_len_push(s.take(k), c);
    assert(vstd::utf8::encode_scalar(c as u32).len() >= 1);
    lemma_encode_concat(s2.take(k + 1), s2.skip(k + 1));
    assert(s2.take(k + 1) + s2.skip(k + 1) =~= s2);
    assert(byte_len(s2) >= b + 1);
    assert(s2.remove(k) =~= s);
    let e = enter_char_model(a, c);
    assert(focused_input(e) == Some(s2));
    assert(e.cursor_position == b + 1);
}

} // verus!
