use csp_editor::app::{App, ClipboardOutcome, Focus, InputMode};
use csp_editor::keys::{
    handle_directive_list, handle_directive_select, handle_import_input, handle_key,
    handle_value_input, key_allowed, requests_copy, Key,
};

fn msg(app: &App) -> Option<(String, bool)> {
    app.message.clone()
}

#[test]
fn new_app_state() {
    let app = App::new();
    assert!(app.policy.is_empty());
    assert_eq!(app.input_mode, InputMode::Normal);
    assert_eq!(app.focus, Focus::DirectiveSelect);
    assert_eq!(app.get_selected_directive(), "default-src");
    assert!(app.message.is_none());
    assert!(!app.should_quit);
    assert_eq!(app.cursor_position, 0);
}

#[test]
fn directive_selection_wraps() {
    let mut app = App::new();
    app.previous_directive();
    assert_eq!(app.selected_directive_index, 18);
    assert_eq!(app.get_selected_directive(), "prefetch-src");
    app.next_directive();
    assert_eq!(app.selected_directive_index, 0);
    app.next_directive();
    app.previous_directive();
    assert_eq!(app.selected_directive_index, 0);
}

#[test]
fn add_value_messages() {
    let mut app = App::new();
    app.value_input = "   ".to_string();
    app.add_value();
    assert_eq!(msg(&app), Some(("Please enter a value".to_string(), false)));
    app.value_input = "self".to_string();
    app.add_value();
    assert_eq!(
        msg(&app),
        Some((
            "Invalid value format. Use valid domains, keywords like 'self', or wildcards".to_string(),
            false
        ))
    );
    assert_eq!(app.value_input, "self");
    app.value_input = "  'self' ".to_string();
    app.cursor_position = 3;
    app.add_value();
    assert_eq!(msg(&app), Some(("Added ''self'' to default-src".to_string(), true)));
    assert_eq!(app.value_input, "");
    assert_eq!(app.cursor_position, 0);
    assert_eq!(app.get_csp_string(), "default-src 'self'");
}

#[test]
fn policy_navigation_and_delete() {
    let mut app = App::new();
    app.import_input = "img-src a.com b.com; script-src 'self'".to_string();
    app.import_csp();
    assert_eq!(msg(&app), Some(("CSP successfully imported!".to_string(), true)));
    app.next_policy_directive();
    assert_eq!(app.selected_policy_directive, 1);
    app.next_policy_directive();
    assert_eq!(app.selected_policy_directive, 0);
    app.previous_policy_directive();
    assert_eq!(app.selected_policy_directive, 1);
    app.previous_policy_directive();
    app.next_value();
    assert_eq!(app.selected_value_index, 1);
    app.next_value();
    assert_eq!(app.selected_value_index, 0);
    app.previous_value();
    assert_eq!(app.selected_value_index, 1);
    app.delete_selected_value();
    assert_eq!(msg(&app), Some(("Removed 'b.com' from img-src".to_string(), true)));
    assert_eq!(app.selected_value_index, 0);
    assert_eq!(app.get_csp_string(), "img-src a.com; script-src 'self'");
    app.selected_policy_directive = 1;
    app.delete_selected_value();
    assert_eq!(app.get_csp_string(), "img-src a.com");
    assert_eq!(app.selected_policy_directive, 0);
    // nothing selected: nothing happens
    app.selected_value_index = 5;
    app.delete_selected_value();
    assert_eq!(app.get_csp_string(), "img-src a.com");
}

#[test]
fn navigation_on_empty_policy_does_nothing() {
    let mut app = App::new();
    app.selected_value_index = 3;
    app.next_policy_directive();
    app.previous_policy_directive();
    app.next_value();
    app.previous_value();
    assert_eq!(app.selected_policy_directive, 0);
    assert_eq!(app.selected_value_index, 3);
}

#[test]
fn import_errors_and_state_reset() {
    let mut app = App::new();
    app.import_input = " \t ".to_string();
    app.import_csp();
    assert_eq!(msg(&app), Some(("Please enter a CSP string to import".to_string(), false)));
    app.import_input = " default-src 'self' ".to_string();
    app.focus = Focus::Import;
    app.input_mode = InputMode::Import;
    app.selected_policy_directive = 4;
    app.import_csp();
    assert_eq!(app.import_input, "");
    assert_eq!(app.focus, Focus::DirectiveSelect);
    assert_eq!(app.input_mode, InputMode::Normal);
    assert_eq!(app.selected_policy_directive, 0);
    assert_eq!(app.get_csp_string(), "default-src 'self'");
}

#[test]
fn copy_and_clear() {
    let mut app = App::new();
    app.copy_to_clipboard();
    assert_eq!(msg(&app), Some(("Nothing to copy - CSP is empty".to_string(), false)));
    app.policy.add_value("img-src", "a.com");
    app.copy_to_clipboard();
    assert_eq!(
        msg(&app),
        Some(("CSP string displayed above (clipboard not available in this build)".to_string(), true))
    );
    app.clear_policy();
    assert_eq!(msg(&app), Some(("Policy cleared".to_string(), true)));
    assert!(app.policy.is_empty());
    app.clear_message();
    assert!(app.message.is_none());
}

#[test]
fn typing_and_cursor() {
    let mut app = App::new();
    app.enter_char('z');
    assert_eq!(app.value_input, "");
    app.focus = Focus::ValueInput;
    app.enter_char('a');
    app.enter_char('c');
    app.move_cursor_left();
    app.enter_char('b');
    assert_eq!(app.value_input, "abc");
    assert_eq!(app.cursor_position, 2);
    app.delete_char();
    assert_eq!(app.value_input, "ac");
    assert_eq!(app.cursor_position, 1);
    app.move_cursor_to_end();
    assert_eq!(app.cursor_position, 2);
    app.move_cursor_right();
    assert_eq!(app.cursor_position, 2);
    app.move_cursor_to_start();
    app.delete_char();
    assert_eq!(app.value_input, "ac");
    app.move_cursor_left();
    assert_eq!(app.cursor_position, 0);
    app.focus = Focus::Import;
    app.enter_char('x');
    assert_eq!(app.import_input, "x");
    // a two-byte character moves the end two bytes further
    app.import_input = "\u{e9}".to_string();
    app.move_cursor_to_end();
    assert_eq!(app.cursor_position, 2);
}

#[test]
fn enter_then_delete_restores_field() {
    let mut app = App::new();
    app.focus = Focus::Import;
    app.import_input = "ab".to_string();
    app.cursor_position = 1;
    app.enter_char('q');
    assert_eq!(app.import_input, "aqb");
    app.delete_char();
    assert_eq!(app.import_input, "ab");
    assert_eq!(app.cursor_position, 1);
}

#[test]
fn import_field_keys() {
    let mut app = App::new();
    app.focus = Focus::Import;
    for c in "img-src data:".chars() {
        handle_import_input(&mut app, Key::Char(c), false);
    }
    assert_eq!(app.import_input, "img-src data:");
    handle_import_input(&mut app, Key::Home, false);
    assert_eq!(app.cursor_position, 0);
    handle_import_input(&mut app, Key::End, false);
    assert_eq!(app.cursor_position, 13);
    handle_import_input(&mut app, Key::Backspace, false);
    handle_import_input(&mut app, Key::Left, false);
    handle_import_input(&mut app, Key::Right, false);
    handle_import_input(&mut app, Key::Char(':'), false);
    handle_import_input(&mut app, Key::Enter, false);
    assert_eq!(app.get_csp_string(), "img-src data:");
    assert_eq!(app.focus, Focus::DirectiveSelect);
    app.focus = Focus::Import;
    app.import_input = "junk".to_string();
    handle_import_input(&mut app, Key::Esc, false);
    assert_eq!(app.import_input, "");
    assert_eq!(app.focus, Focus::DirectiveSelect);
    app.focus = Focus::Import;
    handle_import_input(&mut app, Key::Char('q'), false);
    assert!(!app.should_quit);
    assert_eq!(app.import_input, "q");
    handle_import_input(&mut app, Key::Char('q'), true);
    assert!(app.should_quit);
}

#[test]
fn directive_select_keys() {
    let mut app = App::new();
    handle_directive_select(&mut app, Key::Right);
    assert_eq!(app.get_selected_directive(), "script-src");
    handle_directive_select(&mut app, Key::Left);
    handle_directive_select(&mut app, Key::Left);
    assert_eq!(app.get_selected_directive(), "prefetch-src");
    handle_directive_select(&mut app, Key::Down);
    assert_eq!(app.focus, Focus::DirectiveSelect);
    app.value_input = "ab".to_string();
    handle_directive_select(&mut app, Key::Tab);
    assert_eq!(app.focus, Focus::ValueInput);
    assert_eq!(app.cursor_position, 2);
    app.focus = Focus::DirectiveSelect;
    handle_directive_select(&mut app, Key::BackTab);
    assert_eq!(app.focus, Focus::Import);
    assert_eq!(app.cursor_position, 0);
    app.focus = Focus::DirectiveSelect;
    handle_directive_select(&mut app, Key::Char('c'));
    assert_eq!(app.message.as_ref().unwrap().1, false);
    app.policy.add_value("img-src", "a.com");
    handle_directive_select(&mut app, Key::Down);
    assert_eq!(app.focus, Focus::DirectiveList);
    app.focus = Focus::DirectiveSelect;
    handle_directive_select(&mut app, Key::Char('q'));
    assert!(app.should_quit);
}

#[test]
fn value_input_keys() {
    let mut app = App::new();
    app.focus = Focus::ValueInput;
    for c in "'none'".chars() {
        handle_value_input(&mut app, Key::Char(c), false);
    }
    handle_value_input(&mut app, Key::Enter, false);
    assert_eq!(app.get_csp_string(), "default-src 'none'");
    handle_value_input(&mut app, Key::Char('x'), false);
    handle_value_input(&mut app, Key::Esc, false);
    assert_eq!(app.value_input, "");
    handle_value_input(&mut app, Key::Tab, false);
    assert_eq!(app.focus, Focus::DirectiveList);
    app.focus = Focus::ValueInput;
    handle_value_input(&mut app, Key::BackTab, false);
    assert_eq!(app.focus, Focus::DirectiveSelect);
    app.policy.clear();
    app.focus = Focus::ValueInput;
    handle_value_input(&mut app, Key::Tab, false);
    assert_eq!(app.focus, Focus::Import);
    app.focus = Focus::ValueInput;
    handle_value_input(&mut app, Key::Char('q'), true);
    assert!(app.should_quit);
}

#[test]
fn directive_list_keys() {
    let mut app = App::new();
    app.policy = csp_editor::csp::CspPolicy::parse("img-src a.com b.com; font-src f.com").unwrap();
    app.focus = Focus::DirectiveList;
    handle_directive_list(&mut app, Key::Down);
    assert_eq!(app.selected_policy_directive, 1);
    handle_directive_list(&mut app, Key::Up);
    assert_eq!(app.selected_policy_directive, 0);
    handle_directive_list(&mut app, Key::Right);
    assert_eq!(app.focus, Focus::ValueList);
    assert_eq!(app.selected_value_index, 1);
    handle_directive_list(&mut app, Key::Left);
    assert_eq!(app.selected_value_index, 0);
    handle_directive_list(&mut app, Key::Char('d'));
    assert_eq!(app.get_csp_string(), "img-src b.com; font-src f.com");
    handle_directive_list(&mut app, Key::Delete);
    assert_eq!(app.get_csp_string(), "font-src f.com");
    assert_eq!(app.focus, Focus::ValueList);
    handle_directive_list(&mut app, Key::Char('d'));
    assert!(app.policy.is_empty());
    assert_eq!(app.focus, Focus::DirectiveSelect);
    app.policy.add_value("img-src", "a.com");
    app.focus = Focus::DirectiveList;
    handle_directive_list(&mut app, Key::Char('x'));
    assert!(app.policy.is_empty());
    assert_eq!(app.focus, Focus::DirectiveSelect);
    app.focus = Focus::DirectiveList;
    app.import_input = "abc".to_string();
    handle_directive_list(&mut app, Key::Tab);
    assert_eq!(app.focus, Focus::Import);
    assert_eq!(app.cursor_position, 3);
    app.focus = Focus::DirectiveList;
    handle_directive_list(&mut app, Key::BackTab);
    assert_eq!(app.focus, Focus::ValueInput);
    app.focus = Focus::ValueList;
    handle_directive_list(&mut app, Key::Esc);
    assert_eq!(app.focus, Focus::DirectiveSelect);
    app.focus = Focus::ValueList;
    handle_directive_list(&mut app, Key::Char('q'));
    assert!(app.should_quit);
}

#[test]
fn handle_key_clears_message_and_dispatches() {
    let mut app = App::new();
    app.message = Some(("old".to_string(), true));
    handle_key(&mut app, Key::Tab, false);
    assert!(app.message.is_none());
    assert_eq!(app.focus, Focus::ValueInput);
    handle_key(&mut app, Key::Char('*'), false);
    handle_key(&mut app, Key::Enter, false);
    assert_eq!(app.get_csp_string(), "default-src *");
    handle_key(&mut app, Key::Other, false);
    assert!(app.message.is_none());
}

#[test]
fn import_field_back_tab() {
    let mut app = App::new();
    app.focus = Focus::Import;
    app.value_input = "abc".to_string();
    handle_import_input(&mut app, Key::BackTab, false);
    assert_eq!(app.focus, Focus::ValueInput);
    assert_eq!(app.cursor_position, 3);
    app.policy.add_value("img-src", "a.com");
    app.focus = Focus::Import;
    handle_import_input(&mut app, Key::BackTab, false);
    assert_eq!(app.focus, Focus::DirectiveList);
    assert_eq!(app.cursor_position, 0);
}

#[test]
fn clipboard_decisions_and_reports() {
    let mut app = App::new();
    assert!(app.clipboard_text().is_none());
    assert_eq!(msg(&app), Some(("Nothing to copy - CSP is empty".to_string(), false)));
    app.clear_message();
    app.policy.add_value("img-src", "a.com");
    assert_eq!(app.clipboard_text(), Some("img-src a.com".to_string()));
    assert!(app.message.is_none());
    app.report_clipboard(ClipboardOutcome::Copied);
    assert_eq!(msg(&app), Some(("Copied to clipboard!".to_string(), true)));
    app.report_clipboard(ClipboardOutcome::Failed("busy".to_string()));
    assert_eq!(msg(&app), Some(("Failed to copy: busy".to_string(), false)));
    app.report_clipboard(ClipboardOutcome::Unavailable("no display".to_string()));
    assert_eq!(msg(&app), Some(("Clipboard unavailable: no display".to_string(), false)));
}

#[test]
fn copy_key_requests() {
    let mut app = App::new();
    assert!(requests_copy(&app, Key::Char('c')));
    assert!(!requests_copy(&app, Key::Char('x')));
    app.focus = Focus::ValueList;
    assert!(requests_copy(&app, Key::Char('c')));
    app.focus = Focus::ValueInput;
    assert!(!requests_copy(&app, Key::Char('c')));
    app.focus = Focus::Import;
    assert!(!requests_copy(&app, Key::Char('c')));
}

#[test]
fn enter_then_delete_with_wide_character() {
    let mut app = App::new();
    app.focus = Focus::ValueInput;
    app.value_input = "ab".to_string();
    app.cursor_position = 1;
    app.enter_char('\u{e9}');
    assert_eq!(app.value_input, "a\u{e9}b");
    assert_eq!(app.cursor_position, 2);
    app.delete_char();
    assert_eq!(app.value_input, "ab");
    assert_eq!(app.cursor_position, 1);
}

#[test]
fn key_allowed_cases() {
    let mut app = App::new();
    assert!(key_allowed(&app, Key::Right, false));
    app.selected_directive_index = usize::MAX;
    assert!(!key_allowed(&app, Key::Right, false));
    app.selected_directive_index = 0;
    app.focus = Focus::Import;
    app.import_input = "\u{e9}".to_string();
    app.cursor_position = 1;
    assert!(!key_allowed(&app, Key::Char('x'), false));
    assert!(key_allowed(&app, Key::Char('q'), true));
    assert!(key_allowed(&app, Key::Backspace, false));
    app.cursor_position = 2;
    assert!(key_allowed(&app, Key::Char('x'), false));
    assert!(!key_allowed(&app, Key::Backspace, false));
    app.cursor_position = 3;
    assert!(!key_allowed(&app, Key::Backspace, false));
    app.focus = Focus::ValueInput;
    app.value_input = "'self'".to_string();
    app.cursor_position = 0;
    app.selected_directive_index = 40;
    assert!(!key_allowed(&app, Key::Enter, false));
    app.value_input = "nope".to_string();
    assert!(key_allowed(&app, Key::Enter, false));
    app.focus = Focus::DirectiveList;
    app.selected_policy_directive = usize::MAX;
    assert!(key_allowed(&app, Key::Down, false));
    app.policy.add_value("img-src", "a.com");
    assert!(!key_allowed(&app, Key::Down, false));
    app.selected_policy_directive = 0;
    app.selected_value_index = usize::MAX;
    assert!(!key_allowed(&app, Key::Right, false));
}
