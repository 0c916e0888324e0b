use pmt::app::{is_double_click, split_command, Action, App, Key, KeyPress, Mouse, Screen, COPIED};
use pmt::listing::Area;
use pmt::models::Template;
use std::time::Instant;

fn template(name: &str, body: &str) -> Template {
    Template { name: String::from(name), body: String::from(body) }
}

fn sample() -> App {
    App::load(Ok(vec![
        template("A/B", "Hello {name}"),
        template("A/C", "{x} {random|\"p\" \"q\"}"),
        template("D", "plain"),
    ]))
}

fn key(key: Key) -> KeyPress {
    KeyPress { key, control: false }
}

fn ctrl(c: char) -> KeyPress {
    KeyPress { key: Key::Char(c), control: true }
}

fn nothing(action: Action) {
    assert!(matches!(action, Action::Nothing));
}

#[test]
fn load_ok_shows_the_list() {
    let app = sample();
    assert_eq!(app.view, Screen::List);
    assert_eq!(app.templates.len(), 3);
    assert_eq!(app.tree_items.len(), 4);
    assert_eq!(app.selected, Some(0));
    assert_eq!(app.list_scroll, 0);
    assert!(app.editor.is_none());
    assert!(app.error_message.is_none());
    assert!(app.last_click.is_none());
    assert_eq!(app.tree_area, Area { x: 0, y: 0, width: 0, height: 0 });
    assert!(!app.should_quit);
    assert!(app.list_status.is_none());
    assert!(!app.needs_redraw);
}

#[test]
fn load_ok_without_rows_selects_nothing() {
    let app = App::load(Ok(vec![template("/", "x")]));
    assert_eq!(app.view, Screen::List);
    assert!(app.tree_items.is_empty());
    assert_eq!(app.selected, None);
}

#[test]
fn load_err_shows_the_error() {
    let app = App::load(Err(String::from("broken")));
    assert_eq!(app.view, Screen::Error);
    assert_eq!(app.error_message.as_deref(), Some("broken"));
    assert!(app.templates.is_empty());
    assert!(app.tree_items.is_empty());
    assert_eq!(app.selected, None);
}

#[test]
fn error_screen_quits_on_q_and_esc_only() {
    let mut app = App::load(Err(String::from("broken")));
    nothing(app.on_key(key(Key::Enter)));
    nothing(app.on_key(key(Key::Char('e'))));
    assert!(!app.should_quit);
    nothing(app.on_key(key(Key::Char('q'))));
    assert!(app.should_quit);
    let mut app = App::load(Err(String::from("broken")));
    nothing(app.on_key(key(Key::Esc)));
    assert!(app.should_quit);
}

#[test]
fn list_quits_on_q_and_esc() {
    let mut app = sample();
    nothing(app.on_key(key(Key::Char('q'))));
    assert!(app.should_quit);
    let mut app = sample();
    nothing(app.on_key(key(Key::Esc)));
    assert!(app.should_quit);
}

#[test]
fn list_moves_and_stops_at_the_ends() {
    let mut app = sample();
    nothing(app.on_key(key(Key::Up)));
    assert_eq!(app.selected, Some(0));
    nothing(app.on_key(key(Key::Down)));
    assert_eq!(app.selected, Some(1));
    nothing(app.on_key(key(Key::Char('j'))));
    nothing(app.on_key(key(Key::Char('j'))));
    assert_eq!(app.selected, Some(3));
    nothing(app.on_key(key(Key::Down)));
    assert_eq!(app.selected, Some(3));
    nothing(app.on_key(key(Key::Char('k'))));
    assert_eq!(app.selected, Some(2));
}

#[test]
fn move_list_by_any_number() {
    let mut app = sample();
    app.move_list(2);
    assert_eq!(app.selected, Some(2));
    app.move_list(100);
    assert_eq!(app.selected, Some(3));
    app.move_list(-2);
    assert_eq!(app.selected, Some(1));
    app.move_list(isize::MIN);
    assert_eq!(app.selected, Some(0));
    app.move_list(isize::MAX);
    assert_eq!(app.selected, Some(3));
    app.move_list(0);
    assert_eq!(app.selected, Some(3));
    app.selected = None;
    app.move_list(1);
    assert_eq!(app.selected, Some(1));
    app.selected = Some(usize::MAX);
    app.move_list(-1);
    assert_eq!(app.selected, Some(3));
    app.selected = Some(usize::MAX);
    app.move_list(1);
    assert_eq!(app.selected, Some(3));
}

#[test]
fn move_list_without_rows_changes_nothing() {
    let mut app = App::load(Ok(Vec::new()));
    app.move_list(1);
    assert_eq!(app.selected, None);
}

#[test]
fn enter_on_a_folder_does_nothing() {
    let mut app = sample();
    nothing(app.on_key(key(Key::Enter)));
    assert_eq!(app.view, Screen::List);
    assert!(app.editor.is_none());
}

#[test]
fn enter_on_a_template_opens_it() {
    let mut app = sample();
    app.move_list(1);
    nothing(app.on_key(key(Key::Enter)));
    assert_eq!(app.view, Screen::Editor);
    let editor = app.editor.as_ref().expect("a session");
    assert_eq!(editor.template_index, 0);
    assert_eq!(editor.fields.len(), 1);
    assert_eq!(editor.fields[0].name, "name");
    assert_eq!(editor.active_field, 0);
}

#[test]
fn open_with_a_selection_out_of_range_does_nothing() {
    let mut app = sample();
    app.selected = Some(17);
    app.open_selected_template();
    assert_eq!(app.view, Screen::List);
    app.selected = None;
    app.open_selected_template();
    assert_eq!(app.view, Screen::List);
    app.selected = Some(1);
    app.tree_items[1].template_index = Some(17);
    app.open_selected_template();
    assert_eq!(app.view, Screen::List);
    assert!(app.editor.is_none());
}

#[test]
fn e_asks_for_editing() {
    let mut app = sample();
    assert!(matches!(app.on_key(key(Key::Char('e'))), Action::EditTemplates));
    assert_eq!(app.view, Screen::List);
    assert!(!app.should_quit);
}

#[test]
fn editor_keys() {
    let mut app = sample();
    app.move_list(2);
    app.open_selected_template();
    nothing(app.on_key(key(Key::Char('h'))));
    nothing(app.on_key(key(Key::Char('i'))));
    nothing(app.on_key(key(Key::Char('!'))));
    nothing(app.on_key(key(Key::Backspace)));
    assert_eq!(app.editor.as_ref().unwrap().fields[0].value, "hi");
    nothing(app.on_key(key(Key::Tab)));
    assert_eq!(app.editor.as_ref().unwrap().active_field, 0);
    nothing(app.on_key(key(Key::Char('c'))));
    nothing(app.on_key(key(Key::Char('r'))));
    nothing(app.on_key(ctrl('x')));
    assert_eq!(app.editor.as_ref().unwrap().fields[0].value, "hicrx");
    nothing(app.on_key(key(Key::F(4))));
    nothing(app.on_key(key(Key::Enter)));
    nothing(app.on_key(key(Key::Other)));
    assert!(app.editor.as_ref().unwrap().status.is_none());
    match app.on_key(ctrl('c')) {
        Action::Copy(text) => assert!(text == "hicrx p" || text == "hicrx q"),
        other => panic!("expected a copy, got {:?}", other),
    }
    nothing(app.on_key(key(Key::F(5))));
    assert!(app.editor.as_ref().unwrap().status.is_some());
    nothing(app.on_key(ctrl('r')));
    nothing(app.on_key(key(Key::Esc)));
    assert_eq!(app.view, Screen::List);
    assert!(app.editor.is_some());
    assert!(!app.should_quit);
}

#[test]
fn editor_cursor_keys() {
    let mut app = App::load(Ok(vec![template("T", "{a}{b}{c}")]));
    app.open_selected_template();
    nothing(app.on_key(key(Key::Down)));
    assert_eq!(app.editor.as_ref().unwrap().active_field, 1);
    nothing(app.on_key(key(Key::Tab)));
    assert_eq!(app.editor.as_ref().unwrap().active_field, 2);
    nothing(app.on_key(key(Key::Tab)));
    assert_eq!(app.editor.as_ref().unwrap().active_field, 0);
    nothing(app.on_key(key(Key::Up)));
    assert_eq!(app.editor.as_ref().unwrap().active_field, 2);
}

#[test]
fn editor_screen_without_a_session_ignores_keys() {
    let mut app = sample();
    app.view = Screen::Editor;
    nothing(app.on_key(key(Key::Esc)));
    nothing(app.on_key(ctrl('c')));
    nothing(app.on_key(key(Key::Char('x'))));
    assert_eq!(app.view, Screen::Editor);
    assert!(app.editor.is_none());
    assert!(app.copy_rendered().is_none());
    app.copy_done(Ok(()));
    assert!(app.editor.is_none());
}

#[test]
fn copy_rendered_and_copy_done() {
    let mut app = sample();
    app.move_list(1);
    app.open_selected_template();
    assert_eq!(app.copy_rendered().as_deref(), Some("Hello {name}"));
    app.on_key(key(Key::Char('Z')));
    assert_eq!(app.copy_rendered().as_deref(), Some("Hello Z"));
    app.copy_done(Ok(()));
    assert_eq!(app.editor.as_ref().unwrap().status.as_ref().unwrap().text, COPIED);
    app.copy_done(Err(String::from("no clipboard")));
    assert_eq!(app.editor.as_ref().unwrap().status.as_ref().unwrap().text, "no clipboard");
    assert_eq!(app.editor.as_ref().unwrap().fields[0].value, "Z");
}

#[test]
fn reload_ok_replaces_the_templates() {
    let mut app = sample();
    app.move_list(3);
    app.list_scroll = 2;
    app.reload(Ok(vec![template("X", "x")]));
    assert!(app.needs_redraw);
    assert_eq!(app.templates.len(), 1);
    assert_eq!(app.tree_items.len(), 1);
    assert_eq!(app.selected, Some(0));
    assert_eq!(app.list_scroll, 0);
    assert!(app.list_status.is_none());
    app.reload(Ok(Vec::new()));
    assert_eq!(app.selected, None);
}

#[test]
fn reload_err_keeps_the_templates_and_says_so() {
    let mut app = sample();
    app.move_list(3);
    app.reload(Err(String::from("gone")));
    assert!(app.needs_redraw);
    assert_eq!(app.templates.len(), 3);
    assert_eq!(app.selected, Some(3));
    assert_eq!(app.list_status.as_ref().unwrap().text, "gone");
    assert_eq!(app.view, Screen::List);
}

#[test]
fn set_list_status_keeps_the_text() {
    let mut app = sample();
    app.set_list_status("note");
    assert_eq!(app.list_status.as_ref().unwrap().text, "note");
    assert!(app.list_status.as_ref().unwrap().is_shown());
}

#[test]
fn index_from_mouse_maps_rows() {
    let mut app = sample();
    assert_eq!(app.index_from_mouse(0, 0), None);
    app.tree_area = Area { x: 1, y: 2, width: 10, height: 3 };
    assert_eq!(app.index_from_mouse(1, 2), Some(0));
    assert_eq!(app.index_from_mouse(10, 4), Some(2));
    assert_eq!(app.index_from_mouse(11, 2), None);
    assert_eq!(app.index_from_mouse(0, 2), None);
    assert_eq!(app.index_from_mouse(1, 1), None);
    assert_eq!(app.index_from_mouse(1, 5), None);
    app.list_scroll = 2;
    assert_eq!(app.index_from_mouse(5, 2), Some(2));
    assert_eq!(app.index_from_mouse(5, 3), Some(3));
    assert_eq!(app.index_from_mouse(5, 4), None);
    app.list_scroll = usize::MAX;
    assert_eq!(app.index_from_mouse(5, 4), None);
    app.list_scroll = 0;
    app.tree_area = Area { x: u16::MAX, y: u16::MAX, width: u16::MAX, height: u16::MAX };
    assert_eq!(app.index_from_mouse(u16::MAX, u16::MAX), Some(0));
    app.tree_area = Area { x: 0, y: 0, width: 0, height: 5 };
    assert_eq!(app.index_from_mouse(0, 0), None);
}

#[test]
fn single_click_selects() {
    let mut app = sample();
    app.tree_area = Area { x: 0, y: 0, width: 20, height: 10 };
    app.on_mouse(Mouse { left_down: true, column: 3, row: 2 });
    assert_eq!(app.selected, Some(2));
    assert_eq!(app.last_click.map(|c| c.0), Some(2));
    assert_eq!(app.view, Screen::List);
}

#[test]
fn double_click_opens() {
    let mut app = sample();
    app.tree_area = Area { x: 0, y: 0, width: 20, height: 10 };
    app.on_mouse(Mouse { left_down: true, column: 3, row: 1 });
    app.on_mouse(Mouse { left_down: true, column: 4, row: 1 });
    assert_eq!(app.view, Screen::Editor);
    assert_eq!(app.editor.as_ref().unwrap().template_index, 0);
    assert_eq!(app.last_click.map(|c| c.0), Some(1));
}

#[test]
fn clicks_on_two_rows_do_not_open() {
    let mut app = sample();
    app.tree_area = Area { x: 0, y: 0, width: 20, height: 10 };
    app.on_mouse(Mouse { left_down: true, column: 3, row: 1 });
    app.on_mouse(Mouse { left_down: true, column: 3, row: 2 });
    assert_eq!(app.view, Screen::List);
    assert_eq!(app.selected, Some(2));
}

#[test]
fn other_mouse_events_and_misses_change_nothing() {
    let mut app = sample();
    app.tree_area = Area { x: 0, y: 0, width: 20, height: 10 };
    app.on_mouse(Mouse { left_down: false, column: 3, row: 2 });
    assert_eq!(app.selected, Some(0));
    assert!(app.last_click.is_none());
    app.on_mouse(Mouse { left_down: true, column: 3, row: 8 });
    assert_eq!(app.selected, Some(0));
    assert!(app.last_click.is_none());
    app.on_mouse(Mouse { left_down: true, column: 30, row: 1 });
    assert!(app.last_click.is_none());
}

#[test]
fn mouse_counts_only_on_the_list() {
    let mut app = sample();
    app.tree_area = Area { x: 0, y: 0, width: 20, height: 10 };
    app.view = Screen::Editor;
    app.on_mouse(Mouse { left_down: true, column: 3, row: 2 });
    assert_eq!(app.selected, Some(0));
    app.view = Screen::Error;
    app.on_mouse(Mouse { left_down: true, column: 3, row: 2 });
    assert_eq!(app.selected, Some(0));
}

#[test]
fn click_row_with_and_without_double() {
    let mut app = sample();
    let at = Instant::now();
    app.click_row(1, false, at);
    assert_eq!(app.selected, Some(1));
    assert_eq!(app.last_click, Some((1, at)));
    assert_eq!(app.view, Screen::List);
    app.click_row(0, true, at);
    assert_eq!(app.selected, Some(0));
    assert_eq!(app.view, Screen::List);
    app.click_row(3, true, at);
    assert_eq!(app.view, Screen::Editor);
    assert_eq!(app.editor.as_ref().unwrap().template_index, 2);
    assert_eq!(app.last_click, Some((3, at)));
}

#[test]
fn double_click_rule() {
    assert!(is_double_click(2, 2, 0));
    assert!(is_double_click(2, 2, 400));
    assert!(!is_double_click(2, 2, 401));
    assert!(!is_double_click(2, 3, 0));
}

#[test]
fn split_command_takes_the_first_word() {
    assert_eq!(split_command(""), None);
    assert_eq!(split_command("  \t "), None);
    assert_eq!(split_command("vim"), Some((String::from("vim"), Vec::new())));
    assert_eq!(
        split_command("  code  --wait\t-n "),
        Some((String::from("code"), vec![String::from("--wait"), String::from("-n")]))
    );
}

#[test]
fn clone_keeps_the_state() {
    let mut app = sample();
    app.move_list(1);
    app.open_selected_template();
    app.set_list_status("note");
    let copy = app.clone();
    app.on_key(key(Key::Char('x')));
    assert_eq!(copy.view, Screen::Editor);
    assert_eq!(copy.selected, Some(1));
    assert_eq!(copy.templates.len(), 3);
    assert_eq!(copy.tree_items.len(), 4);
    assert_eq!(copy.editor.as_ref().unwrap().fields[0].value, "");
    assert_eq!(app.editor.as_ref().unwrap().fields[0].value, "x");
    assert_eq!(copy.list_status.as_ref().unwrap().text, "note");
}
