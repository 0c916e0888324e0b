//! The state of the whole program and what each key press and mouse click
//! does to it. Reading input, drawing, the clipboard and the editor for the
//! templates are the caller's part: events come in as plain values, and
//! what is to be done outside goes back as an `Action`.

use crate::editor::{EditorState, StatusMessage};
use crate::fields::fields_of;
use crate::listing::Area;
use crate::models::{Template, TreeItem};
use crate::render::{render, render_template};
use crate::text::{split_words, words};
use crate::tokens::{pieces, tokens_fit};
use crate::tree::{build_tree_items, tree_rows};
use std::time::Instant;
use vstd::prelude::*;

verus! {

/// Two clicks on one row count as a double click when at most this many
/// milliseconds lie between them.
pub const DOUBLE_CLICK_MS: u128 = 400;

/// What is said after the text was copied.
pub const COPIED: &'static str = "已复制";

/// Which screen is shown.
#[derive(Clone, Copy, Debug, PartialEq, Eq, Structural)]
pub enum Screen {
    List,
    Editor,
    Error,
}

/// A key, as far as the program tells keys apart.
#[derive(Clone, Copy, Debug, PartialEq, Eq, Structural)]
pub enum Key {
    Char(char),
    Esc,
    Enter,
    Up,
    Down,
    Tab,
    Backspace,
    F(u8),
    Other,
}

/// A key that was pressed, and whether the control key was held with it.
#[derive(Clone, Copy, Debug, PartialEq, Eq, Structural)]
pub struct KeyPress {
    pub key: Key,
    pub control: bool,
}

/// Something that the mouse did at a place on the screen.
#[derive(Clone, Copy, Debug, PartialEq, Eq, Structural)]
pub struct Mouse {
    /// Whether the left button went down; nothing else counts as a click.
    pub left_down: bool,
    pub column: u16,
    pub row: u16,
}

/// What the caller is to do after an event.
#[derive(Clone, Debug)]
pub enum Action {
    /// Nothing.
    Nothing,
    /// Put this text on the clipboard, then report with `App::copy_done`.
    Copy(String),
    /// Let the user edit the templates, then report with `App::reload` or
    /// `App::set_list_status`.
    EditTemplates,
}

/// The state of the whole program.
#[derive(Clone, Debug)]
pub struct App {
    pub templates: Vec<Template>,
    pub tree_items: Vec<TreeItem>,
    /// The row of the list that is selected.
    pub selected: Option<usize>,
    /// The first row of the list in sight.
    pub list_scroll: usize,
    pub view: Screen,
    pub editor: Option<EditorState>,
    pub error_message: Option<String>,
    /// The row that was clicked last, and when.
    pub last_click: Option<(usize, Instant)>,
    /// Where on the screen the rows of the list were drawn.
    pub tree_area: Area,
    pub should_quit: bool,
    pub list_status: Option<StatusMessage>,
    pub needs_redraw: bool,
}

/// The row to select after moving by `delta` rows from row `current` in a
/// list of `len` rows: the move stops at the first and at the last row.
pub open spec fn moved(current: int, delta: int, len: int) -> int {
    if current + delta < 0 {
        0
    } else if current + delta > len - 1 {
        len - 1
    } else {
        current + delta
    }
}

/// The program and the arguments that the editor setting `editor` names:
/// its first word, and the words after it. `None` where it holds no word.
pub fn split_command(editor: &str) -> (command: Option<(String, Vec<String>)>)
    ensures
        match command {
            Some((program, arguments)) => {
                &&& words(editor@).len() > 0
                &&& program@ == words(editor@)[0]
                &&& arguments.deep_view() == words(editor@).drop_first()
            },
            None => words(editor@).len() == 0,
        },
{
    let mut found = split_words(editor);
    if found.len() == 0 {
        return None;
    }
    let ghost all = found.deep_view();
    let program = found.remove(0);
    assert(found.deep_view() =~= all.drop_first());
    Some((program, found))
}

/// Whether a click on row `index`, `elapsed` milliseconds after a click on
/// row `last_index`, makes a double click.
pub fn is_double_click(last_index: usize, index: usize, elapsed: u128) -> (double: bool)
    ensures
        double == (last_index == index && elapsed <= DOUBLE_CLICK_MS),
{
    last_index == index && elapsed <= DOUBLE_CLICK_MS
}

impl App {
    /// The selected row, or the first where none is selected.
    pub open spec fn current(&self) -> int {
        match self.selected {
            Some(row) => row as int,
            None => 0,
        }
    }

    /// Whether `after` is this state with the selection moved by `delta`
    /// rows, or this state itself where the list has no rows.
    pub open spec fn moved_by(&self, delta: int, after: App) -> bool {
        if self.tree_items@.len() == 0 {
            after == *self
        } else {
            after == (App {
                selected: Some(
                    moved(self.current(), delta, self.tree_items@.len() as int) as usize,
                ),
                ..*self
            })
        }
    }

    /// The template that the selected row opens, if it opens one.
    pub open spec fn opening(&self) -> Option<usize> {
        match self.selected {
            Some(index) => if index < self.tree_items@.len() {
                match self.tree_items@[index as int].template_index {
                    Some(template_index) => if template_index < self.templates@.len() {
                        Some(template_index)
                    } else {
                        None
                    },
                    None => None,
                }
            } else {
                None
            },
            None => None,
        }
    }

    /// Whether `after` is this state with the template of the selected row
    /// opened in a new session, or this state itself where that row opens
    /// none.
    pub open spec fn opened(&self, after: App) -> bool {
        match self.opening() {
            Some(template_index) => {
                &&& after.editor matches Some(editor)
                &&& editor.template_index == template_index
                &&& tokens_fit(
                    editor.tokens.deep_view(),
                    pieces(self.templates@[template_index as int].body@),
                )
                &&& editor.fields.deep_view() == fields_of(editor.tokens.deep_view())
                &&& editor.active_field == 0
                &&& editor.field_scroll == 0
                &&& editor.status is None
                &&& after == (App { view: Screen::Editor, editor: after.editor, ..*self })
            },
            None => after == *self,
        }
    }

    /// The row of the list that was drawn at `column` and `row` of the
    /// screen, if there is one.
    pub open spec fn row_at(&self, column: u16, row: u16) -> Option<usize> {
        let area = self.tree_area;
        if area.width > 0 && area.height > 0 && area.x <= column < area.x + area.width && area.y
            <= row < area.y + area.height && self.list_scroll + (row - area.y)
            < self.tree_items@.len() {
            Some((self.list_scroll + (row - area.y)) as usize)
        } else {
            None
        }
    }

    /// Whether `after` is this state with the session `session` in place of
    /// the one that is open.
    pub open spec fn with_editor(&self, session: EditorState, after: App) -> bool {
        after == (App { editor: Some(session), ..*self })
    }

    /// The state to start with, once loading the templates has ended with
    /// `loaded`: the list of the templates with the first row selected, or
    /// the error screen with the message.
    pub fn load(loaded: Result<Vec<Template>, String>) -> (app: App)
        ensures
            match loaded {
                Ok(templates) => {
                    &&& app.templates == templates
                    &&& app.tree_items.deep_view() == tree_rows(templates.deep_view())
                    &&& app.selected == if app.tree_items@.len() > 0 {
                        Some(0usize)
                    } else {
                        None
                    }
                    &&& app.view == Screen::List
                    &&& app.error_message is None
                },
                Err(message) => {
                    &&& app.templates@.len() == 0
                    &&& app.tree_items@.len() == 0
                    &&& app.selected is None
                    &&& app.view == Screen::Error
                    &&& app.error_message == Some(message)
                },
            },
            app.list_scroll == 0,
            app.editor is None,
            app.last_click is None,
            app.tree_area == (Area { x: 0, y: 0, width: 0, height: 0 }),
            !app.should_quit,
            app.list_status is None,
            !app.needs_redraw,
    {
        match loaded {
            Ok(templates) => {
                let tree_items = build_tree_items(templates.as_slice());
                let selected = if tree_items.len() > 0 {
                    Some(0)
                } else {
                    None
                };
                App {
                    templates,
                    tree_items,
                    selected,
                    list_scroll: 0,
                    view: Screen::List,
                    editor: None,
                    error_message: None,
                    last_click: None,
                    tree_area: Area { x: 0, y: 0, width: 0, height: 0 },
                    should_quit: false,
                    list_status: None,
                    needs_redraw: false,
                }
            },
            Err(message) => App {
                templates: Vec::new(),
                tree_items: Vec::new(),
                selected: None,
                list_scroll: 0,
                view: Screen::Error,
                editor: None,
                error_message: Some(message),
                last_click: None,
                tree_area: Area { x: 0, y: 0, width: 0, height: 0 },
                should_quit: false,
                list_status: None,
                needs_redraw: false,
            },
        }
    }

    /// Sets the note under the list to `text`, as of now.
    pub fn set_list_status(&mut self, text: &str)
        ensures
            final(self).list_status is Some,
            final(self).list_status->0.text@ == text@,
            *final(self) == (App { list_status: final(self).list_status, ..*old(self) }),
    {
        self.list_status = Some(StatusMessage { text: text.to_owned(), since: Instant::now() });
    }

    /// Moves the selection by `delta` rows, not beyond the first or the last
    /// row. Without rows nothing changes.
    pub fn move_list(&mut self, delta: isize)
        ensures
            old(self).moved_by(delta as int, *final(self)),
    {
        let len = self.tree_items.len();
        if len == 0 {
            return ;
        }
        let current = match self.selected {
            Some(row) => row,
            None => 0,
        };
        let next = if delta >= 0 {
            let forward = delta as usize;
            if forward > len - 1 || current > len - 1 - forward {
                len - 1
            } else {
                current + forward
            }
        } else {
            let back: usize = if delta == isize::MIN {
                isize::MAX as usize + 1
            } else {
                (-delta) as usize
            };
            if back > current {
                0
            } else if current - back > len - 1 {
                len - 1
            } else {
                current - back
            }
        };
        self.selected = Some(next);
    }

    /// The row of the list that was drawn at `column` and `row` of the
    /// screen, if there is one.
    pub fn index_from_mouse(&self, column: u16, row: u16) -> (index: Option<usize>)
        ensures
            index == self.row_at(column, row),
    {
        let area = self.tree_area;
        if area.width == 0 || area.height == 0 {
            return None;
        }
        if column < area.x || column as u32 >= area.x as u32 + area.width as u32 || row < area.y
            || row as u32 >= area.y as u32 + area.height as u32 {
            return None;
        }
        let row_offset = (row - area.y) as usize;
        let len = self.tree_items.len();
        if self.list_scroll >= len || row_offset >= len - self.list_scroll {
            return None;
        }
        Some(self.list_scroll + row_offset)
    }

    /// Opens the template of the selected row for filling in. Where nothing
    /// is selected, or the row opens no template, nothing changes.
    pub fn open_selected_template(&mut self)
        ensures
            old(self).opened(*final(self)),
    {
        let index = match self.selected {
            Some(index) => index,
            None => {
                return ;
            },
        };
        if index >= self.tree_items.len() {
            return ;
        }
        let template_index = match self.tree_items[index].template_index {
            Some(template_index) => template_index,
            None => {
                return ;
            },
        };
        if template_index >= self.templates.len() {
            return ;
        }
        let editor = EditorState::new(template_index, self.templates[template_index].body.as_str());
        self.editor = Some(editor);
        self.view = Screen::Editor;
    }

    /// The text of the open template as it is filled in at the moment, for
    /// the clipboard; `None` where no template is open.
    pub fn copy_rendered(&self) -> (text: Option<String>)
        ensures
            match self.editor {
                Some(editor) => text is Some && text->0@ == render(
                    editor.tokens.deep_view(),
                    editor.fields.deep_view(),
                ),
                None => text is None,
            },
    {
        match &self.editor {
            Some(editor) => Some(
                render_template(editor.tokens.as_slice(), editor.fields.as_slice()),
            ),
            None => None,
        }
    }

    /// Reports how putting the text on the clipboard ended: the status of
    /// the open template says that it was copied, or gives the error.
    /// Where no template is open, nothing changes.
    pub fn copy_done(&mut self, result: Result<(), String>)
        ensures
            match old(self).editor {
                Some(before) => {
                    &&& final(self).editor matches Some(after)
                    &&& before.with_status(
                        match result {
                            Ok(_) => COPIED@,
                            Err(message) => message@,
                        },
                        after,
                    )
                    &&& old(self).with_editor(after, *final(self))
                },
                None => *final(self) == *old(self),
            },
    {
        match &mut self.editor {
            Some(editor) => {
                match result {
                    Ok(_) => editor.set_status(COPIED),
                    Err(message) => editor.set_status(message.as_str()),
                }
            },
            None => {},
        }
    }

    /// Whether `after` is what a key press on the error screen makes of this
    /// state: `q` and Esc end the program, and no other key does anything.
    pub open spec fn error_key(&self, key: KeyPress, after: App) -> bool {
        after == if key.key == Key::Char('q') || key.key == Key::Esc {
            App { should_quit: true, ..*self }
        } else {
            *self
        }
    }

    /// Whether `after` and `action` are what a key press on the list makes
    /// of this state.
    pub open spec fn list_key(&self, key: KeyPress, after: App, action: Action) -> bool {
        &&& match key.key {
            Key::Char(c) => if c == 'q' {
                after == (App { should_quit: true, ..*self })
            } else if c == 'j' {
                self.moved_by(1, after)
            } else if c == 'k' {
                self.moved_by(-1, after)
            } else {
                after == *self
            },
            Key::Esc => after == (App { should_quit: true, ..*self }),
            Key::Down => self.moved_by(1, after),
            Key::Up => self.moved_by(-1, after),
            Key::Enter => self.opened(after),
            _ => after == *self,
        }
        &&& if key.key == Key::Char('e') {
            action is EditTemplates
        } else {
            action is Nothing
        }
    }

    /// Whether `after` and `action` are what a key press makes of this
    /// state while a template is filled in.
    pub open spec fn editor_key(&self, key: KeyPress, after: App, action: Action) -> bool {
        match self.editor {
            None => after == *self && action is Nothing,
            Some(before) => {
                &&& match key.key {
                    Key::Esc => after == (App { view: Screen::List, ..*self }),
                    Key::Tab | Key::Down => self.with_editor(
                        EditorState {
                            active_field: before.next_position() as usize,
                            ..before
                        },
                        after,
                    ),
                    Key::Up => self.with_editor(
                        EditorState {
                            active_field: before.prev_position() as usize,
                            ..before
                        },
                        after,
                    ),
                    Key::Backspace => {
                        &&& after.editor matches Some(session)
                        &&& before.with_fields(before.erased(), session)
                        &&& self.with_editor(session, after)
                    },
                    Key::F(n) => if n == 5 {
                        &&& after.editor matches Some(session)
                        &&& before.rerolled_to(session)
                        &&& self.with_editor(session, after)
                    } else {
                        after == *self
                    },
                    Key::Char(c) => if key.control && c == 'c' {
                        after == *self
                    } else if key.control && c == 'r' {
                        &&& after.editor matches Some(session)
                        &&& before.rerolled_to(session)
                        &&& self.with_editor(session, after)
                    } else {
                        &&& after.editor matches Some(session)
                        &&& before.with_fields(before.typed(c), session)
                        &&& self.with_editor(session, after)
                    },
                    _ => after == *self,
                }
                &&& if key.control && key.key == Key::Char('c') {
                    action matches Action::Copy(text) && text@ == render(
                        before.tokens.deep_view(),
                        before.fields.deep_view(),
                    )
                } else {
                    action is Nothing
                }
            },
        }
    }

    /// A key press on the error screen: `q` and Esc end the program, and no
    /// other key does anything.
    pub fn on_key_error(&mut self, key: KeyPress)
        ensures
            old(self).error_key(key, *final(self)),
    {
        match key.key {
            Key::Char('q') | Key::Esc => {
                self.should_quit = true;
            },
            _ => {},
        }
    }

    /// A key press on the list. `q` and Esc end the program; Down and `j`,
    /// Up and `k` move the selection by one row; Enter opens the selected
    /// template; `e` asks for the templates to be edited. No other key
    /// does anything.
    pub fn on_key_list(&mut self, key: KeyPress) -> (action: Action)
        ensures
            old(self).list_key(key, *final(self), action),
    {
        match key.key {
            Key::Char('q') | Key::Esc => {
                self.should_quit = true;
            },
            Key::Down | Key::Char('j') => self.move_list(1),
            Key::Up | Key::Char('k') => self.move_list(-1),
            Key::Enter => self.open_selected_template(),
            Key::Char('e') => {
                return Action::EditTemplates;
            },
            _ => {},
        }
        Action::Nothing
    }

    /// A key press while a template is filled in. Esc goes back to the
    /// list. Tab and Down move the cursor to the next field, Up to the
    /// field before. Backspace takes a character off the field. F5, and `r`
    /// with the control key, select the random choices anew. `c` with the
    /// control key asks for the rendered text to be copied. Any other
    /// character is typed into the field. Where no template is open, no key
    /// does anything.
    pub fn on_key_editor(&mut self, key: KeyPress) -> (action: Action)
        ensures
            old(self).editor_key(key, *final(self), action),
    {
        let editor = match &mut self.editor {
            Some(editor) => editor,
            None => {
                return Action::Nothing;
            },
        };
        match key.key {
            Key::Esc => {
                self.view = Screen::List;
            },
            Key::Tab | Key::Down => editor.next_field(),
            Key::Up => editor.prev_field(),
            Key::Backspace => editor.backspace(),
            Key::F(n) => {
                if n == 5 {
                    editor.reroll_random();
                }
            },
            Key::Char(c) => {
                if key.control && c == 'c' {
                    let text = render_template(editor.tokens.as_slice(), editor.fields.as_slice());
                    return Action::Copy(text);
                } else if key.control && c == 'r' {
                    editor.reroll_random();
                } else {
                    editor.push_char(c);
                }
            },
            _ => {},
        }
        Action::Nothing
    }

    /// A key press: it goes to the screen that is shown.
    pub fn on_key(&mut self, key: KeyPress) -> (action: Action)
        ensures
            match old(self).view {
                Screen::List => old(self).list_key(key, *final(self), action),
                Screen::Editor => old(self).editor_key(key, *final(self), action),
                Screen::Error => old(self).error_key(key, *final(self)) && action is Nothing,
            },
    {
        match self.view {
            Screen::List => self.on_key_list(key),
            Screen::Editor => self.on_key_editor(key),
            Screen::Error => {
                self.on_key_error(key);
                Action::Nothing
            },
        }
    }

    /// Whether `after` is this state after a click on row `index` at the
    /// moment `at`: the row is selected and the click remembered, and where
    /// `double` holds, the row's template is opened.
    pub open spec fn clicked(&self, index: usize, double: bool, at: Instant, after: App) -> bool {
        let selected = App { selected: Some(index), ..*self };
        if double {
            exists|mid: App|
                selected.opened(mid) && after == (App { last_click: Some((index, at)), ..mid })
        } else {
            after == (App { last_click: Some((index, at)), ..selected })
        }
    }

    /// Whether `after` is what the mouse makes of this state while the list
    /// is shown. The left button going down on a row is a click on it, at
    /// some moment; it may complete a double click only where the click
    /// before was on the same row. Nothing else changes anything.
    pub open spec fn list_mouse(&self, mouse: Mouse, after: App) -> bool {
        match self.row_at(mouse.column, mouse.row) {
            Some(index) => if mouse.left_down {
                exists|double: bool, at: Instant|
                    {
                        &&& double ==> (self.last_click matches Some(last) && last.0 == index)
                        &&& #[trigger] self.clicked(index, double, at, after)
                    }
            } else {
                after == *self
            },
            None => after == *self,
        }
    }

    /// A click on row `index` of the list at the moment `at`: the row is
    /// selected and the click remembered, and where `double` says that the
    /// click completes a double click, the row's template is opened.
    pub fn click_row(&mut self, index: usize, double: bool, at: Instant)
        ensures
            old(self).clicked(index, double, at, *final(self)),
    {
        self.selected = Some(index);
        if double {
            self.open_selected_template();
        }
        let ghost mid = *self;
        self.last_click = Some((index, at));
        proof {
            if double {
                let selected = App { selected: Some(index), ..*old(self) };
                assert(selected.opened(mid));
                assert(*self == (App { last_click: Some((index, at)), ..mid }));
            }
        }
    }

    /// What the mouse did while the list is shown. Only the left button
    /// going down on a row counts: the row is selected, and where the same
    /// row was clicked at most `DOUBLE_CLICK_MS` milliseconds before, by
    /// the clock, its template is opened.
    pub fn on_mouse_list(&mut self, mouse: Mouse)
        ensures
            old(self).list_mouse(mouse, *final(self)),
    {
        if !mouse.left_down {
            return ;
        }
        match self.index_from_mouse(mouse.column, mouse.row) {
            Some(index) => {
                let at = Instant::now();
                let double = match &self.last_click {
                    Some(last) => is_double_click(last.0, index, last.1.elapsed().as_millis()),
                    None => false,
                };
                self.click_row(index, double, at);
                assert(old(self).clicked(index, double, at, *self));
            },
            None => {},
        }
    }

    /// What the mouse did: it counts only while the list is shown.
    pub fn on_mouse(&mut self, mouse: Mouse)
        ensures
            if old(self).view == Screen::List {
                old(self).list_mouse(mouse, *final(self))
            } else {
                *final(self) == *old(self)
            },
    {
        match self.view {
            Screen::List => self.on_mouse_list(mouse),
            Screen::Editor => {},
            Screen::Error => {},
        }
    }

    /// Takes in what loading the templates gave after they were edited. The
    /// screen is to be drawn afresh. New templates replace the old ones and
    /// the list starts over; an error is said under the list, and the old
    /// templates stay.
    pub fn reload(&mut self, loaded: Result<Vec<Template>, String>)
        ensures
            final(self).needs_redraw,
            match loaded {
                Ok(templates) => {
                    &&& final(self).templates == templates
                    &&& final(self).tree_items.deep_view() == tree_rows(templates.deep_view())
                    &&& final(self).selected == if final(self).tree_items@.len() > 0 {
                        Some(0usize)
                    } else {
                        None
                    }
                    &&& final(self).list_scroll == 0
                    &&& *final(self) == (App {
                        templates: final(self).templates,
                        tree_items: final(self).tree_items,
                        selected: final(self).selected,
                        list_scroll: 0,
                        needs_redraw: true,
                        ..*old(self)
                    })
                },
                Err(message) => {
                    &&& final(self).list_status is Some
                    &&& final(self).list_status->0.text@ == message@
                    &&& *final(self) == (App {
                        list_status: final(self).list_status,
                        needs_redraw: true,
                        ..*old(self)
                    })
                },
            },
    {
        self.needs_redraw = true;
        match loaded {
            Ok(templates) => {
                self.tree_items = build_tree_items(templates.as_slice());
                self.templates = templates;
                self.selected = if self.tree_items.len() > 0 {
                    Some(0)
                } else {
                    None
                };
                self.list_scroll = 0;
            },
            Err(message) => self.set_list_status(message.as_str()),
        }
    }
}

} // verus!
