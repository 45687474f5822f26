//! What the keys do in each window.

use crate::account::account_or_default;
use crate::cache::lemma_refreshed;
use crate::database::{
    has_key, index_of_key, is_store, key_eq, lemma_keys_unique, lemma_map_holds,
    lemma_store_changes, records_map, Database,
};
use crate::list::{selection_after_next, selection_after_previous};
use crate::task::{Preferences, Record, Task, TaskView};
use crate::text::{
    coordinate, display_width, input, last_line, last_line_width, last_row, last_row_of,
    parse_u32, parsed_u32, pushed_if_fits, text_columns, to_coordinate, without_last, MARGIN,
};
use crate::time::{
    lemma_next_day_later, local_now, parse_date_time, parsed_date_time, DateTime,
};
use crate::ui::{
    lemma_position_found, lemma_position_of, position_of, App, AppView, EditMode, EditState,
    Preference, WindowMode,
};
use vstd::prelude::*;

verus! {

/// A key press.
#[derive(Clone, Copy, Debug, PartialEq, Eq, Structural)]
pub enum Key {
    Char(char),
    Up,
    Down,
    Enter,
    Esc,
    Backspace,
    /// Any key without a meaning here.
    Other,
}

/// The signal that the interface is to be left.
#[derive(Clone, Copy, Debug, PartialEq, Eq, Structural)]
pub struct ExitApp;

impl ExitApp {
    /// The text shown for the signal: none.
    pub fn message(&self) -> (text: String)
        ensures
            text@.len() == 0,
    {
        String::new()
    }
}

/// What a key changed in the keyspace, for whoever keeps a copy of it.
#[derive(Debug, PartialEq, Eq)]
pub struct Effects {
    /// The identifier under which a task was written.
    pub stored: Option<String>,
    /// The identifier whose task was removed.
    pub removed: Option<String>,
    /// The account record was written.
    pub credited: bool,
}

/// What a key changed in the keyspace, as plain values.
pub struct EffectsView {
    pub stored: Option<Seq<char>>,
    pub removed: Option<Seq<char>>,
    pub credited: bool,
}

impl View for Effects {
    type V = EffectsView;

    open spec fn view(&self) -> EffectsView {
        EffectsView {
            stored: match self.stored {
                Some(id) => Some(id@),
                None => None,
            },
            removed: match self.removed {
                Some(id) => Some(id@),
                None => None,
            },
            credited: self.credited,
        }
    }
}

impl EffectsView {
    /// Nothing changed.
    pub open spec fn none() -> EffectsView {
        EffectsView { stored: None, removed: None, credited: false }
    }
}

impl Effects {
    /// Nothing changed.
    pub fn none() -> (effects: Effects)
        ensures
            effects@ == EffectsView::none(),
    {
        Effects { stored: None, removed: None, credited: false }
    }
}

/// The pattern in which an expiry is typed.
pub const EXPIRE_FORMAT: &'static str = "%Y-%m-%d %H:%M:%S";

/// The row below `row`, which is the last row where there is none below.
pub open spec fn row_below(row: u16) -> u16 {
    if row < u16::MAX {
        (row + 1) as u16
    } else {
        row
    }
}

/// The row above `row`, which is the first row where there is none above.
pub open spec fn row_above(row: u16) -> u16 {
    if row > 0 {
        (row - 1) as u16
    } else {
        row
    }
}

/// The task that a new identifier gets at `now`: no texts, not done.
pub open spec fn blank_task(now: DateTime, preferences: Preferences) -> TaskView {
    TaskView {
        title: Seq::empty(),
        description: Seq::empty(),
        done: false,
        exp_added: false,
        creation_date: now,
        preferences,
    }
}

impl AppView {
    /// The selected task is done where it was not, and the other way round,
    /// and it is written to the keyspace. The first time a task becomes
    /// done its reward is added to the account.
    pub open spec fn marked(self, now: DateTime) -> AppView {
        match self.current() {
            Some(i) => {
                let (id, task) = self.tasks[i];
                let credit = !task.done && !task.exp_added;
                let toggled = TaskView {
                    done: !task.done,
                    exp_added: task.exp_added || credit,
                    ..task
                };
                let written = AppView {
                    store: self.store.insert(id, toggled),
                    account: if credit {
                        Some(account_or_default(self.account).credited(task.preferences.exp))
                    } else {
                        self.account
                    },
                    ..self
                };
                written.refreshed(now)
            },
            None => self,
        }
    }

    /// What `marked` writes.
    pub open spec fn marked_effects(self) -> EffectsView {
        match self.current() {
            Some(i) => EffectsView {
                stored: Some(self.tasks[i].0),
                removed: None,
                credited: !self.tasks[i].1.done && !self.tasks[i].1.exp_added,
            },
            None => EffectsView::none(),
        }
    }

    /// Whether a task can be made at `now` under the identifier `id`: the
    /// identifier is there and free, and `now` has a next day for the
    /// expiry.
    pub open spec fn can_create(self, now: DateTime, id: Option<Seq<char>>) -> bool {
        &&& id matches Some(key)
        &&& !self.store.contains_key(key)
        &&& Preferences::starting_spec(now) is Some
    }

    /// A new task under `id` is written to the keyspace and opened for its
    /// title.
    pub open spec fn created(self, now: DateTime, id: Option<Seq<char>>) -> AppView {
        if self.can_create(now, id) {
            let key = id.unwrap();
            let task = blank_task(now, Preferences::starting_spec(now).unwrap());
            let written = AppView { store: self.store.insert(key, task), ..self };
            let listed = written.refreshed(now);
            match position_of(listed.tasks, key) {
                Some(i) => AppView {
                    selected: Some(i as usize),
                    mode: WindowMode::Task(EditMode::Edit(EditState::Title)),
                    cursor: (0, 0),
                    ..listed
                },
                None => listed,
            }
        } else {
            self
        }
    }

    /// What `created` writes.
    pub open spec fn created_effects(self, now: DateTime, id: Option<Seq<char>>) -> EffectsView {
        if self.can_create(now, id) {
            EffectsView { stored: id, removed: None, credited: false }
        } else {
            EffectsView::none()
        }
    }

    /// The selected task is removed from the keyspace.
    pub open spec fn deleted(self, now: DateTime) -> AppView {
        match self.current() {
            Some(i) => {
                let removed = AppView { store: self.store.remove(self.tasks[i].0), ..self };
                removed.refreshed(now)
            },
            None => self,
        }
    }

    /// What `deleted` writes.
    pub open spec fn deleted_effects(self) -> EffectsView {
        match self.current() {
            Some(i) => EffectsView { stored: None, removed: Some(self.tasks[i].0), credited: false },
            None => EffectsView::none(),
        }
    }

    /// The state with the cursor in the column behind a line that is `line`
    /// columns wide.
    pub open spec fn with_column(self, line: nat) -> AppView {
        AppView { cursor: (coordinate(line), self.cursor.1), ..self }
    }

    /// The width of the last line of the description of the selected task.
    pub open spec fn line_width(self) -> nat {
        match self.current() {
            Some(i) => display_width(last_line(self.tasks[i].1.description)),
            None => 0,
        }
    }

    /// The selected task is opened, the cursor behind its description, of
    /// which the last line is `line` columns wide.
    pub open spec fn opened_at(self, line: nat) -> AppView {
        match self.current() {
            Some(i) => AppView {
                mode: WindowMode::Task(EditMode::View),
                cursor: (coordinate(line), coordinate(last_row(self.tasks[i].1.description))),
                ..self
            },
            None => self,
        }
    }

    /// The selected task is opened, the cursor behind its description.
    pub open spec fn opened(self) -> AppView {
        self.opened_at(self.line_width())
    }

    /// Whether the selected task can be saved: it has a title.
    pub open spec fn can_save(self) -> bool {
        self.current() matches Some(i) && self.tasks[i].1.title.len() > 0
    }

    /// The selected task is written to the keyspace as it stands in the
    /// list, and the list window opens. A task without a title is not
    /// saved, and nothing changes.
    pub open spec fn saved(self, now: DateTime) -> AppView {
        if self.can_save() {
            let (id, task) = self.tasks[self.current().unwrap()];
            let written = AppView {
                store: self.store.insert(id, task),
                mode: WindowMode::List,
                ..self
            };
            written.refreshed(now)
        } else {
            self
        }
    }

    /// What `saved` writes.
    pub open spec fn saved_effects(self) -> EffectsView {
        if self.can_save() {
            EffectsView {
                stored: Some(self.tasks[self.current().unwrap()].0),
                removed: None,
                credited: false,
            }
        } else {
            EffectsView::none()
        }
    }

    /// `c` is appended to the title of the selected task if the title then
    /// still fits the display.
    pub open spec fn typed_title(self, c: char) -> AppView {
        match self.current() {
            Some(i) => {
                let task = self.tasks[i].1;
                let title = pushed_if_fits(
                    task.title,
                    self.width,
                    c,
                    display_width(task.title.push(c)),
                );
                self.with_task(i, TaskView { title, ..task })
            },
            None => self,
        }
    }

    /// The title of the selected task loses its last character.
    pub open spec fn erased_title(self) -> AppView {
        match self.current() {
            Some(i) => {
                let task = self.tasks[i].1;
                self.with_task(i, TaskView { title: without_last(task.title), ..task })
            },
            None => self,
        }
    }

    /// `c` is appended to the description of the selected task, of which
    /// the last line is `line` columns wide. Where that fills the columns for
    /// text, a line break follows and the cursor goes down a row.
    pub open spec fn typed_description_at(self, c: char, line: nat) -> AppView {
        match self.current() {
            Some(i) => {
                let task = self.tasks[i].1;
                let full = line >= text_columns(self.width);
                let description = if full {
                    task.description.push(c).push('\n')
                } else {
                    task.description.push(c)
                };
                let row = if full {
                    row_below(self.cursor.1)
                } else {
                    self.cursor.1
                };
                AppView {
                    cursor: (self.cursor.0, row),
                    ..self.with_task(i, TaskView { description, ..task })
                }
            },
            None => self,
        }
    }

    /// `c` is appended to the description of the selected task. Where its
    /// last line had filled the columns for text, a line break follows and
    /// the cursor goes down a row. The cursor stands behind the last line.
    pub open spec fn typed_description(self, c: char) -> AppView {
        let typed = self.typed_description_at(c, self.line_width());
        if self.current() is Some {
            typed.with_column(typed.line_width())
        } else {
            self
        }
    }

    /// A line break is appended to the description of the selected task and
    /// the cursor goes down a row.
    pub open spec fn line_broken(self) -> AppView {
        match self.current() {
            Some(i) => {
                let task = self.tasks[i].1;
                let description = task.description.push('\n');
                AppView {
                    cursor: (self.cursor.0, row_below(self.cursor.1)),
                    ..self.with_task(i, TaskView { description, ..task })
                }
            },
            None => self,
        }
    }

    /// A line break is appended to the description of the selected task and
    /// the cursor goes to the start of the row below.
    pub open spec fn broke_line(self) -> AppView {
        if self.current() is Some {
            self.line_broken().with_column(self.line_broken().line_width())
        } else {
            self
        }
    }

    /// The description of the selected task, of which the last line is
    /// `line` columns wide, loses its last character. Where the last line is
    /// empty, the cursor goes up a row and the character before goes too.
    pub open spec fn erased_description_at(self, line: nat) -> AppView {
        match self.current() {
            Some(i) => {
                let task = self.tasks[i].1;
                let at_start = line == 0;
                let description = if at_start {
                    without_last(without_last(task.description))
                } else {
                    without_last(task.description)
                };
                let row = if at_start {
                    row_above(self.cursor.1)
                } else {
                    self.cursor.1
                };
                AppView {
                    cursor: (self.cursor.0, row),
                    ..self.with_task(i, TaskView { description, ..task })
                }
            },
            None => self,
        }
    }

    /// The description of the selected task loses its last character. Where
    /// its last line was empty, the cursor goes up a row and the character
    /// before goes too. The cursor stands behind the last line.
    pub open spec fn erased_description(self) -> AppView {
        let erased = self.erased_description_at(self.line_width());
        if self.current() is Some {
            erased.with_column(erased.line_width())
        } else {
            self
        }
    }

    /// The preferences of the selected task with the input taken for the
    /// preference `which`, where the input can be read as its value.
    pub open spec fn input_taken(self, which: Preference, preferences: Preferences) -> Option<
        Preferences,
    > {
        match which {
            Preference::Repeat => None,
            Preference::Expire => match parsed_date_time(self.input, EXPIRE_FORMAT@) {
                Some(expire) => Some(Preferences { expire, ..preferences }),
                None => None,
            },
            Preference::Experience => match parsed_u32(self.input) {
                Some(exp) => Some(Preferences { exp, ..preferences }),
                None => None,
            },
        }
    }

    /// The selected preference is edited. The repeat flag is switched at
    /// once. For the others the window that chooses starts taking input,
    /// with an empty buffer; the window that takes input reads the buffer as
    /// the value and, where it can be read, sets it, gives the buffer up and
    /// goes back to choosing. A buffer that cannot be read stays, and so
    /// does the window.
    pub open spec fn edited_preference(self) -> AppView {
        match (self.current(), self.current_preference()) {
            (Some(i), Some(which)) => {
                let task = self.tasks[i].1;
                if which == Preference::Repeat {
                    let preferences = Preferences {
                        daily_repeat: !task.preferences.daily_repeat,
                        ..task.preferences
                    };
                    self.with_task(i, TaskView { preferences, ..task })
                } else if self.mode == WindowMode::Preferences(false) {
                    AppView { mode: WindowMode::Preferences(true), input: Seq::empty(), ..self }
                } else {
                    self.preferences_read(self.input_taken(which, task.preferences))
                }
            },
            _ => self,
        }
    }

    /// What was read from the input becomes the preferences of the selected
    /// task; the buffer is given up and the window goes back to choosing.
    /// Where nothing could be read, nothing changes.
    pub open spec fn preferences_read(self, read: Option<Preferences>) -> AppView {
        match (self.current(), read) {
            (Some(i), Some(preferences)) => AppView {
                mode: WindowMode::Preferences(false),
                input: Seq::empty(),
                ..self.with_task(i, TaskView { preferences, ..self.tasks[i].1 })
            },
            _ => self,
        }
    }

    /// `c` is appended to the input if the input then still fits the
    /// display.
    pub open spec fn typed_input(self, c: char) -> AppView {
        AppView {
            input: pushed_if_fits(self.input, self.width, c, display_width(self.input.push(c))),
            ..self
        }
    }

    /// The state after `key`, pressed at `now`. `id` is a fresh identifier
    /// for a task that the key may make.
    pub open spec fn step(self, key: Key, now: DateTime, id: Option<Seq<char>>) -> AppView {
        match self.mode {
            WindowMode::List => match key {
                Key::Char(c) => if c == ' ' {
                    self.marked(now)
                } else if c == 'n' {
                    self.created(now, id)
                } else if c == 'd' {
                    self.deleted(now)
                } else if c == 's' {
                    AppView { mode: WindowMode::Stats, ..self }
                } else {
                    self
                },
                Key::Down => AppView {
                    selected: selection_after_next(self.selected, self.tasks.len()),
                    ..self
                },
                Key::Up => AppView {
                    selected: selection_after_previous(
                        self.selected,
                        self.tasks.len(),
                    ),
                    ..self
                },
                Key::Enter => self.opened(),
                _ => self,
            },
            WindowMode::Task(EditMode::View) => match key {
                Key::Esc => AppView { mode: WindowMode::List, ..self },
                Key::Char(c) => if c == 't' {
                    AppView { mode: WindowMode::Task(EditMode::Edit(EditState::Title)), ..self }
                } else if c == 'e' {
                    AppView { mode: WindowMode::Task(EditMode::Edit(EditState::Task)), ..self }
                } else if c == 's' {
                    self.saved(now)
                } else if c == 'p' {
                    AppView { mode: WindowMode::Preferences(false), ..self }
                } else {
                    self
                },
                _ => self,
            },
            WindowMode::Task(EditMode::Edit(EditState::Title)) => match key {
                Key::Esc => AppView { mode: WindowMode::Task(EditMode::View), ..self },
                Key::Char(c) => self.typed_title(c),
                Key::Backspace => self.erased_title(),
                _ => self,
            },
            WindowMode::Task(EditMode::Edit(EditState::Task)) => match key {
                Key::Esc => AppView { mode: WindowMode::Task(EditMode::View), ..self },
                Key::Char(c) => self.typed_description(c),
                Key::Enter => self.broke_line(),
                Key::Backspace => self.erased_description(),
                _ => self,
            },
            WindowMode::Preferences(false) => match key {
                Key::Char(c) => if c == 'e' {
                    self.edited_preference()
                } else {
                    self
                },
                Key::Esc => AppView {
                    mode: WindowMode::Task(EditMode::View),
                    input: Seq::empty(),
                    ..self
                },
                Key::Up => AppView {
                    preference: selection_after_previous(
                        self.preference,
                        self.preferences.len(),
                    ),
                    ..self
                },
                Key::Down => AppView {
                    preference: selection_after_next(
                        self.preference,
                        self.preferences.len(),
                    ),
                    ..self
                },
                _ => self,
            },
            WindowMode::Preferences(true) => match key {
                Key::Esc => AppView {
                    mode: WindowMode::Preferences(false),
                    input: Seq::empty(),
                    ..self
                },
                Key::Char(c) => self.typed_input(c),
                Key::Backspace => AppView { input: without_last(self.input), ..self },
                Key::Enter => self.edited_preference(),
                _ => self,
            },
            WindowMode::Stats => match key {
                Key::Esc => AppView { mode: WindowMode::List, ..self },
                _ => self,
            },
        }
    }

    /// What `key` writes to the keyspace.
    pub open spec fn effects(self, key: Key, now: DateTime, id: Option<Seq<char>>) -> EffectsView {
        if self.mode == WindowMode::List && key == Key::Char(' ') {
            self.marked_effects()
        } else if self.mode == WindowMode::List && key == Key::Char('n') {
            self.created_effects(now, id)
        } else if self.mode == WindowMode::List && key == Key::Char('d') {
            self.deleted_effects()
        } else if self.mode == WindowMode::Task(EditMode::View) && key == Key::Char('s') {
            self.saved_effects()
        } else {
            EffectsView::none()
        }
    }

    /// Whether `key` leaves the interface: escape in the list window.
    pub open spec fn exits(self, key: Key) -> bool {
        self.mode == WindowMode::List && key == Key::Esc
    }
}

/// A place found among the first tasks of a list is the place found in the
/// whole list.
proof fn lemma_position_extends(list: Seq<Record>, key: Seq<char>, n: int)
    requires
        0 <= n <= list.len(),
        position_of(list.take(n), key) is Some,
    ensures
        position_of(list, key) == position_of(list.take(n), key),
    decreases list.len(),
{
    if n == list.len() {
        assert(list.take(n) == list);
    } else {
        assert(list.drop_last().take(n) == list.take(n));
        lemma_position_extends(list.drop_last(), key, n);
    }
}

impl App {
    /// The first place in the visible list where a task stands under `key`.
    pub fn position(&self, key: &str) -> (r: Option<usize>)
        ensures
            match r {
                Some(i) => position_of(self@.tasks, key@) == Some(i as int),
                None => position_of(self@.tasks, key@) is None,
            },
    {
        let ghost list = self@.tasks;
        let mut i: usize = 0;
        while i < self.tasks.items.len()
            invariant
                i <= self.tasks.items@.len(),
                list == self@.tasks,
                position_of(list.take(i as int), key@) is None,
            decreases self.tasks.items@.len() - i,
        {
            proof {
                assert(list.take(i + 1).drop_last() == list.take(i as int));
            }
            if key_eq(self.tasks.items[i].0.as_str(), key) {
                proof {
                    lemma_position_extends(list, key@, i + 1);
                }
                return Some(i);
            }
            i += 1;
        }
        proof {
            assert(list.take(i as int) == list);
        }
        None
    }

    /// Space in the list window.
    pub fn mark_task(&mut self, now: &DateTime) -> (effects: Effects)
        ensures
            final(self)@ == old(self)@.marked(*now),
            effects@ == old(self)@.marked_effects(),
    {
        match self.tasks.selected() {
            Some(i) => {
                let id = self.tasks.items[i].0.clone();
                let mut task = self.tasks.items[i].1.clone();
                let credit = !task.done && !task.exp_added;
                task.done = !task.done;
                if credit {
                    task.exp_added = true;
                    self.database.add_exp(task.preferences.exp);
                }
                self.database.insert(id.clone(), &task);
                self.update_tasks_at(now);
                Effects { stored: Some(id), removed: None, credited: credit }
            },
            None => Effects::none(),
        }
    }

    /// `n` in the list window.
    pub fn new_task(&mut self, now: &DateTime, id: Option<String>) -> (effects: Effects)
        ensures
            final(self)@ == old(self)@.created(*now, option_view(id)),
            effects@ == old(self)@.created_effects(*now, option_view(id)),
    {
        let id = match id {
            Some(id) => id,
            None => {
                return Effects::none();
            },
        };
        if self.database.contains(id.as_str()) {
            return Effects::none();
        }
        let preferences = match Preferences::starting(now) {
            Some(preferences) => preferences,
            None => {
                return Effects::none();
            },
        };
        let task = Task::new(now, preferences);
        self.database.insert(id.clone(), &task);
        self.update_tasks_at(now);
        match self.position(id.as_str()) {
            Some(i) => {
                self.tasks.selected = Some(i);
                self.mode = WindowMode::Task(EditMode::Edit(EditState::Title));
                self.cursor_pos_x = 0;
                self.cursor_pos_y = 0;
            },
            None => {},
        }
        Effects { stored: Some(id), removed: None, credited: false }
    }

    /// `d` in the list window.
    pub fn delete_task(&mut self, now: &DateTime) -> (effects: Effects)
        ensures
            final(self)@ == old(self)@.deleted(*now),
            effects@ == old(self)@.deleted_effects(),
    {
        match self.tasks.selected() {
            Some(i) => {
                let id = self.tasks.items[i].0.clone();
                self.database.remove(id.as_str());
                self.update_tasks_at(now);
                Effects { stored: None, removed: Some(id), credited: false }
            },
            None => Effects::none(),
        }
    }

    /// The width of the last line of the description of the selected task.
    pub fn line_width(&self) -> (line: usize)
        ensures
            line == self@.line_width(),
    {
        match self.tasks.selected() {
            Some(i) => last_line_width(self.tasks.items[i].1.description.as_str()),
            None => 0,
        }
    }

    /// Puts the cursor in the column behind a line that is `line` columns
    /// wide.
    pub fn cursor_to_column(&mut self, line: usize)
        ensures
            final(self)@ == old(self)@.with_column(line as nat),
    {
        self.cursor_pos_x = to_coordinate(line);
    }

    /// Opens the selected task, of whose description the last line is
    /// `line` columns wide.
    pub fn open_task_at(&mut self, line: usize)
        ensures
            final(self)@ == old(self)@.opened_at(line as nat),
    {
        match self.tasks.selected() {
            Some(i) => {
                let row = last_row_of(self.tasks.items[i].1.description.as_str());
                self.cursor_pos_x = to_coordinate(line);
                self.cursor_pos_y = to_coordinate(row);
                self.mode = WindowMode::Task(EditMode::View);
            },
            None => {},
        }
    }

    /// Enter in the list window.
    pub fn edit_task(&mut self)
        ensures
            final(self)@ == old(self)@.opened(),
    {
        let line = self.line_width();
        self.open_task_at(line);
    }

    /// `s` in the task window.
    pub fn save_task(&mut self, now: &DateTime) -> (effects: Effects)
        ensures
            final(self)@ == old(self)@.saved(*now),
            effects@ == old(self)@.saved_effects(),
    {
        match self.tasks.selected() {
            Some(i) => {
                if self.tasks.items[i].1.title.as_str().is_empty() {
                    return Effects::none();
                }
                let id = self.tasks.items[i].0.clone();
                let task = self.tasks.items[i].1.clone();
                self.database.insert(id.clone(), &task);
                self.mode = WindowMode::List;
                self.update_tasks_at(now);
                Effects { stored: Some(id), removed: None, credited: false }
            },
            None => Effects::none(),
        }
    }

    /// Back to the list window.
    pub fn back_to_list(&mut self)
        ensures
            final(self)@ == (AppView { mode: WindowMode::List, ..old(self)@ }),
    {
        self.mode = WindowMode::List;
    }

    /// Back to the task window; the input is given up.
    pub fn back_to_task(&mut self)
        ensures
            final(self)@ == (AppView {
                mode: WindowMode::Task(EditMode::View),
                input: Seq::empty(),
                ..old(self)@
            }),
    {
        self.preferences_input = String::new();
        self.mode = WindowMode::Task(EditMode::View);
    }

    /// Back to choosing a preference; the input is given up.
    pub fn back_to_pref(&mut self)
        ensures
            final(self)@ == (AppView {
                mode: WindowMode::Preferences(false),
                input: Seq::empty(),
                ..old(self)@
            }),
    {
        self.mode = WindowMode::Preferences(false);
        self.preferences_input = String::new();
    }

    /// A character in the title editor.
    pub fn title_input(&mut self, c: char)
        ensures
            final(self)@ == old(self)@.typed_title(c),
    {
        match self.tasks.selected() {
            Some(i) => {
                let width = self.width;
                input(&mut self.tasks.items[i].1.title, width, c);
                assert(self@.tasks =~= old(self)@.typed_title(c).tasks);
            },
            None => {},
        }
    }

    /// Backspace in the title editor.
    pub fn title_bs(&mut self)
        ensures
            final(self)@ == old(self)@.erased_title(),
    {
        match self.tasks.selected() {
            Some(i) => {
                self.tasks.items[i].1.title.pop();
                assert(self@.tasks =~= old(self)@.erased_title().tasks);
            },
            None => {},
        }
    }

    /// A character in the description editor, where the last line of the
    /// description is `line` columns wide.
    pub fn description_typed(&mut self, n: char, line: usize)
        ensures
            final(self)@ == old(self)@.typed_description_at(n, line as nat),
    {
        match self.tasks.selected() {
            Some(i) => {
                self.tasks.items[i].1.description.push(n);
                if line >= self.width.saturating_sub(MARGIN) as usize {
                    self.tasks.items[i].1.description.push('\n');
                    self.cursor_pos_y = self.cursor_pos_y.saturating_add(1);
                }
                assert(self@.tasks =~= old(self)@.typed_description_at(n, line as nat).tasks);
            },
            None => {},
        }
    }

    /// A character in the description editor.
    pub fn description_input(&mut self, n: char)
        ensures
            final(self)@ == old(self)@.typed_description(n),
    {
        if self.tasks.selected().is_some() {
            let line = self.line_width();
            self.description_typed(n, line);
            let line = self.line_width();
            self.cursor_to_column(line);
        }
    }

    /// Enter in the description editor.
    pub fn description_enter(&mut self)
        ensures
            final(self)@ == old(self)@.broke_line(),
    {
        match self.tasks.selected() {
            Some(i) => {
                self.tasks.items[i].1.description.push('\n');
                self.cursor_pos_y = self.cursor_pos_y.saturating_add(1);
                assert(self@.tasks =~= old(self)@.line_broken().tasks);
                let line = self.line_width();
                self.cursor_to_column(line);
            },
            None => {},
        }
    }

    /// Backspace in the description editor, where the last line of the
    /// description is `line` columns wide.
    pub fn description_erased(&mut self, line: usize)
        ensures
            final(self)@ == old(self)@.erased_description_at(line as nat),
    {
        match self.tasks.selected() {
            Some(i) => {
                self.tasks.items[i].1.description.pop();
                if line == 0 {
                    self.cursor_pos_y = self.cursor_pos_y.saturating_sub(1);
                    self.tasks.items[i].1.description.pop();
                }
                assert(self@.tasks =~= old(self)@.erased_description_at(line as nat).tasks);
            },
            None => {},
        }
    }

    /// Backspace in the description editor.
    pub fn description_bs(&mut self)
        ensures
            final(self)@ == old(self)@.erased_description(),
    {
        if self.tasks.selected().is_some() {
            let line = self.line_width();
            self.description_erased(line);
            let line = self.line_width();
            self.cursor_to_column(line);
        }
    }

    /// Takes what was read from the input as the preferences of the
    /// selected task.
    pub fn preferences_read(&mut self, read: Option<Preferences>)
        ensures
            final(self)@ == old(self)@.preferences_read(read),
    {
        match (self.tasks.selected(), read) {
            (Some(i), Some(preferences)) => {
                self.tasks.items[i].1.preferences = preferences;
                self.back_to_pref();
                assert(self@.tasks =~= old(self)@.preferences_read(read).tasks);
            },
            _ => {},
        }
    }

    /// `e` where a preference is chosen, enter where input is taken.
    pub fn preferences_edit(&mut self)
        ensures
            final(self)@ == old(self)@.edited_preference(),
    {
        let i = match self.tasks.selected() {
            Some(i) => i,
            None => {
                return ;
            },
        };
        let which = match self.preferences.selected() {
            Some(p) => self.preferences.items[p],
            None => {
                return ;
            },
        };
        let preferences = self.tasks.items[i].1.preferences;
        if which == Preference::Repeat {
            self.tasks.items[i].1.preferences.daily_repeat = !preferences.daily_repeat;
            assert(self@.tasks =~= old(self)@.edited_preference().tasks);
        } else if self.mode == WindowMode::Preferences(false) {
            self.mode = WindowMode::Preferences(true);
            self.preferences_input = String::new();
        } else {
            let read = match which {
                Preference::Repeat => None,
                Preference::Expire => match parse_date_time(
                    self.preferences_input.as_str(),
                    EXPIRE_FORMAT,
                ) {
                    Some(expire) => Some(Preferences { expire, ..preferences }),
                    None => None,
                },
                Preference::Experience => match parse_u32(self.preferences_input.as_str()) {
                    Some(exp) => Some(Preferences { exp, ..preferences }),
                    None => None,
                },
            };
            self.preferences_read(read);
        }
    }

    /// The key `key`, pressed at `now`. `id` is a fresh identifier for the
    /// task that the key may make. The signal to leave comes back for escape
    /// in the list window, and for nothing else; what was written to the
    /// keyspace comes back otherwise.
    pub fn event_at(&mut self, key: Key, now: &DateTime, id: Option<String>) -> (r: Result<
        Effects,
        ExitApp,
    >)
        ensures
            final(self)@ == old(self)@.step(key, *now, option_view(id)),
            match r {
                Ok(effects) => !old(self)@.exits(key) && effects@ == old(self)@.effects(
                    key,
                    *now,
                    option_view(id),
                ),
                Err(_) => old(self)@.exits(key),
            },
    {
        let mut effects = Effects::none();
        match self.mode {
            WindowMode::List => match key {
                Key::Char(c) => {
                    if c == ' ' {
                        effects = self.mark_task(now);
                    } else if c == 'n' {
                        effects = self.new_task(now, id);
                    } else if c == 'd' {
                        effects = self.delete_task(now);
                    } else if c == 's' {
                        self.mode = WindowMode::Stats;
                    }
                },
                Key::Down => self.tasks.next(),
                Key::Up => self.tasks.previous(),
                Key::Enter => self.edit_task(),
                Key::Esc => {
                    return Err(ExitApp);
                },
                _ => {},
            },
            WindowMode::Task(EditMode::View) => match key {
                Key::Esc => self.back_to_list(),
                Key::Char(c) => {
                    if c == 't' {
                        self.mode = WindowMode::Task(EditMode::Edit(EditState::Title));
                    } else if c == 'e' {
                        self.mode = WindowMode::Task(EditMode::Edit(EditState::Task));
                    } else if c == 's' {
                        effects = self.save_task(now);
                    } else if c == 'p' {
                        self.mode = WindowMode::Preferences(false);
                    }
                },
                _ => {},
            },
            WindowMode::Task(EditMode::Edit(EditState::Title)) => match key {
                Key::Esc => {
                    self.mode = WindowMode::Task(EditMode::View);
                },
                Key::Char(c) => self.title_input(c),
                Key::Backspace => self.title_bs(),
                _ => {},
            },
            WindowMode::Task(EditMode::Edit(EditState::Task)) => match key {
                Key::Esc => {
                    self.mode = WindowMode::Task(EditMode::View);
                },
                Key::Char(c) => self.description_input(c),
                Key::Enter => self.description_enter(),
                Key::Backspace => self.description_bs(),
                _ => {},
            },
            WindowMode::Preferences(false) => match key {
                Key::Char(c) => {
                    if c == 'e' {
                        self.preferences_edit();
                    }
                },
                Key::Esc => self.back_to_task(),
                Key::Up => self.preferences.previous(),
                Key::Down => self.preferences.next(),
                _ => {},
            },
            WindowMode::Preferences(true) => match key {
                Key::Esc => self.back_to_pref(),
                Key::Char(c) => {
                    let width = self.width;
                    input(&mut self.preferences_input, width, c);
                },
                Key::Backspace => {
                    self.preferences_input.pop();
                },
                Key::Enter => self.preferences_edit(),
                _ => {},
            },
            WindowMode::Stats => match key {
                Key::Esc => self.back_to_list(),
                _ => {},
            },
        }
        Ok(effects)
    }

    /// The key `key`, pressed now. The time is read from the clock, and where
    /// the key makes a task a fresh identifier is drawn: whatever the two
    /// are, the key does what `event_at` does with them.
    pub fn event(&mut self, key: Key) -> (r: Result<Effects, ExitApp>)
        ensures
            exists|now: DateTime, id: Option<Seq<char>>|
                now.wf() && final(self)@ == #[trigger] old(self)@.step(key, now, id) && (match r {
                    Ok(effects) => !old(self)@.exits(key) && effects@ == old(self)@.effects(
                        key,
                        now,
                        id,
                    ),
                    Err(_) => old(self)@.exits(key),
                }),
    {
        let now = local_now();
        let id = if self.mode == WindowMode::List && key == Key::Char('n') {
            self.database.unused_id()
        } else {
            None
        };
        let ghost drawn = option_view(id);
        let r = self.event_at(key, &now, id);
        assert(self@ == old(self)@.step(key, now, drawn));
        r
    }
}

/// The identifier as characters, where there is one.
pub open spec fn option_view(id: Option<String>) -> Option<Seq<char>> {
    match id {
        Some(id) => Some(id@),
        None => None,
    }
}

/// The tasks stay those of a keyspace, and while a task or its preferences
/// are open a task is selected, whatever keys are pressed.
pub proof fn lemma_step_keeps_selection(
    state: AppView,
    key: Key,
    now: DateTime,
    id: Option<Seq<char>>,
)
    requires
        state.wf(),
    ensures
        state.step(key, now, id).wf(),
{
    if state.mode == WindowMode::List && key == Key::Char('n') && state.can_create(now, id) {
        let task = blank_task(now, Preferences::starting_spec(now).unwrap());
        let written = AppView { store: state.store.insert(id.unwrap(), task), ..state };
        lemma_position_of(written.refreshed(now).tasks, id.unwrap());
        lemma_store_changes(state.store, id.unwrap(), task);
    }
    if state.current() is Some {
        let (held, task) = state.tasks[state.current().unwrap()];
        lemma_store_changes(state.store, held, task);
        lemma_store_changes(
            state.store,
            held,
            TaskView { done: !task.done, exp_added: task.exp_added || !task.done, ..task },
        );
    }
}

/// `n` with a free identifier, at a moment that has a next day, makes the
/// task, selects it in the list and opens it for its title, as long as the
/// places of the list can be counted in a `usize`.
pub proof fn lemma_created_opens(state: AppView, now: DateTime, id: Option<Seq<char>>)
    requires
        is_store(state.store),
        state.can_create(now, id),
        Database::records_for(
            state.store.insert(id.unwrap(), blank_task(now, Preferences::starting_spec(now).unwrap())),
        ).len() <= usize::MAX,
    ensures
        state.created(now, id).mode == WindowMode::Task(EditMode::Edit(EditState::Title)),
        state.created(now, id).store == state.store.insert(
            id.unwrap(),
            blank_task(now, Preferences::starting_spec(now).unwrap()),
        ),
        state.created(now, id).current() matches Some(i) && state.created(now, id).tasks[i] == (
            id.unwrap(),
            blank_task(now, Preferences::starting_spec(now).unwrap()),
        ),
{
    let key = id.unwrap();
    let task = blank_task(now, Preferences::starting_spec(now).unwrap());
    let store = state.store.insert(key, task);
    let records = Database::records_for(store);
    let written = AppView { store, ..state };
    let list = written.refreshed(now).tasks;
    lemma_store_changes(state.store, key, task);
    Database::lemma_records_of_store(store);
    assert(store.contains_key(key));
    assert(records_map(records).contains_key(key));
    assert(has_key(records, key));
    let at = index_of_key(records, key);
    lemma_map_holds(records, at);
    assert(records[at] == (key, task));
    assert(records.contains((key, task)));
    lemma_next_day_later(now);
    lemma_refreshed(records, now);
    assert(list.contains((key, task)));
    let i = choose|i: int| 0 <= i < list.len() && list[i] == (key, task);
    lemma_position_found(list, key, i);
    lemma_position_of(list, key);
    let found = position_of(list, key).unwrap();
    assert(list.contains(list[found]));
    assert(records.contains(list[found]));
    let other = choose|j: int| 0 <= j < records.len() && records[j] == list[found];
    lemma_keys_unique(records, at, other);
}

/// In the title editor no key but backspace makes a title that fits the
/// display into one that does not.
pub proof fn lemma_title_fits(state: AppView, key: Key, now: DateTime, id: Option<Seq<char>>)
    requires
        state.mode == WindowMode::Task(EditMode::Edit(EditState::Title)),
        key != Key::Backspace,
        state.current() matches Some(i) && display_width(state.tasks[i].1.title) <= text_columns(
            state.width,
        ),
    ensures
        state.step(key, now, id).current() == state.current(),
        display_width(state.step(key, now, id).tasks[state.current().unwrap()].1.title)
            <= text_columns(state.step(key, now, id).width),
{
}

/// What a key says it wrote is all that it changed in the keyspace: a task
/// written under the identifier it names, a task removed under the
/// identifier it names, and the account record where it says so. The signal
/// to leave changes nothing at all.
pub proof fn lemma_effects(state: AppView, key: Key, now: DateTime, id: Option<Seq<char>>)
    ensures
        ({
            let after = state.step(key, now, id);
            let effects = state.effects(key, now, id);
            &&& after.store == (match (effects.stored, effects.removed) {
                (Some(stored), _) => state.store.insert(stored, after.store[stored]),
                (None, Some(removed)) => state.store.remove(removed),
                (None, None) => state.store,
            })
            &&& effects.stored matches Some(stored) ==> after.store.contains_key(stored)
            &&& !effects.credited ==> after.account == state.account
            &&& effects.credited ==> after.account is Some
        }),
        state.exits(key) ==> state.step(key, now, id) == state,
{
    let after = state.step(key, now, id);
    let effects = state.effects(key, now, id);
    if effects.stored is Some {
        let stored = effects.stored.unwrap();
        assert(after.store =~= state.store.insert(stored, after.store[stored]));
    }
}

/// The experience of the account never goes down, whatever keys are
/// pressed, and a task whose reward has been credited is not credited again.
pub proof fn lemma_experience_grows(
    state: AppView,
    key: Key,
    now: DateTime,
    id: Option<Seq<char>>,
)
    ensures
        account_or_default(state.step(key, now, id).account).exp >= account_or_default(
            state.account,
        ).exp,
        state.current() matches Some(i) && state.tasks[i].1.exp_added ==> state.step(
            key,
            now,
            id,
        ).account == state.account,
{
}

} // verus!
