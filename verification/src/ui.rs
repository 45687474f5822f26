//! The state of the interface: the keyspace, the visible task list with its
//! selection, the window that is open and the buffers of the editors.

use crate::account::{account_or_default, exp_to_next_level_of, level_of, AccountView};
use crate::cache::{lemma_refreshed, ordered_by_creation, refresh, refreshed};
use crate::database::{index_of_key, is_store, lemma_map_holds, records_map, Database};
use crate::list::{selection_within, StatefulList};
use crate::task::{records_of, Record, Task, TaskView};
use crate::time::{local_now, DateTime};
use vstd::prelude::*;

verus! {

/// What the task editor edits.
#[derive(Clone, Copy, Debug, PartialEq, Eq, Structural)]
pub enum EditState {
    Title,
    Task,
}

/// Whether the task window shows or edits.
#[derive(Clone, Copy, Debug, PartialEq, Eq, Structural)]
pub enum EditMode {
    View,
    Edit(EditState),
}

/// The window that is open. The preferences window is either choosing a
/// preference (`false`) or taking input for one (`true`).
#[derive(Clone, Copy, Debug, PartialEq, Eq, Structural)]
pub enum WindowMode {
    List,
    Task(EditMode),
    Preferences(bool),
    Stats,
}

impl Default for WindowMode {
    fn default() -> (mode: WindowMode)
        ensures
            mode == WindowMode::List,
    {
        WindowMode::List
    }
}

/// A line of the preferences window.
#[derive(Clone, Copy, Debug, PartialEq, Eq, Structural)]
pub enum Preference {
    Repeat,
    Expire,
    Experience,
}

/// The state of the interface.
pub struct App {
    pub database: Database,
    pub mode: WindowMode,
    /// The visible tasks. Edits are made on these and reach the keyspace
    /// when the task is saved.
    pub tasks: StatefulList<(String, Task)>,
    pub preferences: StatefulList<Preference>,
    pub preferences_input: String,
    pub cursor_pos_x: u16,
    pub cursor_pos_y: u16,
    pub width: u16,
}

/// The state of the interface as plain values.
pub struct AppView {
    /// The tasks of the keyspace.
    pub store: Map<Seq<char>, TaskView>,
    /// The account record of the keyspace.
    pub account: Option<AccountView>,
    pub mode: WindowMode,
    /// The visible tasks.
    pub tasks: Seq<Record>,
    /// The place of the selected task.
    pub selected: Option<usize>,
    pub preferences: Seq<Preference>,
    /// The place of the selected preference.
    pub preference: Option<usize>,
    /// The input for a preference.
    pub input: Seq<char>,
    /// Column and row of the cursor in the description.
    pub cursor: (u16, u16),
    /// The width of the display.
    pub width: u16,
}

impl View for App {
    type V = AppView;

    open spec fn view(&self) -> AppView {
        AppView {
            store: self.database@,
            account: self.database.account_record(),
            mode: self.mode,
            tasks: records_of(self.tasks.items@),
            selected: self.tasks.selected,
            preferences: self.preferences.items@,
            preference: self.preferences.selected,
            input: self.preferences_input@,
            cursor: (self.cursor_pos_x, self.cursor_pos_y),
            width: self.width,
        }
    }
}

/// The first place in a list where a task stands under `key`.
pub open spec fn position_of(list: Seq<Record>, key: Seq<char>) -> Option<int>
    decreases list.len(),
{
    if list.len() == 0 {
        None
    } else if list.last().0 == key && position_of(list.drop_last(), key) is None {
        Some(list.len() - 1)
    } else {
        position_of(list.drop_last(), key)
    }
}

/// A place found in a list is a place of the list, and the task there
/// stands under the key.
pub proof fn lemma_position_of(list: Seq<Record>, key: Seq<char>)
    ensures
        position_of(list, key) matches Some(i) ==> 0 <= i < list.len() && list[i].0 == key,
    decreases list.len(),
{
    if list.len() > 0 {
        lemma_position_of(list.drop_last(), key);
    }
}

/// A task that stands in a list under `key` is found there.
pub proof fn lemma_position_found(list: Seq<Record>, key: Seq<char>, i: int)
    requires
        0 <= i < list.len(),
        list[i].0 == key,
    ensures
        position_of(list, key) is Some,
    decreases list.len(),
{
    if i < list.len() - 1 {
        lemma_position_found(list.drop_last(), key, i);
    }
}

impl AppView {
    /// The place of the selected task, where one is selected.
    pub open spec fn current(self) -> Option<int> {
        match self.selected {
            Some(i) => if i < self.tasks.len() {
                Some(i as int)
            } else {
                None
            },
            None => None,
        }
    }

    /// The selected preference, where one is selected.
    pub open spec fn current_preference(self) -> Option<Preference> {
        match self.preference {
            Some(i) => if i < self.preferences.len() {
                Some(self.preferences[i as int])
            } else {
                None
            },
            None => None,
        }
    }

    /// The state with `task` in place of the visible task at `i`.
    pub open spec fn with_task(self, i: int, task: TaskView) -> AppView {
        AppView { tasks: self.tasks.update(i, (self.tasks[i].0, task)), ..self }
    }

    /// The state after the visible list is built anew from the keyspace. The
    /// selection stays where it still names a task.
    pub open spec fn refreshed(self, now: DateTime) -> AppView {
        let tasks = refreshed(Database::records_for(self.store), now);
        AppView { tasks, selected: selection_within(self.selected, tasks.len()), ..self }
    }

    /// The tasks are those of a keyspace, and while a task or its
    /// preferences are open, a task is selected.
    pub open spec fn wf(self) -> bool {
        &&& is_store(self.store)
        &&& (self.mode is Task || self.mode is Preferences) ==> self.current() is Some
    }

    /// Experience, level and the experience missing for the next level.
    pub open spec fn stats(self) -> (u32, nat, int) {
        let exp = account_or_default(self.account).exp;
        (exp, level_of(exp as nat), exp_to_next_level_of(exp as nat))
    }
}

/// Building the visible list twice from the same keyspace at the same moment
/// gives the list that building it once gives.
pub proof fn lemma_refresh_idempotent(state: AppView, now: DateTime)
    ensures
        state.refreshed(now).refreshed(now) == state.refreshed(now),
{
}

/// A task whose expiry is not later than `now` is not in the visible list
/// built at `now`, and the list is in the order of creation. The keyspace
/// keeps what has expired: building the list changes nothing in it.
pub proof fn lemma_refresh_hides_expired(state: AppView, now: DateTime)
    ensures
        forall|i: int|
            0 <= i < state.refreshed(now).tasks.len() ==> !(#[trigger] state.refreshed(
                now,
            ).tasks[i]).1.expired(now),
        ordered_by_creation(state.refreshed(now).tasks),
        state.refreshed(now).store == state.store,
        state.refreshed(now).account == state.account,
{
    lemma_refreshed(Database::records_for(state.store), now);
}

/// Each task of a list that was just built is the task that the keyspace
/// holds under its identifier, and every task of the keyspace that has not
/// expired is in the list.
pub proof fn lemma_refresh_shows_store(state: AppView, now: DateTime)
    requires
        is_store(state.store),
    ensures
        forall|i: int|
            0 <= i < state.refreshed(now).tasks.len() ==> {
                let (id, task) = #[trigger] state.refreshed(now).tasks[i];
                state.store.contains_key(id) && state.store[id] == task
            },
        forall|id: Seq<char>|
            state.store.contains_key(id) && !state.store[id].expired(now) ==> state.refreshed(
                now,
            ).tasks.contains((id, #[trigger] state.store[id])),
{
    let records = Database::records_for(state.store);
    let list = refreshed(records, now);
    assert(state.refreshed(now).tasks == list);
    Database::lemma_records_of_store(state.store);
    lemma_refreshed(records, now);
    assert forall|i: int| 0 <= i < list.len() implies {
        let (id, task) = #[trigger] list[i];
        state.store.contains_key(id) && state.store[id] == task
    } by {
        assert(list.contains(list[i]));
        assert(records.contains(list[i]));
        let j = choose|j: int| 0 <= j < records.len() && records[j] == list[i];
        lemma_map_holds(records, j);
    }
    assert forall|id: Seq<char>|
        state.store.contains_key(id) && !state.store[id].expired(now) implies list.contains(
        (id, #[trigger] state.store[id]),
    ) by {
        assert(records_map(records).contains_key(id));
        let j = index_of_key(records, id);
        lemma_map_holds(records, j);
        assert(records[j] == (id, state.store[id]));
        assert(records.contains((id, state.store[id])));
    }
}

impl App {
    /// The interface over a keyspace: the list window, nothing listed yet,
    /// and the three preferences.
    pub fn new(database: Database) -> (app: App)
        ensures
            app@ == (AppView {
                store: database@,
                account: database.account_record(),
                mode: WindowMode::List,
                tasks: Seq::empty(),
                selected: None,
                preferences: seq![Preference::Repeat, Preference::Expire, Preference::Experience],
                preference: None,
                input: Seq::empty(),
                cursor: (0, 0),
                width: 0,
            }),
            app@.wf(),
    {
        proof {
            use_type_invariant(&database);
            database.lemma_records_for();
        }
        let mut preferences: StatefulList<Preference> = StatefulList::new();
        preferences.items.push(Preference::Repeat);
        preferences.items.push(Preference::Expire);
        preferences.items.push(Preference::Experience);
        let app = App {
            database,
            mode: WindowMode::List,
            tasks: StatefulList::new(),
            preferences,
            preferences_input: String::new(),
            cursor_pos_x: 0,
            cursor_pos_y: 0,
            width: 0,
        };
        assert(app@.tasks =~= Seq::empty());
        assert(app@.preferences =~= seq![
            Preference::Repeat,
            Preference::Expire,
            Preference::Experience,
        ]);
        app
    }

    /// Builds the visible list anew from the keyspace, as of the time that
    /// the clock gives: whatever that is, the list is the one that
    /// `update_tasks_at` builds for it.
    pub fn update_tasks(&mut self)
        ensures
            exists|now: DateTime| now.wf() && final(self)@ == #[trigger] old(self)@.refreshed(now),
    {
        let now = local_now();
        self.update_tasks_at(&now);
        assert(self@ == old(self)@.refreshed(now));
    }

    /// Builds the visible list anew from the keyspace: the tasks that have
    /// not expired at `now`, in the order of their creation.
    pub fn update_tasks_at(&mut self, now: &DateTime)
        ensures
            final(self)@ == old(self)@.refreshed(*now),
    {
        let records = self.database.iter();
        proof {
            self.database.lemma_records_for();
        }
        let list = refresh(&records, now);
        self.tasks.set_items(list);
    }

    /// The selected task with its identifier.
    pub fn task(&self) -> (r: Option<(&String, &Task)>)
        ensures
            match r {
                Some((id, task)) => self@.current() matches Some(i) && self@.tasks[i] == (
                    id@,
                    task@,
                ),
                None => self@.current() is None,
            },
    {
        match self.tasks.selected() {
            Some(i) => {
                let entry = &self.tasks.items[i];
                Some((&entry.0, &entry.1))
            },
            None => None,
        }
    }

    /// Experience, level and the experience missing for the next level, all
    /// derived from the experience of the account.
    pub fn stats(&self) -> (r: (u32, u32, u64))
        ensures
            r.0 == self@.stats().0,
            r.1 == self@.stats().1,
            r.2 == self@.stats().2,
    {
        self.database.account().stats()
    }
}

} // verus!
