//! A task and its preferences.

use crate::time::DateTime;
use vstd::prelude::*;

verus! {

/// The experience that a task is worth unless its preferences say otherwise.
pub const DEFAULT_EXP: u32 = 25;

/// Settings of one task.
#[derive(Clone, Copy, Debug, PartialEq, Eq, Structural)]
pub struct Preferences {
    /// The task comes back every day.
    pub daily_repeat: bool,
    /// From this moment on the task is no longer shown.
    pub expire: DateTime,
    /// The experience credited when the task is done.
    pub exp: u32,
}

impl Preferences {
    /// The preferences of a task made at `now`: no repeat, the default
    /// reward, and expiry on the next day at the same time of day. `None`
    /// where `now` has no next day.
    pub open spec fn starting_spec(now: DateTime) -> Option<Preferences> {
        match now.next_day_spec() {
            Some(expire) => Some(Preferences { daily_repeat: false, expire, exp: DEFAULT_EXP }),
            None => None,
        }
    }

    /// The preferences of a task made at `now`.
    pub fn starting(now: &DateTime) -> (r: Option<Preferences>)
        ensures
            r == Self::starting_spec(*now),
    {
        match now.next_day() {
            Some(expire) => Some(Preferences { daily_repeat: false, expire, exp: DEFAULT_EXP }),
            None => None,
        }
    }
}

/// A unit of work.
#[derive(Debug, PartialEq, Eq)]
pub struct Task {
    pub title: String,
    pub description: String,
    pub done: bool,
    /// The reward has been credited to the account.
    pub exp_added: bool,
    pub creation_date: DateTime,
    pub preferences: Preferences,
}

/// What a task holds, its texts as sequences of characters.
pub struct TaskView {
    pub title: Seq<char>,
    pub description: Seq<char>,
    pub done: bool,
    pub exp_added: bool,
    pub creation_date: DateTime,
    pub preferences: Preferences,
}

impl View for Task {
    type V = TaskView;

    open spec fn view(&self) -> TaskView {
        TaskView {
            title: self.title@,
            description: self.description@,
            done: self.done,
            exp_added: self.exp_added,
            creation_date: self.creation_date,
            preferences: self.preferences,
        }
    }
}

impl DeepView for Task {
    type V = TaskView;

    open spec fn deep_view(&self) -> TaskView {
        self@
    }
}

impl Clone for Task {
    fn clone(&self) -> (r: Self)
        ensures
            r@ == self@,
    {
        Task {
            title: self.title.clone(),
            description: self.description.clone(),
            done: self.done,
            exp_added: self.exp_added,
            creation_date: self.creation_date,
            preferences: self.preferences,
        }
    }
}

/// A task under its identifier, as the keyspace and the task list hold it.
pub type Record = (Seq<char>, TaskView);

/// The records that a list of identified tasks holds.
pub open spec fn records_of(entries: Seq<(String, Task)>) -> Seq<Record> {
    Seq::new(entries.len(), |i: int| (entries[i].0@, entries[i].1@))
}

impl TaskView {
    /// The task is no longer shown at `now`: its expiry is not later.
    pub open spec fn expired(self, now: DateTime) -> bool {
        self.preferences.expire.le_spec(now)
    }
}

impl Task {
    /// A task made at `now`: no title, no description, not done, and the
    /// preferences `preferences`.
    pub fn new(now: &DateTime, preferences: Preferences) -> (r: Task)
        ensures
            r@ == (TaskView {
                title: Seq::empty(),
                description: Seq::empty(),
                done: false,
                exp_added: false,
                creation_date: *now,
                preferences,
            }),
    {
        Task {
            title: String::new(),
            description: String::new(),
            done: false,
            exp_added: false,
            creation_date: *now,
            preferences,
        }
    }

    /// Whether the task is no longer shown at `now`.
    pub fn expired(&self, now: &DateTime) -> (b: bool)
        ensures
            b == self@.expired(*now),
    {
        self.preferences.expire.le(now)
    }
}

} // verus!
