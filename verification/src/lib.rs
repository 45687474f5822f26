//! Verified core of a terminal task tracker: the task keyspace, the
//! experience ledger, the visible task list and the modal key handling.

pub mod account;
pub mod cache;
pub mod database;
pub mod keyboard;
pub mod list;
pub mod task;
pub mod text;
pub mod time;
pub mod ui;

pub use crate::account::{Account, Achievements, Config, Values};
pub use crate::database::{Database, StoreError};
pub use crate::keyboard::{Effects, ExitApp, Key};
pub use crate::list::StatefulList;
pub use crate::task::{Preferences, Task};
pub use crate::text::input;
pub use crate::time::DateTime;
pub use crate::ui::{App, EditMode, EditState, Preference, WindowMode};
