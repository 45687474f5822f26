use tors::{
    App, Database, DateTime, EditMode, EditState, Effects, ExitApp, Key, Preferences, Task,
    WindowMode,
};

fn at(year: i32, month: u32, day: u32, hour: u32, minute: u32, second: u32) -> DateTime {
    DateTime { year, month, day, hour, minute, second, nano: 0 }
}

fn now() -> DateTime {
    at(2022, 7, 8, 12, 0, 0)
}

fn task(title: &str, created: DateTime, expire: DateTime) -> Task {
    Task {
        title: title.to_string(),
        description: String::new(),
        done: false,
        exp_added: false,
        creation_date: created,
        preferences: Preferences { daily_repeat: false, expire, exp: 25 },
    }
}

fn nothing() -> Effects {
    Effects { stored: None, removed: None, credited: false }
}

fn stored(id: &str) -> Effects {
    Effects { stored: Some(id.to_string()), removed: None, credited: false }
}

fn press(app: &mut App, key: Key) -> Effects {
    app.event_at(key, &now(), None).unwrap()
}

fn type_text(app: &mut App, text: &str) {
    for c in text.chars() {
        assert_eq!(press(app, Key::Char(c)), nothing());
    }
}

fn app_with(tasks: Vec<(&str, Task)>) -> App {
    let mut db = Database::new();
    for (id, task) in tasks {
        db.insert(id.to_string(), &task);
    }
    let mut app = App::new(db);
    app.update_tasks_at(&now());
    app.width = 80;
    app
}

fn one_task() -> App {
    let mut app = app_with(vec![("a", task("one", at(2022, 7, 1, 0, 0, 0), at(2022, 7, 9, 0, 0, 0)))]);
    press(&mut app, Key::Down);
    app
}

#[test]
fn new_task_typed_and_saved_is_the_one_stored_task() {
    let mut app = app_with(vec![]);
    assert!(app.tasks.items.is_empty());
    let made = app.event_at(Key::Char('n'), &now(), Some("id-1".to_string()));
    assert_eq!(made, Ok(stored("id-1")));
    assert_eq!(app.mode, WindowMode::Task(EditMode::Edit(EditState::Title)));
    assert_eq!(app.tasks.selected, Some(0));
    type_text(&mut app, "Buy milk");
    assert_eq!(press(&mut app, Key::Esc), nothing());
    assert_eq!(app.mode, WindowMode::Task(EditMode::View));
    assert_eq!(press(&mut app, Key::Char('s')), stored("id-1"));
    assert_eq!(app.mode, WindowMode::List);
    let all = app.database.iter();
    assert_eq!(all.len(), 1);
    assert_eq!(all[0].0, "id-1");
    assert_eq!(all[0].1.title, "Buy milk");
    assert!(!all[0].1.done);
    assert_eq!(all[0].1.description, "");
    assert_eq!(all[0].1.creation_date, now());
    assert_eq!(all[0].1.preferences, Preferences { daily_repeat: false, expire: at(2022, 7, 9, 12, 0, 0), exp: 25 });
    assert_eq!(app.tasks.items, all);
}

#[test]
fn new_task_with_the_clock_and_a_drawn_identifier() {
    let mut app = App::new(Database::new());
    app.width = 80;
    let made = app.event(Key::Char('n')).unwrap();
    let id = made.stored.clone().unwrap();
    assert_eq!(id.chars().count(), 21);
    assert_eq!(made, stored(&id));
    assert_eq!(app.mode, WindowMode::Task(EditMode::Edit(EditState::Title)));
    for c in "Buy milk".chars() {
        assert_eq!(app.event(Key::Char(c)), Ok(nothing()));
    }
    assert_eq!(app.event(Key::Esc), Ok(nothing()));
    assert_eq!(app.event(Key::Char('s')), Ok(stored(&id)));
    assert_eq!(app.mode, WindowMode::List);
    assert_eq!(app.database.len(), 1);
    let saved = app.database.get(&id).unwrap();
    assert_eq!(saved.title, "Buy milk");
    assert!(!saved.done);
    let created = saved.creation_date;
    assert!(created.year >= 2024);
    assert!((1..=12).contains(&created.month));
    assert!((1..=31).contains(&created.day));
    assert!(created.hour < 24 && created.minute < 60 && created.second < 60);
    assert_eq!(Some(saved.preferences.expire), created.next_day());
    assert_eq!(app.event(Key::Esc), Err(ExitApp));
}

#[test]
fn new_task_needs_a_free_identifier() {
    let mut app = one_task();
    let before = app.database.iter();
    assert_eq!(app.event_at(Key::Char('n'), &now(), Some("a".to_string())), Ok(nothing()));
    assert_eq!(app.event_at(Key::Char('n'), &now(), None), Ok(nothing()));
    assert_eq!(app.mode, WindowMode::List);
    assert_eq!(app.database.iter(), before);
}

#[test]
fn new_task_needs_a_next_day() {
    let mut app = app_with(vec![]);
    let last = at(262142, 12, 31, 0, 0, 0);
    assert_eq!(app.event_at(Key::Char('n'), &last, Some("a".to_string())), Ok(nothing()));
    assert_eq!(app.database.len(), 0);
    assert_eq!(app.mode, WindowMode::List);
}

#[test]
fn new_task_is_selected_among_the_others() {
    let mut app = app_with(vec![
        ("a", task("old", at(2022, 7, 1, 0, 0, 0), at(2022, 7, 9, 0, 0, 0))),
        ("z", task("young", at(2022, 7, 8, 13, 0, 0), at(2022, 7, 9, 0, 0, 0))),
    ]);
    app.event_at(Key::Char('n'), &now(), Some("m".to_string())).unwrap();
    assert_eq!(app.tasks.selected, Some(1));
    assert_eq!(app.task().unwrap().0, "m");
    assert_eq!((app.cursor_pos_x, app.cursor_pos_y), (0, 0));
}

#[test]
fn marking_done_credits_the_reward() {
    let mut app = one_task();
    assert_eq!(app.stats(), (0, 0, 40));
    let effects = press(&mut app, Key::Char(' '));
    assert_eq!(effects, Effects { stored: Some("a".to_string()), removed: None, credited: true });
    assert_eq!(app.database.get_exp(), 25);
    assert_eq!(app.database.account().lvl, 0);
    assert_eq!(app.stats(), (25, 0, 15));
    let marked = app.database.get("a").unwrap();
    assert!(marked.done);
    assert!(marked.exp_added);
    assert!(app.tasks.items[0].1.done);
}

#[test]
fn marking_done_again_credits_nothing_more() {
    let mut app = one_task();
    press(&mut app, Key::Char(' '));
    assert_eq!(press(&mut app, Key::Char(' ')), stored("a"));
    assert!(!app.database.get("a").unwrap().done);
    assert_eq!(app.database.get_exp(), 25);
    assert_eq!(press(&mut app, Key::Char(' ')), stored("a"));
    assert!(app.database.get("a").unwrap().done);
    assert_eq!(app.database.get_exp(), 25);
}

#[test]
fn marking_without_a_selection_does_nothing() {
    let mut app = app_with(vec![("a", task("one", at(2022, 7, 1, 0, 0, 0), at(2022, 7, 9, 0, 0, 0)))]);
    assert_eq!(press(&mut app, Key::Char(' ')), nothing());
    assert_eq!(press(&mut app, Key::Char('d')), nothing());
    assert_eq!(press(&mut app, Key::Enter), nothing());
    assert_eq!(app.mode, WindowMode::List);
    assert!(!app.database.get("a").unwrap().done);
}

#[test]
fn deleting_removes_the_selected_task() {
    let mut app = app_with(vec![
        ("a", task("one", at(2022, 7, 1, 0, 0, 0), at(2022, 7, 9, 0, 0, 0))),
        ("b", task("two", at(2022, 7, 2, 0, 0, 0), at(2022, 7, 9, 0, 0, 0))),
    ]);
    press(&mut app, Key::Down);
    press(&mut app, Key::Down);
    let effects = press(&mut app, Key::Char('d'));
    assert_eq!(effects, Effects { stored: None, removed: Some("b".to_string()), credited: false });
    assert_eq!(app.database.len(), 1);
    assert!(app.database.contains("a"));
    assert_eq!(app.tasks.items.len(), 1);
    assert_eq!(app.tasks.selected, None);
}

#[test]
fn arrows_move_the_selection_around() {
    let mut app = app_with(vec![
        ("a", task("one", at(2022, 7, 1, 0, 0, 0), at(2022, 7, 9, 0, 0, 0))),
        ("b", task("two", at(2022, 7, 2, 0, 0, 0), at(2022, 7, 9, 0, 0, 0))),
    ]);
    press(&mut app, Key::Down);
    assert_eq!(app.tasks.selected, Some(0));
    press(&mut app, Key::Down);
    assert_eq!(app.tasks.selected, Some(1));
    press(&mut app, Key::Down);
    assert_eq!(app.tasks.selected, Some(0));
    press(&mut app, Key::Up);
    assert_eq!(app.tasks.selected, Some(1));
    press(&mut app, Key::Up);
    assert_eq!(app.tasks.selected, Some(0));
}

#[test]
fn escape_in_the_list_leaves() {
    let mut app = one_task();
    assert_eq!(app.event_at(Key::Esc, &now(), None), Err(ExitApp));
    assert_eq!(app.mode, WindowMode::List);
    assert_eq!(ExitApp.message(), "");
}

#[test]
fn stats_window_opens_and_closes() {
    let mut app = one_task();
    press(&mut app, Key::Char('s'));
    assert_eq!(app.mode, WindowMode::Stats);
    press(&mut app, Key::Char('x'));
    press(&mut app, Key::Enter);
    assert_eq!(app.mode, WindowMode::Stats);
    press(&mut app, Key::Esc);
    assert_eq!(app.mode, WindowMode::List);
}

#[test]
fn keys_without_a_meaning_do_nothing() {
    let mut app = one_task();
    for key in [Key::Other, Key::Backspace, Key::Char('x'), Key::Char('N')] {
        assert_eq!(press(&mut app, key), nothing());
        assert_eq!(app.mode, WindowMode::List);
        assert_eq!(app.tasks.selected, Some(0));
    }
}

#[test]
fn enter_opens_the_selected_task() {
    let mut described = task("one", at(2022, 7, 1, 0, 0, 0), at(2022, 7, 9, 0, 0, 0));
    described.description = "first line\nsecond".to_string();
    let mut app = app_with(vec![("a", described)]);
    press(&mut app, Key::Down);
    press(&mut app, Key::Enter);
    assert_eq!(app.mode, WindowMode::Task(EditMode::View));
    assert_eq!((app.cursor_pos_x, app.cursor_pos_y), (6, 1));
    press(&mut app, Key::Char('t'));
    assert_eq!(app.mode, WindowMode::Task(EditMode::Edit(EditState::Title)));
    press(&mut app, Key::Esc);
    press(&mut app, Key::Char('e'));
    assert_eq!(app.mode, WindowMode::Task(EditMode::Edit(EditState::Task)));
    press(&mut app, Key::Esc);
    press(&mut app, Key::Char('p'));
    assert_eq!(app.mode, WindowMode::Preferences(false));
    press(&mut app, Key::Esc);
    assert_eq!(app.mode, WindowMode::Task(EditMode::View));
    press(&mut app, Key::Esc);
    assert_eq!(app.mode, WindowMode::List);
}

#[test]
fn saving_without_a_title_is_refused() {
    let mut app = one_task();
    press(&mut app, Key::Enter);
    press(&mut app, Key::Char('t'));
    for _ in 0..3 {
        press(&mut app, Key::Backspace);
    }
    assert_eq!(app.tasks.items[0].1.title, "");
    press(&mut app, Key::Backspace);
    press(&mut app, Key::Esc);
    assert_eq!(press(&mut app, Key::Char('s')), nothing());
    assert_eq!(app.mode, WindowMode::Task(EditMode::View));
    assert_eq!(app.database.get("a").unwrap().title, "one");
}

#[test]
fn edits_reach_the_keyspace_when_saved() {
    let mut app = one_task();
    press(&mut app, Key::Enter);
    press(&mut app, Key::Char('t'));
    type_text(&mut app, " more");
    assert_eq!(app.tasks.items[0].1.title, "one more");
    assert_eq!(app.database.get("a").unwrap().title, "one");
    press(&mut app, Key::Esc);
    assert_eq!(press(&mut app, Key::Char('s')), stored("a"));
    assert_eq!(app.database.get("a").unwrap().title, "one more");
    assert_eq!(app.mode, WindowMode::List);
}

#[test]
fn title_never_grows_beyond_the_display() {
    let mut app = one_task();
    app.width = 10;
    press(&mut app, Key::Enter);
    press(&mut app, Key::Char('t'));
    type_text(&mut app, "abcdefghijklmnop");
    assert_eq!(app.tasks.items[0].1.title, "oneabcd");
    press(&mut app, Key::Backspace);
    type_text(&mut app, "你");
    assert_eq!(app.tasks.items[0].1.title, "oneabc");
    type_text(&mut app, "x");
    assert_eq!(app.tasks.items[0].1.title, "oneabcx");
}

#[test]
fn description_breaks_the_line_at_the_edge() {
    let mut app = one_task();
    app.width = 8;
    press(&mut app, Key::Enter);
    press(&mut app, Key::Char('e'));
    type_text(&mut app, "abcdefgh");
    assert_eq!(app.tasks.items[0].1.description, "abcdef\ngh");
    assert_eq!((app.cursor_pos_x, app.cursor_pos_y), (2, 1));
    press(&mut app, Key::Enter);
    assert_eq!(app.tasks.items[0].1.description, "abcdef\ngh\n");
    assert_eq!((app.cursor_pos_x, app.cursor_pos_y), (0, 2));
    type_text(&mut app, "i");
    assert_eq!((app.cursor_pos_x, app.cursor_pos_y), (1, 2));
}

#[test]
fn backspace_at_the_start_of_a_line_joins_it_to_the_one_before() {
    let mut app = one_task();
    press(&mut app, Key::Enter);
    press(&mut app, Key::Char('e'));
    type_text(&mut app, "ab");
    press(&mut app, Key::Enter);
    type_text(&mut app, "c");
    assert_eq!(app.tasks.items[0].1.description, "ab\nc");
    press(&mut app, Key::Backspace);
    assert_eq!(app.tasks.items[0].1.description, "ab\n");
    assert_eq!((app.cursor_pos_x, app.cursor_pos_y), (0, 1));
    press(&mut app, Key::Backspace);
    assert_eq!(app.tasks.items[0].1.description, "a");
    assert_eq!((app.cursor_pos_x, app.cursor_pos_y), (1, 0));
    press(&mut app, Key::Backspace);
    assert_eq!(app.tasks.items[0].1.description, "");
    press(&mut app, Key::Backspace);
    assert_eq!(app.tasks.items[0].1.description, "");
    assert_eq!((app.cursor_pos_x, app.cursor_pos_y), (0, 0));
}

fn preferences_of(app: &App) -> Preferences {
    app.tasks.items[0].1.preferences
}

fn open_preferences() -> App {
    let mut app = one_task();
    press(&mut app, Key::Enter);
    press(&mut app, Key::Char('p'));
    app
}

#[test]
fn repeat_flag_is_switched_at_once() {
    let mut app = open_preferences();
    press(&mut app, Key::Char('e'));
    assert!(!preferences_of(&app).daily_repeat);
    press(&mut app, Key::Down);
    assert_eq!(app.preferences.selected, Some(0));
    press(&mut app, Key::Char('e'));
    assert!(preferences_of(&app).daily_repeat);
    assert_eq!(app.mode, WindowMode::Preferences(false));
    press(&mut app, Key::Char('e'));
    assert!(!preferences_of(&app).daily_repeat);
}

#[test]
fn input_that_is_no_date_stays_in_the_buffer() {
    let mut app = open_preferences();
    press(&mut app, Key::Down);
    press(&mut app, Key::Down);
    assert_eq!(app.preferences.selected, Some(1));
    press(&mut app, Key::Char('e'));
    assert_eq!(app.mode, WindowMode::Preferences(true));
    assert_eq!(app.preferences_input, "");
    type_text(&mut app, "not-a-date");
    let before = preferences_of(&app);
    assert_eq!(press(&mut app, Key::Enter), nothing());
    assert_eq!(app.preferences_input, "not-a-date");
    assert_eq!(app.mode, WindowMode::Preferences(true));
    assert_eq!(preferences_of(&app), before);
}

#[test]
fn input_that_is_a_date_sets_the_expiry() {
    let mut app = open_preferences();
    press(&mut app, Key::Down);
    press(&mut app, Key::Down);
    press(&mut app, Key::Char('e'));
    type_text(&mut app, "2030-01-02 03:04:05");
    press(&mut app, Key::Enter);
    assert_eq!(app.mode, WindowMode::Preferences(false));
    assert_eq!(app.preferences_input, "");
    assert_eq!(preferences_of(&app).expire, at(2030, 1, 2, 3, 4, 5));
    assert_eq!(app.database.get("a").unwrap().preferences.expire, at(2022, 7, 9, 0, 0, 0));
    press(&mut app, Key::Esc);
    assert_eq!(press(&mut app, Key::Char('s')), stored("a"));
    assert_eq!(app.database.get("a").unwrap().preferences.expire, at(2030, 1, 2, 3, 4, 5));
}

#[test]
fn dates_that_do_not_exist_are_refused() {
    for text in ["2030-02-30 00:00:00", "2030-01-02", "2030-01-02 25:00:00", "", "2030-13-01 00:00:00"] {
        let mut app = open_preferences();
        press(&mut app, Key::Down);
        press(&mut app, Key::Down);
        press(&mut app, Key::Char('e'));
        type_text(&mut app, text);
        press(&mut app, Key::Enter);
        assert_eq!(app.mode, WindowMode::Preferences(true), "{:?}", text);
        assert_eq!(app.preferences_input, text);
        assert_eq!(preferences_of(&app).expire, at(2022, 7, 9, 0, 0, 0));
    }
}

#[test]
fn input_that_is_a_number_sets_the_reward() {
    let mut app = open_preferences();
    press(&mut app, Key::Up);
    press(&mut app, Key::Up);
    assert_eq!(app.preferences.selected, Some(2));
    press(&mut app, Key::Char('e'));
    type_text(&mut app, "4x");
    press(&mut app, Key::Enter);
    assert_eq!(app.mode, WindowMode::Preferences(true));
    assert_eq!(preferences_of(&app).exp, 25);
    press(&mut app, Key::Backspace);
    type_text(&mut app, "0");
    assert_eq!(app.preferences_input, "40");
    press(&mut app, Key::Enter);
    assert_eq!(app.mode, WindowMode::Preferences(false));
    assert_eq!(app.preferences_input, "");
    assert_eq!(preferences_of(&app).exp, 40);
}

#[test]
fn escape_gives_the_input_up() {
    let mut app = open_preferences();
    press(&mut app, Key::Down);
    press(&mut app, Key::Down);
    press(&mut app, Key::Char('e'));
    type_text(&mut app, "2030");
    press(&mut app, Key::Esc);
    assert_eq!(app.mode, WindowMode::Preferences(false));
    assert_eq!(app.preferences_input, "");
    press(&mut app, Key::Char('e'));
    assert_eq!(app.preferences_input, "");
    type_text(&mut app, "x");
    press(&mut app, Key::Esc);
    press(&mut app, Key::Esc);
    assert_eq!(app.mode, WindowMode::Task(EditMode::View));
    assert_eq!(app.preferences_input, "");
}

#[test]
fn preference_input_stops_at_the_width() {
    let mut app = open_preferences();
    app.width = 7;
    press(&mut app, Key::Down);
    press(&mut app, Key::Down);
    press(&mut app, Key::Down);
    assert_eq!(app.preferences.selected, Some(2));
    press(&mut app, Key::Char('e'));
    type_text(&mut app, "123456");
    assert_eq!(app.preferences_input, "1234");
}

#[test]
fn editing_a_preference_needs_a_selection() {
    let mut app = open_preferences();
    press(&mut app, Key::Char('e'));
    assert_eq!(app.mode, WindowMode::Preferences(false));
    assert_eq!(preferences_of(&app), Preferences { daily_repeat: false, expire: at(2022, 7, 9, 0, 0, 0), exp: 25 });
}

#[test]
fn window_mode_starts_with_the_list() {
    assert_eq!(WindowMode::default(), WindowMode::List);
    let app = App::new(Database::new());
    assert_eq!(app.mode, WindowMode::List);
    assert_eq!(app.tasks.selected, None);
    assert_eq!(app.preferences.items.len(), 3);
    assert_eq!(app.width, 0);
}

#[test]
fn description_typed_breaks_by_the_width_given() {
    let mut app = one_task();
    app.width = 8;
    app.mode = WindowMode::Task(EditMode::Edit(EditState::Task));
    app.description_typed('x', 4);
    assert_eq!(app.tasks.items[0].1.description, "x");
    assert_eq!(app.cursor_pos_y, 0);
    app.description_typed('y', 5);
    assert_eq!(app.tasks.items[0].1.description, "xy\n");
    assert_eq!(app.cursor_pos_y, 1);
    app.description_typed('z', 6);
    assert_eq!(app.tasks.items[0].1.description, "xy\nz\n");
    assert_eq!(app.cursor_pos_y, 2);
    assert_eq!(app.cursor_pos_x, 0);
    app.cursor_pos_y = u16::MAX;
    app.description_typed('w', 100);
    assert_eq!(app.cursor_pos_y, u16::MAX);
}

#[test]
fn description_erased_joins_lines_by_the_width_given() {
    let mut app = one_task();
    app.tasks.items[0].1.description = "ab\ncd".to_string();
    app.cursor_pos_y = 1;
    app.description_erased(2);
    assert_eq!(app.tasks.items[0].1.description, "ab\nc");
    assert_eq!(app.cursor_pos_y, 1);
    app.description_erased(0);
    assert_eq!(app.tasks.items[0].1.description, "ab");
    assert_eq!(app.cursor_pos_y, 0);
    app.description_erased(0);
    assert_eq!(app.tasks.items[0].1.description, "");
    assert_eq!(app.cursor_pos_y, 0);
    app.description_erased(0);
    assert_eq!(app.tasks.items[0].1.description, "");
}

#[test]
fn open_task_at_puts_the_cursor_behind_the_description() {
    let mut app = one_task();
    app.tasks.items[0].1.description = "ab\ncd\nef".to_string();
    assert_eq!(app.line_width(), 2);
    app.open_task_at(7);
    assert_eq!(app.mode, WindowMode::Task(EditMode::View));
    assert_eq!((app.cursor_pos_x, app.cursor_pos_y), (7, 2));
    app.cursor_to_column(70000);
    assert_eq!((app.cursor_pos_x, app.cursor_pos_y), (65535, 2));
    app.cursor_to_column(3);
    assert_eq!((app.cursor_pos_x, app.cursor_pos_y), (3, 2));
}

#[test]
fn open_task_at_needs_a_selection() {
    let mut app = app_with(vec![("a", task("one", at(2022, 7, 1, 0, 0, 0), at(2022, 7, 9, 0, 0, 0)))]);
    assert_eq!(app.line_width(), 0);
    app.open_task_at(4);
    assert_eq!(app.mode, WindowMode::List);
    assert_eq!((app.cursor_pos_x, app.cursor_pos_y), (0, 0));
    app.description_typed('x', 0);
    app.description_erased(0);
    app.title_input('x');
    app.title_bs();
    assert_eq!(app.tasks.items[0].1.title, "one");
    assert_eq!(app.tasks.items[0].1.description, "");
}

#[test]
fn preferences_read_sets_what_was_read() {
    let mut app = open_preferences();
    app.mode = WindowMode::Preferences(true);
    app.preferences_input = "anything".to_string();
    app.preferences_read(None);
    assert_eq!(app.mode, WindowMode::Preferences(true));
    assert_eq!(app.preferences_input, "anything");
    let read = Preferences { daily_repeat: true, expire: at(2040, 5, 6, 7, 8, 9), exp: 99 };
    app.preferences_read(Some(read));
    assert_eq!(app.mode, WindowMode::Preferences(false));
    assert_eq!(app.preferences_input, "");
    assert_eq!(preferences_of(&app), read);
}

#[test]
fn backspace_can_leave_a_wider_title() {
    let mut app = one_task();
    app.width = 4;
    app.tasks.items[0].1.title = "\u{231A}\u{FE0E}".to_string();
    press(&mut app, Key::Enter);
    press(&mut app, Key::Char('t'));
    press(&mut app, Key::Backspace);
    assert_eq!(app.tasks.items[0].1.title, "\u{231A}");
    press(&mut app, Key::Char('a'));
    assert_eq!(app.tasks.items[0].1.title, "\u{231A}");
}
