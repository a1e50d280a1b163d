use coach::entry::{
    as_no_newlines, as_observation_name, promise_nonempty_note, Entry, Event, NoNewlines,
    Observation, Task,
};
use coach::files::{bounded_text, entry_from_bytes, LoadError};
use coach::grammar::ParseError;
use coach::parser::as_note;
use coach::salvage::{line_of, name_of, note_of};
use coach::tasks::index_of_number;
use coach::text::{chars_of, is_whitespace, string_of, stripped, trimmed, trimmed_start};
use coach::timestamp::{fits_brackets, reading_of, Reading, Timestamp};

fn words(s: &str) -> NoNewlines {
    as_no_newlines(String::from(s)).unwrap()
}

fn tasks_only(tasks: Vec<Task>) -> Entry {
    Entry {
        tasks,
        ..Entry::default()
    }
}

#[test]
fn default_entry_has_the_placeholder_label() {
    let e = Entry::default();
    assert_eq!("PLACEHOLDER", e.label.as_str());
    assert!(e.observations.is_empty() && e.tasks.is_empty());
    assert!(e.events.is_empty() && e.notes.is_empty());
    assert_eq!("", NoNewlines::default().as_str());
}

#[test]
fn live_tasks_are_todo_and_working() {
    assert!(Task::Todo(words("a")).is_live());
    assert!(Task::Working(words("a")).is_live());
    assert!(!Task::Done(words("a")).is_live());
    assert!(!Task::Cancelled(words("a")).is_live());
}

#[test]
fn tasks_are_shown_with_their_word() {
    assert_eq!("TODO take a break", Task::Todo(words("take a break")).to_string());
    assert_eq!("WORKING learn rust", Task::Working(words("learn rust")).to_string());
    assert_eq!("DONE pet the dog", Task::Done(words("pet the dog")).to_string());
    assert_eq!("CANCELLED x", Task::Cancelled(words("x")).to_string());
    assert_eq!("TODO ", Task::Todo(words("")).to_string());
}

#[test]
fn records_are_shown_as_in_the_text() {
    let o = Observation {
        name: as_observation_name(String::from("key")).unwrap(),
        value: words("a value"),
    };
    assert_eq!("key: a value", o.to_string());
    let e = Event {
        when: Timestamp::new(2021, 10, 31, 21, 0).unwrap(),
        text: words("late one night"),
    };
    assert_eq!("<2021-10-31 Sun 21:00> late one night", e.to_string());
    assert_eq!("n\nm", as_note(String::from("n\nm")).unwrap().to_string());
    assert_eq!("w", words("w").to_string());
    assert_eq!("key", o.name.to_string());
}

#[test]
fn the_message_of_a_task_can_be_changed_in_place() {
    let mut t = Task::Working(words("old"));
    *t.message() = words("new");
    assert_eq!(Task::Working(words("new")), t);
    assert_eq!("new", t.text().as_str());
}

#[test]
fn updating_a_task_keeps_its_message() {
    let mut e = tasks_only(vec![
        Task::Todo(words("a")),
        Task::Todo(words("x")),
        Task::Done(words("c")),
    ]);
    e.update_task(1, Task::Done);
    assert_eq!(
        vec![
            Task::Todo(words("a")),
            Task::Done(words("x")),
            Task::Done(words("c"))
        ],
        e.tasks
    );
    e.update_task(2, |m| Task::Cancelled(words(&format!("{}!", m.as_str()))));
    assert_eq!(Task::Cancelled(words("c!")), e.tasks[2]);
    assert_eq!("PLACEHOLDER", e.label.as_str());
}

#[test]
fn adding_appends() {
    let mut e = Entry::default();
    e.add_task(words("second thoughts"));
    e.add_task(words("first"));
    e.add_observation(as_observation_name(String::from("k")).unwrap(), words("v"));
    e.add_event(Timestamp::new(2020, 2, 29, 0, 0).unwrap(), words("leap"));
    e.add_note(as_note(String::from("n")).unwrap());
    e.add_note(promise_nonempty_note(String::from("m")));
    assert_eq!(
        vec![Task::Todo(words("second thoughts")), Task::Todo(words("first"))],
        e.tasks
    );
    assert_eq!(
        "#coach\nPLACEHOLDER\nk: v\n\nTODO second thoughts\nTODO first\n\n* <2020-02-29 Sat 00:00> leap\n\nn\n\nm\n\n",
        e.to_string()
    );
}

#[test]
fn sorting_goes_by_state_then_by_message() {
    let mut e = tasks_only(vec![
        Task::Cancelled(words("a")),
        Task::Done(words("b")),
        Task::Working(words("z")),
        Task::Todo(words("b")),
        Task::Working(words("")),
        Task::Todo(words("ab")),
        Task::Todo(words("a")),
        Task::Done(words("B")),
        Task::Todo(words("\u{e9}")),
        Task::Todo(words("z")),
    ]);
    e.sort_tasks();
    assert_eq!(
        vec![
            Task::Todo(words("a")),
            Task::Todo(words("ab")),
            Task::Todo(words("b")),
            Task::Todo(words("z")),
            Task::Todo(words("\u{e9}")),
            Task::Working(words("")),
            Task::Working(words("z")),
            Task::Done(words("B")),
            Task::Done(words("b")),
            Task::Cancelled(words("a")),
        ],
        e.tasks
    );
    let mut by_std = vec![
        Task::Cancelled(words("a")),
        Task::Todo(words("b")),
        Task::Working(words("z")),
        Task::Done(words("b")),
        Task::Todo(words("\u{1f600}")),
        Task::Todo(words("\u{ffff}")),
    ];
    let mut ours = tasks_only(vec![
        Task::Cancelled(words("a")),
        Task::Todo(words("b")),
        Task::Working(words("z")),
        Task::Done(words("b")),
        Task::Todo(words("\u{1f600}")),
        Task::Todo(words("\u{ffff}")),
    ]);
    by_std.sort();
    ours.sort_tasks();
    assert_eq!(by_std, ours.tasks);
}

#[test]
fn the_order_of_tasks() {
    assert!(Task::Todo(words("z")).at_most(&Task::Working(words("a"))));
    assert!(!Task::Working(words("a")).at_most(&Task::Todo(words("z"))));
    assert!(Task::Done(words("a")).at_most(&Task::Done(words("a"))));
    assert!(Task::Done(words("a")).at_most(&Task::Done(words("ab"))));
    assert!(!Task::Done(words("ab")).at_most(&Task::Done(words("a"))));
    assert!(Task::Done(words("ab")).at_most(&Task::Cancelled(words("a"))));
}

#[test]
fn live_tasks_move_on_and_settled_ones_stay() {
    let mut e = tasks_only(vec![
        Task::Done(words("1")),
        Task::Todo(words("2")),
        Task::Cancelled(words("3")),
        Task::Working(words("4")),
        Task::Todo(words("5")),
    ]);
    let live = e.take_live_tasks();
    assert_eq!(
        vec![
            Task::Todo(words("2")),
            Task::Working(words("4")),
            Task::Todo(words("5"))
        ],
        live
    );
    assert_eq!(
        vec![Task::Done(words("1")), Task::Cancelled(words("3"))],
        e.tasks
    );
}

#[test]
fn tasks_are_numbered_from_one() {
    assert_eq!(None, index_of_number(0));
    assert_eq!(Some(0), index_of_number(1));
    assert_eq!(Some(41), index_of_number(42));
    assert_eq!(Some(usize::MAX - 1), index_of_number(usize::MAX));
}

#[test]
fn timestamps_are_dates_and_times_that_exist() {
    assert!(Timestamp::new(2021, 10, 31, 21, 10).is_some());
    assert!(Timestamp::new(2020, 2, 29, 0, 0).is_some());
    assert!(Timestamp::new(2021, 2, 29, 0, 0).is_none());
    assert!(Timestamp::new(2021, 2, 30, 0, 0).is_none());
    assert!(Timestamp::new(2021, 13, 1, 0, 0).is_none());
    assert!(Timestamp::new(2021, 0, 1, 0, 0).is_none());
    assert!(Timestamp::new(2021, 1, 0, 0, 0).is_none());
    assert!(Timestamp::new(2021, 1, 1, 24, 0).is_none());
    assert!(Timestamp::new(2021, 1, 1, 0, 60).is_none());
    assert!(Timestamp::new(0, 1, 1, 0, 0).is_some());
    assert!(Timestamp::new(9999, 12, 31, 23, 59).is_some());
}

#[test]
fn timestamps_are_written_to_the_minute() {
    assert_eq!(
        "2021-10-31 Sun 21:10",
        Timestamp::new(2021, 10, 31, 21, 10).unwrap().to_string()
    );
    assert_eq!(
        "2021-11-01 Mon 00:05",
        Timestamp::new(2021, 11, 1, 0, 5).unwrap().to_string()
    );
    assert_eq!(
        "0987-01-02 Tue 03:04",
        Timestamp::new(987, 1, 2, 3, 4).unwrap().to_string()
    );
}

#[test]
fn timestamps_are_read_from_their_written_form() {
    let t = Timestamp::parse("2021-10-31 Sun 21:10").unwrap();
    assert_eq!(
        (2021, 10, 31, 21, 10),
        (t.year(), t.month(), t.day(), t.hour(), t.minute())
    );
    assert_eq!(
        Timestamp::new(2021, 10, 31, 21, 10),
        Timestamp::parse(" \t2021-10-31 Sun 21:10\u{a0}")
    );
    assert_eq!(
        Timestamp::new(1999, 12, 31, 23, 59),
        Timestamp::from_chars(&chars_of("1999-12-31 Fri 23:59"))
    );
    assert!(Timestamp::parse("2021-10-31 21:10").is_none());
    assert!(Timestamp::parse("2021-10-31 Sun 21:10:00").is_none());
    assert!(Timestamp::parse("2021-10-31 Sun 25:10").is_none());
    assert!(Timestamp::parse("2021-10-32 Sun 21:10").is_none());
    assert!(Timestamp::parse("").is_none());
    assert!(Timestamp::parse("2021-10-31 Sun 21:10 x").is_none());
}

#[test]
fn every_written_timestamp_reads_back() {
    for (y, mo, d, h, mi) in [
        (2021, 10, 31, 21, 10),
        (1970, 1, 1, 0, 0),
        (2038, 1, 19, 3, 14),
        (2000, 2, 29, 12, 30),
        (1, 1, 1, 1, 1),
    ] {
        let t = Timestamp::new(y, mo, d, h, mi).unwrap();
        assert_eq!(Some(t), Timestamp::parse(&t.to_string()));
    }
}

#[test]
fn white_space_is_what_std_calls_white_space() {
    for n in 0..=0x10ffffu32 {
        if let Some(c) = char::from_u32(n) {
            assert_eq!(c.is_whitespace(), is_whitespace(c), "U+{:04X}", n);
        }
    }
}

#[test]
fn trimming_is_what_std_does() {
    for s in [
        "",
        " ",
        "  a b  ",
        "\t\na\u{3000}",
        "\u{a0}x\u{2003}y\u{85}",
        "no space",
        "\n\nlines\n\n",
    ] {
        let chars = chars_of(s);
        assert_eq!(s.chars().collect::<Vec<char>>(), chars);
        assert_eq!(s, string_of(&chars));
        assert_eq!(s.trim(), string_of(trimmed(&chars)));
        assert_eq!(s.trim_start(), string_of(trimmed_start(&chars)));
        assert_eq!(s.trim_matches('\n'), string_of(stripped(&chars, '\n')));
    }
}

#[test]
fn a_file_that_fills_the_buffer_is_too_long() {
    assert_eq!(Err(LoadError::TooLong), bounded_text(b"abcd", 4));
    assert_eq!(Err(LoadError::TooLong), bounded_text(b"abcd", 3));
    assert_eq!(Err(LoadError::TooLong), bounded_text(b"", 0));
    assert_eq!(Ok("abcd"), bounded_text(b"abcd", 5));
    assert_eq!(Ok(""), bounded_text(b"", 1));
    assert_eq!(Ok("caf\u{e9}"), bounded_text("caf\u{e9}".as_bytes(), 8192));
}

#[test]
fn bytes_that_are_no_text_are_refused() {
    assert_eq!(Err(LoadError::NotUtf8), bounded_text(&[0x66, 0xff, 0x66], 10));
    assert_eq!(Err(LoadError::NotUtf8), bounded_text(&[0xc3], 10));
    assert_eq!(Err(LoadError::TooLong), bounded_text(&[0xff, 0xff], 2));
}

#[test]
fn an_entry_comes_from_the_bytes_of_a_file() {
    let e = entry_from_bytes(b"#coach\nLabel\n\nTODO x\n", 8192).unwrap();
    assert_eq!("Label", e.label.as_str());
    assert_eq!(vec![Task::Todo(words("x"))], e.tasks);
    assert_eq!(
        Err(LoadError::Parse(ParseError::NoMagicNumber)),
        entry_from_bytes(b"Label\n\n", 8192)
    );
    assert_eq!(
        Err(LoadError::TooLong),
        entry_from_bytes(b"#coach\nLabel\n\n", 14)
    );
    assert_eq!(
        Err(LoadError::NotUtf8),
        entry_from_bytes(b"#coach\nLab\xffel\n\n", 8192)
    );
}

#[test]
fn the_first_line_of_any_text_is_a_line() {
    assert_eq!("ab", line_of("ab\ncd").as_str());
    assert_eq!("", line_of("\nab").as_str());
    assert_eq!("whole", line_of("whole").as_str());
    assert_eq!("", line_of("").as_str());
}

#[test]
fn the_head_of_any_text_may_be_a_name() {
    assert_eq!("key", name_of("key: value").unwrap().as_str());
    assert_eq!("key", name_of("key\n: value").unwrap().as_str());
    assert_eq!("a b", name_of("a b").unwrap().as_str());
    assert!(name_of(":x").is_none());
    assert!(name_of("\nx").is_none());
    assert!(name_of("").is_none());
}

#[test]
fn a_note_is_left_of_any_text() {
    assert_eq!("hello", note_of("hello\n\nworld").as_str());
    assert_eq!("hello\nworld", note_of("hello\nworld\n").as_str());
    assert_eq!("ODO x", note_of("TODO x\n\nrest").as_str());
    assert_eq!("x", note_of("\n\nrest").as_str());
    assert_eq!("y", note_of("\ny").as_str());
    assert_eq!("x", note_of("").as_str());
    assert_eq!(" ", note_of("* ").as_str());
    assert_eq!(" a", note_of("* a").as_str());
}

#[test]
fn a_written_time_must_fit_between_brackets() {
    assert!(fits_brackets(&chars_of("2021-10-31 Sun 21:10")));
    assert!(fits_brackets(&chars_of("")));
    assert!(fits_brackets(&chars_of("<")));
    assert!(!fits_brackets(&chars_of("2021>10")));
    assert!(!fits_brackets(&chars_of("2021\n10")));
    assert!(!fits_brackets(&chars_of(">")));
}

#[test]
fn seconds_are_let_go() {
    assert_eq!(
        Some(Reading {
            year: 2021,
            month: 10,
            day: 31,
            hour: 21,
            minute: 10
        }),
        reading_of(Some((2021, 10, 31, 21, 10, 59)))
    );
    assert_eq!(None, reading_of(None));
}
