use coach::entry::{
    as_no_newlines, as_observation_name, Entry, Event, NoNewlines, Note, Observation,
    ObservationName, Task,
};
use coach::parser::{as_note, parse};
use coach::timestamp::Timestamp;

fn line(s: &str) -> NoNewlines {
    as_no_newlines(String::from(s)).unwrap()
}

fn name(s: &str) -> ObservationName {
    as_observation_name(String::from(s)).unwrap()
}

fn note(s: &str) -> Note {
    as_note(String::from(s)).unwrap()
}

fn at(year: i32, month: u8, day: u8, hour: u8, minute: u8) -> Timestamp {
    Timestamp::new(year, month, day, hour, minute).unwrap()
}

#[test]
fn test_empty_entry_to_string() {
    let e = Entry {
        label: line("Test"),
        observations: vec![],
        tasks: vec![],
        events: vec![],
        notes: vec![],
    };

    assert_eq!("#coach\nTest\n\n", e.to_string())
}

#[test]
fn test_entry_observations_to_string() {
    let e = Entry {
        label: line("Test"),
        observations: vec![
            Observation {
                name: name("key"),
                value: line("value1"),
            },
            Observation {
                name: name("key"),
                value: line("value2"),
            },
        ],
        tasks: vec![],
        events: vec![],
        notes: vec![],
    };

    assert_eq!("#coach\nTest\nkey: value1\nkey: value2\n\n", e.to_string())
}

#[test]
fn test_entry_tasks_to_string() {
    let e = Entry {
        label: line("Test"),
        observations: vec![],
        tasks: vec![
            Task::Todo(line("take a break")),
            Task::Working(line("learn rust")),
            Task::Done(line("pet the dog")),
            Task::Cancelled(line("teach the dog rust")),
        ],
        events: vec![],
        notes: vec![],
    };

    assert_eq!(
        "#coach
Test

TODO take a break
WORKING learn rust
DONE pet the dog
CANCELLED teach the dog rust

",
        e.to_string()
    )
}

#[test]
fn test_entry_events_to_string() {
    let e = Entry {
        label: line("Test"),
        observations: vec![],
        tasks: vec![],
        events: vec![
            Event {
                when: at(2021, 10, 31, 21, 00),
                text: line("working in the lab late one night"),
            },
            Event {
                when: at(2021, 10, 31, 22, 10),
                text: line("my eyes beheld an eerie sight"),
            },
        ],
        notes: vec![],
    };

    assert_eq!(
        "#coach
Test

* <2021-10-31 Sun 21:00> working in the lab late one night
* <2021-10-31 Sun 22:10> my eyes beheld an eerie sight

",
        e.to_string()
    )
}

#[test]
fn test_entry_notes_to_string() {
    let e = Entry {
        label: line("Test"),
        observations: vec![],
        tasks: vec![],
        events: vec![],
        notes: vec![
            note("dogs can't type"),
            note("It's a good thing\nthe dog learned graffiti\nfrom her palm pilot"),
        ],
    };

    assert_eq!(
        "#coach
Test

dogs can't type

It's a good thing
the dog learned graffiti
from her palm pilot

",
        e.to_string()
    )
}

const MESSAGE: &str = "#coach
Test
key: value1
key: value2

TODO take a break
WORKING learn rust
DONE pet the dog
CANCELLED teach the dog rust

* <2021-10-31 Sun 21:10> working in the lab late one night
* <2021-10-31 Sun 22:10> my eyes beheld an eerie sight

This is note one

And this is note two,
it is multiline

";

#[test]
fn test_parse_label() {
    let e = parse(MESSAGE).unwrap();
    assert_eq!(line("Test"), e.label);
}

#[test]
fn test_parse_tasks() {
    let e = parse(MESSAGE).unwrap();
    assert_eq!(
        vec![
            Task::Todo(line("take a break")),
            Task::Working(line("learn rust")),
            Task::Done(line("pet the dog")),
            Task::Cancelled(line("teach the dog rust")),
        ],
        e.tasks
    );
}

#[test]
fn test_parse_events() {
    let e = parse(MESSAGE).unwrap();
    assert_eq!(
        vec![
            Event {
                when: at(2021, 10, 31, 21, 10),
                text: line("working in the lab late one night"),
            },
            Event {
                when: at(2021, 10, 31, 22, 10),
                text: line("my eyes beheld an eerie sight"),
            },
        ],
        e.events
    )
}

#[test]
fn test_parse_notes() {
    let e = parse(MESSAGE).unwrap();
    assert_eq!(
        vec![
            note("This is note one"),
            note("And this is note two,\nit is multiline"),
        ],
        e.notes
    );
}

#[test]
fn test_parse_just_label() {
    let e = parse("#coach\nLabel\n\n").unwrap();
    let expect = Entry {
        label: line("Label"),
        ..Entry::default()
    };
    assert_eq!(expect, e);
}

#[test]
fn test_display_pure_label() {
    let e = Entry {
        label: line("Label"),
        ..Entry::default()
    };
    assert_eq!("#coach\nLabel\n\n", e.to_string());
}

#[test]
fn test_parse_no_terminator() {
    let s = "#coach\nLabel\n\nNo terminator";
    let _ = parse(s).unwrap();
}

#[test]
fn test_roundtrips() {
    let source = Entry {
        label: line("Test"),
        observations: vec![],
        tasks: vec![Task::Working(line("Task"))],
        events: vec![],
        notes: vec![],
    };
    let stringed = source.to_string();
    let dest = parse(&stringed).unwrap();
    assert_eq!(source, dest);
}
