use coach::entry::{
    as_no_newlines, as_observation_name, Entry, Event, NoNewlines, Observation, Task,
};
use coach::grammar::ParseError;
use coach::parser::{as_note, event_parts, notes_from, parse, parse_unmarked, EventLine};
use coach::text::chars_of;
use coach::timestamp::Timestamp;

fn text(s: &str) -> NoNewlines {
    as_no_newlines(String::from(s)).unwrap()
}

fn bare(label: &str) -> Entry {
    Entry {
        label: text(label),
        ..Entry::default()
    }
}

fn full_entry() -> Entry {
    Entry {
        label: text("2021-10-31"),
        observations: vec![
            Observation {
                name: as_observation_name(String::from("weather")).unwrap(),
                value: text("bright: and sunny"),
            },
            Observation {
                name: as_observation_name(String::from("mood")).unwrap(),
                value: text(""),
            },
        ],
        tasks: vec![
            Task::Todo(text("take a break")),
            Task::Working(text("")),
            Task::Done(text("TODO nested word")),
            Task::Cancelled(text("teach the dog rust")),
        ],
        events: vec![
            Event {
                when: Timestamp::new(2021, 10, 31, 21, 10).unwrap(),
                text: text("in the lab > late"),
            },
            Event {
                when: Timestamp::new(1999, 12, 31, 23, 59).unwrap(),
                text: text(""),
            },
        ],
        notes: vec![
            as_note(String::from("one line")).unwrap(),
            as_note(String::from("two lines\nTODO not a task here")).unwrap(),
        ],
    }
}

#[test]
fn round_trip_of_a_full_entry() {
    let source = full_entry();
    let written = source.to_string();
    assert_eq!(
        "#coach\n2021-10-31\nweather: bright: and sunny\nmood: \n\nTODO take a break\nWORKING \nDONE TODO nested word\nCANCELLED teach the dog rust\n\n* <2021-10-31 Sun 21:10> in the lab > late\n* <1999-12-31 Fri 23:59> \n\none line\n\ntwo lines\nTODO not a task here\n\n",
        written
    );
    assert_eq!(Ok(source), parse(&written));
}

#[test]
fn round_trip_without_the_magic_line() {
    let source = full_entry();
    let written = source.to_unmarked_string();
    assert!(written.starts_with("2021-10-31\nweather"));
    assert_eq!(Ok(source), parse_unmarked(&written));
}

#[test]
fn round_trip_with_only_notes() {
    let mut source = bare("L");
    source.notes.push(as_note(String::from("a\nb")).unwrap());
    source.notes.push(as_note(String::from("c")).unwrap());
    assert_eq!("#coach\nL\n\na\nb\n\nc\n\n", source.to_string());
    assert_eq!(Ok(source), parse("#coach\nL\n\na\nb\n\nc\n\n"));
}

#[test]
fn an_empty_label_does_not_read_back() {
    let source = bare("");
    assert_eq!("#coach\n\n\n", source.to_string());
    assert_eq!(Err(ParseError::EmptyLabel), parse(&source.to_string()));
}

#[test]
fn white_space_before_an_event_text_does_not_read_back() {
    let mut source = bare("L");
    source.events.push(Event {
        when: Timestamp::new(2021, 10, 31, 21, 10).unwrap(),
        text: text(" \tx"),
    });
    let back = parse(&source.to_string()).unwrap();
    assert_eq!(text("x"), back.events[0].text);
    assert_eq!(source.events[0].when, back.events[0].when);
}

#[test]
fn writing_twice_gives_the_same_text() {
    let e = full_entry();
    assert_eq!(e.to_string(), e.to_string());
    assert_eq!(e.to_string().as_bytes(), full_entry().to_string().as_bytes());
}

#[test]
fn no_newlines_accepts_exactly_strings_without_newline() {
    assert!(as_no_newlines(String::from("")).is_some());
    assert!(as_no_newlines(String::from("a: b TODO * <x>")).is_some());
    assert!(as_no_newlines(String::from("a\nb")).is_none());
    assert!(as_no_newlines(String::from("\n")).is_none());
    assert!(as_no_newlines(String::from("ab\n")).is_none());
    assert_eq!("a b", as_no_newlines(String::from("a b")).unwrap().as_str());
}

#[test]
fn observation_name_accepts_exactly_names() {
    assert!(as_observation_name(String::from("key")).is_some());
    assert!(as_observation_name(String::from("a key")).is_some());
    assert!(as_observation_name(String::from("")).is_none());
    assert!(as_observation_name(String::from("a:b")).is_none());
    assert!(as_observation_name(String::from(":")).is_none());
    assert!(as_observation_name(String::from("a\nb")).is_none());
    assert_eq!(
        "key",
        as_observation_name(String::from("key")).unwrap().as_str()
    );
}

#[test]
fn note_accepts_exactly_notes() {
    assert!(as_note(String::from("a note")).is_some());
    assert!(as_note(String::from("a note\nof two lines")).is_some());
    assert!(as_note(String::from("first\nTODO second")).is_some());
    assert!(as_note(String::from("TODO")).is_some());
    assert!(as_note(String::from("*")).is_some());
    assert!(as_note(String::from("*x")).is_some());
    assert!(as_note(String::from("")).is_none());
    assert!(as_note(String::from("\nx")).is_none());
    assert!(as_note(String::from("x\n")).is_none());
    assert!(as_note(String::from("a\n\nb")).is_none());
    assert!(as_note(String::from("TODO x")).is_none());
    assert!(as_note(String::from("TODO ")).is_none());
    assert!(as_note(String::from("WORKING x")).is_none());
    assert!(as_note(String::from("DONE x")).is_none());
    assert!(as_note(String::from("CANCELLED x\nmore")).is_none());
    assert!(as_note(String::from("* <2021-10-31 Sun 21:10> x")).is_none());
    assert!(as_note(String::from("* no time")).is_none());
    assert_eq!("a\nb", as_note(String::from("a\nb")).unwrap().as_str());
}

#[test]
fn a_task_word_makes_a_task_never_a_note() {
    let e = parse("#coach\nL\n\nTODO x\n").unwrap();
    assert_eq!(vec![Task::Todo(text("x"))], e.tasks);
    assert!(e.notes.is_empty());
    assert!(e.events.is_empty());
    let e = parse("#coach\nL\n\nsome note\n\nTODO x\n\nanother\n").unwrap();
    assert_eq!(vec![Task::Todo(text("x"))], e.tasks);
    assert_eq!(2, e.notes.len());
}

#[test]
fn a_task_word_inside_a_note_stays_in_the_note() {
    let e = parse("#coach\nL\n\nsome note\nTODO x\n").unwrap();
    assert!(e.tasks.is_empty());
    assert_eq!("some note\nTODO x", e.notes[0].as_str());
}

#[test]
fn unterminated_task_is_read() {
    let e = parse_unmarked("Label\n\nTODO x").unwrap();
    assert_eq!(text("Label"), e.label);
    assert_eq!(vec![Task::Todo(text("x"))], e.tasks);
    let e = parse("#coach\nLabel\n\nTODO x").unwrap();
    assert_eq!(vec![Task::Todo(text("x"))], e.tasks);
}

#[test]
fn unterminated_event_and_note_are_read() {
    let e = parse("#coach\nL\n\n* <2021-10-31 Sun 21:10> late").unwrap();
    assert_eq!(text("late"), e.events[0].text);
    let e = parse("#coach\nL\n\nlast words").unwrap();
    assert_eq!("last words", e.notes[0].as_str());
}

#[test]
fn a_note_at_the_end_loses_its_last_newline() {
    let e = parse("#coach\nL\n\nnote\n").unwrap();
    assert_eq!("note", e.notes[0].as_str());
    let e = parse("#coach\nL\n\nline one\nline two\n").unwrap();
    assert_eq!("line one\nline two", e.notes[0].as_str());
}

#[test]
fn minimal_entry() {
    let e = parse_unmarked("Label\n\n").unwrap();
    assert_eq!(bare("Label"), e);
    assert!(e.observations.is_empty());
    assert!(e.tasks.is_empty());
    assert!(e.events.is_empty());
    assert!(e.notes.is_empty());
    assert_eq!("Label\n\n", e.to_unmarked_string());
    assert_eq!("#coach\nLabel\n\n", e.to_string());
}

#[test]
fn mixed_body() {
    let input = "Test\nkey: value1\n\nTODO take a break\nDONE pet the dog\n\n* <2021-10-31 Sun 21:10> in the lab\nFirst note\n\nSecond note\n\n";
    let e = parse_unmarked(input).unwrap();
    assert_eq!(text("Test"), e.label);
    assert_eq!(1, e.observations.len());
    assert_eq!("key", e.observations[0].name.as_str());
    assert_eq!("value1", e.observations[0].value.as_str());
    assert_eq!(
        vec![
            Task::Todo(text("take a break")),
            Task::Done(text("pet the dog"))
        ],
        e.tasks
    );
    assert_eq!(
        vec![Event {
            when: Timestamp::new(2021, 10, 31, 21, 10).unwrap(),
            text: text("in the lab"),
        }],
        e.events
    );
    assert_eq!(2, e.notes.len());
    assert_eq!("First note", e.notes[0].as_str());
    assert_eq!("Second note", e.notes[1].as_str());
    assert_eq!(Ok(e), parse(&format!("#coach\n{}", input)));
}

#[test]
fn malformed_timestamp() {
    assert_eq!(
        Err(ParseError::MalformedTimestamp),
        parse("#coach\nL\n\n* <not-a-date> text\n")
    );
    assert_eq!(
        Err(ParseError::MalformedTimestamp),
        parse_unmarked("L\n\n* <not-a-date> text")
    );
    assert_eq!(
        Err(ParseError::MalformedTimestamp),
        parse("#coach\nL\n\n* <2021-10-31 Sun 21:10 text\n")
    );
    assert_eq!(
        Err(ParseError::MalformedTimestamp),
        parse("#coach\nL\n\n* <2021-02-30 Tue 21:10> text\n")
    );
    assert_eq!(
        Err(ParseError::MalformedTimestamp),
        parse("#coach\nL\n\n* <> text\n")
    );
}

#[test]
fn missing_observation_delimiter() {
    assert_eq!(
        Err(ParseError::ExpectedObservation),
        parse("#coach\nLabel\nnot an observation\n\n")
    );
    assert_eq!(
        Err(ParseError::ExpectedObservation),
        parse_unmarked("Label\nTODO x\n")
    );
    assert_eq!(
        Err(ParseError::ExpectedObservation),
        parse("#coach\nLabel\nkey:value\n\n")
    );
}

#[test]
fn an_observation_needs_a_name() {
    assert_eq!(
        Err(ParseError::ExpectedObservation),
        parse("#coach\nLabel\n: value\n\n")
    );
    assert_eq!(
        Err(ParseError::ExpectedObservation),
        parse("#coach\nLabel\na:b: value\n\n")
    );
}

#[test]
fn the_first_delimiter_parts_an_observation() {
    let e = parse("#coach\nL\nkey: a: b\n\n").unwrap();
    assert_eq!("key", e.observations[0].name.as_str());
    assert_eq!("a: b", e.observations[0].value.as_str());
}

#[test]
fn no_magic_number() {
    assert_eq!(Err(ParseError::NoMagicNumber), parse("Label\n\n"));
    assert_eq!(Err(ParseError::NoMagicNumber), parse(""));
    assert_eq!(Err(ParseError::NoMagicNumber), parse("#coach"));
    assert_eq!(Err(ParseError::NoMagicNumber), parse(" #coach\nL\n\n"));
}

#[test]
fn empty_label() {
    assert_eq!(Err(ParseError::EmptyLabel), parse("#coach\n\n"));
    assert_eq!(Err(ParseError::EmptyLabel), parse_unmarked("\nLabel\n"));
}

#[test]
fn missing_newline() {
    assert_eq!(Err(ParseError::MissingNewline), parse("#coach\nLabel"));
    assert_eq!(Err(ParseError::MissingNewline), parse("#coach\n"));
    assert_eq!(Err(ParseError::MissingNewline), parse_unmarked(""));
    assert_eq!(
        Err(ParseError::MissingNewline),
        parse("#coach\nLabel\nkey: value")
    );
}

#[test]
fn a_label_alone_is_an_entry() {
    assert_eq!(Ok(bare("Label")), parse("#coach\nLabel\n"));
}

#[test]
fn missing_timestamp() {
    assert_eq!(
        Err(ParseError::MissingTimestamp),
        parse("#coach\nL\n\n* no time\n")
    );
    assert_eq!(Err(ParseError::MissingTimestamp), parse("#coach\nL\n\n* "));
}

#[test]
fn a_star_without_a_blank_begins_a_note() {
    let e = parse("#coach\nL\n\n*starred\n").unwrap();
    assert_eq!("*starred", e.notes[0].as_str());
}

#[test]
fn the_first_error_ends_reading() {
    assert_eq!(
        Err(ParseError::MissingTimestamp),
        parse("#coach\nL\n\n* first\n* <bad> second\n")
    );
    assert_eq!(
        Err(ParseError::MalformedTimestamp),
        parse("#coach\nL\n\n* <bad> first\n* second\n")
    );
}

#[test]
fn white_space_around_a_time_and_before_a_text_is_dropped() {
    let e = parse("#coach\nL\n\n* <  2021-10-31 Sun 21:10\t>  \t spaced \n").unwrap();
    assert_eq!(Timestamp::new(2021, 10, 31, 21, 10).unwrap(), e.events[0].when);
    assert_eq!(text("spaced "), e.events[0].text);
}

#[test]
fn blank_lines_in_the_body_count_for_nothing() {
    let e = parse("#coach\nL\n\n\n\nTODO a\n\n\n\nTODO b\nnote\n\n\n\n").unwrap();
    assert_eq!(vec![Task::Todo(text("a")), Task::Todo(text("b"))], e.tasks);
    assert_eq!("note", e.notes[0].as_str());
    assert_eq!(1, e.notes.len());
}

#[test]
fn lists_keep_the_order_of_the_text() {
    let e = parse("#coach\nL\n\nnote one\n\nDONE b\n* <2021-10-31 Sun 21:10> e\nTODO a\nnote two\n")
        .unwrap();
    assert_eq!(vec![Task::Done(text("b")), Task::Todo(text("a"))], e.tasks);
    assert_eq!("note one", e.notes[0].as_str());
    assert_eq!("note two", e.notes[1].as_str());
    assert_eq!(1, e.events.len());
}

#[test]
fn text_beyond_ascii_is_kept() {
    let e = parse("#coach\nÜbung\nschlüssel: wért\n\nTODO caf\u{e9} \u{1f600}\n").unwrap();
    assert_eq!("Übung", e.label.as_str());
    assert_eq!("schlüssel", e.observations[0].name.as_str());
    assert_eq!("caf\u{e9} \u{1f600}", e.tasks[0].text().as_str());
    assert_eq!(Ok(e), parse("#coach\nÜbung\nschlüssel: wért\n\nTODO caf\u{e9} \u{1f600}\n\n"));
}

#[test]
fn error_messages() {
    assert_eq!(
        "coach files must begin with a line containing only the text \"#coach\"",
        ParseError::NoMagicNumber.to_string()
    );
    assert_eq!(
        "entries must contain a nonempty first line",
        ParseError::EmptyLabel.to_string()
    );
    assert_eq!(
        "newlines are required after the label and observations in an entry",
        ParseError::MissingNewline.to_string()
    );
    assert_eq!(
        "there must be a blank line between the entry header and any notes",
        ParseError::ExpectedObservation.to_string()
    );
    assert_eq!(
        "an event was found, but it was missing a <timestamp>",
        ParseError::MissingTimestamp.to_string()
    );
    assert_eq!(
        "the timestamp for this event was in an unexpected format",
        ParseError::MalformedTimestamp.to_string()
    );
}

#[test]
fn notes_of_a_text() {
    let notes = notes_from("first\n\nsecond\nline").unwrap();
    assert_eq!(2, notes.len());
    assert_eq!("first", notes[0].as_str());
    assert_eq!("second\nline", notes[1].as_str());
    let notes = notes_from("\n\n\nonly\n\n").unwrap();
    assert_eq!(1, notes.len());
    assert_eq!("only", notes[0].as_str());
}

#[test]
fn a_text_with_a_piece_that_is_no_note_gives_none() {
    assert!(notes_from("").is_none());
    assert!(notes_from("\n\n").is_none());
    assert!(notes_from("a\n\n\nb").is_none());
    assert!(notes_from("a\n\nTODO b").is_none());
    assert!(notes_from("* <2021-10-31 Sun 21:10> e\n\nb").is_none());
    assert!(notes_from("a\n\n\n\nb").is_none());
}

#[test]
fn an_entry_tells_whether_it_reads_back() {
    assert!(full_entry().reads_back());
    assert!(bare("L").reads_back());
    assert!(!bare("").reads_back());
    let mut e = bare("L");
    e.events.push(Event {
        when: Timestamp::new(2021, 10, 31, 21, 10).unwrap(),
        text: text(" x"),
    });
    assert!(!e.reads_back());
    e.events[0].text = text("\u{3000}x");
    assert!(!e.reads_back());
    e.events[0].text = text("x ");
    assert!(e.reads_back());
    e.events[0].text = text("");
    assert!(e.reads_back());
    assert!(Entry::default().reads_back());
}

#[test]
fn what_was_read_reads_back() {
    for input in [
        "#coach\nL\n",
        "#coach\nL\n\nnote without end",
        "#coach\nL\nk: v\n\n\n\n* <  2021-10-31 Sun 21:10 >    late \nnote\nTODO in note\n\n\nTODO x",
        "#coach\nL\nk:  v \n\nDONE \nWORKING  spaced\nCANCELLED x\n\n\n",
    ] {
        let e = parse(input).unwrap();
        assert!(e.reads_back());
        let again = parse(&e.to_string());
        assert_eq!(Ok(e), again);
    }
}

fn parts_of(line: &str) -> Result<Option<(String, String)>, ParseError> {
    let chars = chars_of(line);
    match event_parts(&chars) {
        EventLine::NotFound => Ok(None),
        EventLine::Problem(e) => Err(e),
        EventLine::Found { stamp, text } => Ok(Some((
            stamp.iter().collect::<String>(),
            text.iter().collect::<String>(),
        ))),
    }
}

#[test]
fn an_event_line_has_a_time_in_brackets_and_a_text() {
    assert_eq!(
        Ok(Some((String::from("when"), String::from("what > where ")))),
        parts_of("* <when> \t what > where ")
    );
    assert_eq!(
        Ok(Some((String::from(" "), String::from("")))),
        parts_of("* < >")
    );
    assert_eq!(
        Ok(Some((String::from(""), String::from("<x>")))),
        parts_of("* <><x>")
    );
    assert_eq!(Ok(None), parts_of("*<when> what"));
    assert_eq!(Ok(None), parts_of(""));
    assert_eq!(Ok(None), parts_of("TODO * <when> what"));
    assert_eq!(Err(ParseError::MissingTimestamp), parts_of("* "));
    assert_eq!(Err(ParseError::MissingTimestamp), parts_of("*  <when> what"));
    assert_eq!(Err(ParseError::MissingTimestamp), parts_of("* when> what"));
    assert_eq!(Err(ParseError::MalformedTimestamp), parts_of("* <when what"));
    assert_eq!(Err(ParseError::MalformedTimestamp), parts_of("* <"));
}
