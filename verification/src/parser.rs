//! Reading an entry from text.

use crate::entry::{
    as_observation_name, event_views, note_views, observation_views, promise_nonempty_note,
    task_views, Entry, Event, NoNewlines, Note, Observation, Task,
};
use crate::grammar::{
    after_note, body_from, event_at, is_no_newlines, is_note, note_at, notes_of, observation_at,
    observations_from, parse_text, pieces, reads_back, task_at, Consumed, EntryView, EventParts,
    EventView, ObservationView, ParseError,
};
use crate::text::{
    after_line, chars_of, count_leading, find_char, find_pair, line, starts_with, string_of,
    stripped, trimmed_start,
};
use crate::timestamp::Timestamp;
use vstd::prelude::*;
use vstd::slice::slice_subrange;

verus! {

/// What one rule makes of the text before it, and the text that it leaves.
enum ConsumeResult<'a, T> {
    NotFound,
    Found { remaining: &'a [char], found: T },
    Problem(ParseError),
}

/// The first line of `s` and what follows it.
fn split_line(s: &[char]) -> (r: (&[char], &[char]))
    ensures
        r.0@ == line(s@),
        r.1@ == after_line(s@),
        is_no_newlines(r.0@),
        s@.len() > 0 ==> r.1@.len() < s@.len(),
{
    let end = find_char(s, '\n');
    proof {
        crate::text::lemma_first_index_bounds(s@, '\n');
        crate::laws::lemma_line_has_no_newline(s@);
    }
    let l = slice_subrange(s, 0, end);
    if end < s.len() {
        (l, slice_subrange(s, end + 1, s.len()))
    } else {
        (l, slice_subrange(s, end, end))
    }
}

/// Reads the observation that `remaining` begins with.
fn consume_observation(remaining: &[char]) -> (r: ConsumeResult<'_, Observation>)
    ensures
        match r {
            ConsumeResult::NotFound => observation_at(remaining@) is NotFound,
            ConsumeResult::Problem(e) => observation_at(remaining@) == Consumed::<
                ObservationView,
            >::Problem(e),
            ConsumeResult::Found { remaining: rest, found } => {
                &&& observation_at(remaining@) == Consumed::Found(found@)
                &&& rest@ == after_line(remaining@)
                &&& rest@.len() < remaining@.len()
            },
        },
{
    if remaining.len() == 0 || remaining[0] == '\n' {
        return ConsumeResult::NotFound;
    }
    proof {
        crate::text::lemma_first_index_bounds(remaining@, '\n');
    }
    if find_char(remaining, '\n') == remaining.len() {
        return ConsumeResult::Problem(ParseError::MissingNewline);
    }
    let (l, rest) = split_line(remaining);
    let colon = find_pair(l, ':', ' ');
    proof {
        crate::text::lemma_first_pair_bounds(l@, ':', ' ');
    }
    if colon == l.len() {
        return ConsumeResult::Problem(ParseError::ExpectedObservation);
    }
    let name = as_observation_name(string_of(slice_subrange(l, 0, colon)));
    let value = slice_subrange(l, colon + 2, l.len());
    proof {
        crate::laws::lemma_part_has_no_newline(l@, colon + 2, l@.len() as int);
    }
    match name {
        Some(name) => ConsumeResult::Found {
            remaining: rest,
            found: Observation { name, value: NoNewlines::promise(string_of(value)) },
        },
        None => ConsumeResult::Problem(ParseError::ExpectedObservation),
    }
}

/// The message of a task line: the line from `from` on.
fn message_from(l: &[char], from: usize) -> (m: NoNewlines)
    requires
        from <= l@.len(),
        is_no_newlines(l@),
    ensures
        m@ == l@.skip(from as int),
{
    proof {
        crate::laws::lemma_part_has_no_newline(l@, from as int, l@.len() as int);
    }
    NoNewlines::promise(string_of(slice_subrange(l, from, l.len())))
}

/// Reads the task that the first line of `remaining` stands for.
fn consume_task(remaining: &[char]) -> (r: ConsumeResult<'_, Task>)
    ensures
        match r {
            ConsumeResult::NotFound => task_at(remaining@) is None,
            ConsumeResult::Problem(e) => false,
            ConsumeResult::Found { remaining: rest, found } => {
                &&& task_at(remaining@) == Some(found@)
                &&& rest@ == after_line(remaining@)
                &&& rest@.len() < remaining@.len()
            },
        },
{
    let (l, rest) = split_line(remaining);
    let found = if starts_with(l, &['T', 'O', 'D', 'O', ' ']) {
        Task::Todo(message_from(l, 5))
    } else if starts_with(l, &['W', 'O', 'R', 'K', 'I', 'N', 'G', ' ']) {
        Task::Working(message_from(l, 8))
    } else if starts_with(l, &['D', 'O', 'N', 'E', ' ']) {
        Task::Done(message_from(l, 5))
    } else if starts_with(l, &['C', 'A', 'N', 'C', 'E', 'L', 'L', 'E', 'D', ' ']) {
        Task::Cancelled(message_from(l, 10))
    } else {
        return ConsumeResult::NotFound;
    };
    ConsumeResult::Found { remaining: rest, found }
}

/// What a line is as an event, before its time is read.
pub enum EventLine<'a> {
    /// The line does not begin with `"* "`.
    NotFound,
    /// The line begins with `"* "` and has no time in brackets behind it.
    Problem(ParseError),
    /// What stands between the brackets, and the text behind them.
    Found { stamp: &'a [char], text: &'a [char] },
}

/// Parts a line into what stands for the time of an event and the text of
/// the event.
pub fn event_parts(l: &[char]) -> (r: EventLine<'_>)
    ensures
        match r {
            EventLine::NotFound => crate::grammar::event_parts(l@) is NotFound,
            EventLine::Problem(e) => crate::grammar::event_parts(l@) == Consumed::<
                EventParts,
            >::Problem(e),
            EventLine::Found { stamp, text } => crate::grammar::event_parts(l@) == Consumed::Found(
                EventParts { stamp: stamp@, text: text@ },
            ),
        },
{
    if !starts_with(l, &['*', ' ']) {
        return EventLine::NotFound;
    }
    let e = slice_subrange(l, 2, l.len());
    if e.len() == 0 || e[0] != '<' {
        return EventLine::Problem(ParseError::MissingTimestamp);
    }
    let close = find_char(e, '>');
    proof {
        crate::text::lemma_first_index_bounds(e@, '>');
    }
    if close == e.len() {
        return EventLine::Problem(ParseError::MalformedTimestamp);
    }
    EventLine::Found {
        stamp: slice_subrange(e, 1, close),
        text: trimmed_start(slice_subrange(e, close + 1, e.len())),
    }
}

/// Reads the event that the first line of `remaining` stands for.
fn consume_event(remaining: &[char]) -> (r: ConsumeResult<'_, Event>)
    ensures
        match r {
            ConsumeResult::NotFound => event_at(remaining@) is NotFound,
            ConsumeResult::Problem(e) => event_at(remaining@) == Consumed::<EventView>::Problem(e),
            ConsumeResult::Found { remaining: rest, found } => {
                &&& event_at(remaining@) == Consumed::Found(found@)
                &&& rest@ == after_line(remaining@)
                &&& rest@.len() < remaining@.len()
            },
        },
{
    let (l, rest) = split_line(remaining);
    match event_parts(l) {
        EventLine::NotFound => ConsumeResult::NotFound,
        EventLine::Problem(e) => ConsumeResult::Problem(e),
        EventLine::Found { stamp, text } => {
            proof {
                crate::laws::lemma_event_text_has_no_newline(l@);
            }
            match Timestamp::from_chars(stamp) {
                Some(when) => ConsumeResult::Found {
                    remaining: rest,
                    found: Event { when, text: NoNewlines::promise(string_of(text)) },
                },
                None => ConsumeResult::Problem(ParseError::MalformedTimestamp),
            }
        },
    }
}

/// Reads the note that `remaining` begins with. The caller has found that
/// its first line is no task and no event.
fn consume_note(remaining: &[char]) -> (r: ConsumeResult<'_, Note>)
    requires
        task_at(remaining@) is None,
        event_at(remaining@) is NotFound,
    ensures
        match r {
            ConsumeResult::NotFound => remaining@.len() == 0 || remaining@[0] == '\n',
            ConsumeResult::Problem(e) => false,
            ConsumeResult::Found { remaining: rest, found } => {
                &&& remaining@.len() > 0 && remaining@[0] != '\n'
                &&& found@ == note_at(remaining@)
                &&& rest@ == after_note(remaining@)
                &&& rest@.len() < remaining@.len()
            },
        },
{
    let n = remaining.len();
    if n == 0 || remaining[0] == '\n' {
        return ConsumeResult::NotFound;
    }
    let blank = find_pair(remaining, '\n', '\n');
    proof {
        crate::text::lemma_first_pair_bounds(remaining@, '\n', '\n');
        crate::laws::lemma_note_at_is_note(remaining@);
    }
    let (text, rest) = if blank < n {
        (slice_subrange(remaining, 0, blank), slice_subrange(remaining, blank + 1, n))
    } else if remaining[n - 1] == '\n' {
        (slice_subrange(remaining, 0, n - 1), slice_subrange(remaining, n, n))
    } else {
        (slice_subrange(remaining, 0, n), slice_subrange(remaining, n, n))
    };
    assert(text@ =~= note_at(remaining@));
    assert(rest@ =~= after_note(remaining@));
    ConsumeResult::Found { remaining: rest, found: promise_nonempty_note(string_of(text)) }
}

/// Tells whether the characters can stand as a note.
pub(crate) fn is_note_text(chars: &[char]) -> (b: bool)
    ensures
        b == is_note(chars@),
{
    let n = chars.len();
    proof {
        crate::text::lemma_first_pair_bounds(chars@, '\n', '\n');
    }
    if n == 0 || chars[0] == '\n' || chars[n - 1] == '\n' || find_pair(chars, '\n', '\n') < n {
        return false;
    }
    match consume_task(chars) {
        ConsumeResult::NotFound => {},
        _ => {
            return false;
        },
    }
    match consume_event(chars) {
        ConsumeResult::NotFound => true,
        _ => false,
    }
}

/// `s` as a note, if it can be one: not empty, no newline at either end, no
/// blank line inside, and not a task or an event by its first line.
pub fn as_note(s: String) -> (r: Option<Note>)
    ensures
        r is Some <==> is_note(s@),
        r is Some ==> r->0@ == s@,
{
    let chars = chars_of(s.as_str());
    if is_note_text(chars.as_slice()) {
        Some(promise_nonempty_note(s))
    } else {
        None
    }
}

/// The notes that a text holds: newlines at its ends are set aside, blank
/// lines part it into pieces, and each piece must be a note.
pub fn notes_from(text: &str) -> (r: Option<Vec<Note>>)
    ensures
        match r {
            Some(notes) => notes_of(text@) == Some(note_views(notes@)),
            None => notes_of(text@) is None,
        },
{
    let owned = chars_of(text);
    let whole = stripped(owned.as_slice(), '\n');
    let mut remaining = whole;
    let mut notes: Vec<Note> = Vec::new();
    assert(note_views(notes@) + pieces(remaining@) =~= pieces(whole@));
    loop
        invariant
            pieces(whole@) == note_views(notes@) + pieces(remaining@),
            forall|i: int| 0 <= i < notes.len() ==> is_note(#[trigger] note_views(notes@)[i]),
            whole@ == crate::text::strip(text@, '\n'),
        decreases remaining@.len(),
    {
        let blank = find_pair(remaining, '\n', '\n');
        proof {
            crate::text::lemma_first_pair_bounds(remaining@, '\n', '\n');
        }
        let ghost before = note_views(notes@);
        if blank < remaining.len() {
            let piece = slice_subrange(remaining, 0, blank);
            if !is_note_text(piece) {
                assert(pieces(whole@)[before.len() as int] == piece@);
                return None;
            }
            let note = promise_nonempty_note(string_of(piece));
            assert(note_views(notes@.push(note)) =~= before.push(piece@));
            notes.push(note);
            let ghost rest = remaining@.skip(blank + 2);
            remaining = slice_subrange(remaining, blank + 2, remaining.len());
            assert(before.push(piece@) + pieces(rest) =~= before + (seq![piece@] + pieces(rest)));
        } else {
            if !is_note_text(remaining) {
                assert(pieces(whole@)[before.len() as int] == remaining@);
                return None;
            }
            let note = promise_nonempty_note(string_of(remaining));
            assert(note_views(notes@.push(note)) =~= before.push(remaining@));
            assert(before.push(remaining@) =~= before + seq![remaining@]);
            notes.push(note);
            return Some(notes);
        }
    }
}

/// The entry that a text after its magic line stands for.
#[verifier::loop_isolation(false)]
fn parse_chars(text: &[char]) -> (r: Result<Entry, ParseError>)
    ensures
        match r {
            Ok(e) => crate::grammar::parse_unmarked(text@) == Ok::<EntryView, ParseError>(e@),
            Err(err) => crate::grammar::parse_unmarked(text@) == Err::<EntryView, ParseError>(err),
        },
{
    let end = find_char(text, '\n');
    proof {
        crate::text::lemma_first_index_bounds(text@, '\n');
    }
    if end == text.len() {
        return Err(ParseError::MissingNewline);
    }
    if end == 0 {
        return Err(ParseError::EmptyLabel);
    }
    let (first, rest) = split_line(text);
    let label = NoNewlines::promise(string_of(first));
    let mut remaining = rest;
    let mut observations: Vec<Observation> = Vec::new();
    assert(observation_views(observations@) =~= Seq::empty());
    let mut more = true;
    while more
        invariant
            observations_from(rest@, Seq::empty()) == observations_from(
                remaining@,
                observation_views(observations@),
            ),
            !more ==> observation_at(remaining@) is NotFound,
        decreases remaining@.len() + if more { 1int } else { 0int },
    {
        match consume_observation(remaining) {
            ConsumeResult::Found { remaining: r, found } => {
                assert(observation_views(observations@.push(found)) =~= observation_views(
                    observations@,
                ).push(found@));
                observations.push(found);
                remaining = r;
            },
            ConsumeResult::NotFound => {
                more = false;
            },
            ConsumeResult::Problem(err) => {
                return Err(err);
            },
        }
    }
    let ghost start = remaining@;
    let ghost head = EntryView::bare(label@).with_observations(observation_views(observations@));
    let mut tasks: Vec<Task> = Vec::new();
    let mut events: Vec<Event> = Vec::new();
    let mut notes: Vec<Note> = Vec::new();
    assert(task_views(tasks@) =~= Seq::empty());
    assert(event_views(events@) =~= Seq::empty());
    assert(note_views(notes@) =~= Seq::empty());
    while remaining.len() > 0
        invariant
            body_from(start, head) == body_from(
                remaining@,
                EntryView {
                    tasks: task_views(tasks@),
                    events: event_views(events@),
                    notes: note_views(notes@),
                    ..head
                },
            ),
        decreases remaining@.len(),
    {
        let ghost before = remaining@;
        let ghost acc = EntryView {
            tasks: task_views(tasks@),
            events: event_views(events@),
            notes: note_views(notes@),
            ..head
        };
        let skip = count_leading(remaining, '\n');
        proof {
            crate::text::lemma_leading_bounds(remaining@, '\n');
        }
        remaining = slice_subrange(remaining, skip, remaining.len());
        if remaining.len() == 0 {
            assert(body_from(before, acc) == Ok::<EntryView, ParseError>(acc));
            assert(body_from(remaining@, acc) == Ok::<EntryView, ParseError>(acc)) by {
                assert(remaining@.skip(crate::text::leading(remaining@, '\n')).len() == 0) by {
                    crate::text::lemma_leading_bounds(remaining@, '\n');
                }
            }
            continue ;
        }
        match consume_task(remaining) {
            ConsumeResult::Found { remaining: r, found } => {
                assert(task_views(tasks@.push(found)) =~= task_views(tasks@).push(found@));
                remaining = r;
                tasks.push(found);
                continue ;
            },
            ConsumeResult::Problem(err) => {
                return Err(err);
            },
            ConsumeResult::NotFound => (),
        }
        match consume_event(remaining) {
            ConsumeResult::Found { remaining: r, found } => {
                assert(event_views(events@.push(found)) =~= event_views(events@).push(found@));
                remaining = r;
                events.push(found);
                continue ;
            },
            ConsumeResult::Problem(err) => {
                return Err(err);
            },
            ConsumeResult::NotFound => (),
        }
        match consume_note(remaining) {
            ConsumeResult::Found { remaining: r, found } => {
                assert(note_views(notes@.push(found)) =~= note_views(notes@).push(found@));
                remaining = r;
                notes.push(found);
            },
            ConsumeResult::Problem(err) => {
                return Err(err);
            },
            ConsumeResult::NotFound => (),
        }
    }
    Ok(Entry { label, observations, tasks, events, notes })
}

/// Reads an entry from a text that lacks the magic line: the label on the
/// first line, the observations, a blank line, then tasks, events and notes.
pub fn parse_unmarked(text: &str) -> (r: Result<Entry, ParseError>)
    ensures
        match r {
            Ok(e) => crate::grammar::parse_unmarked(text@) == Ok::<EntryView, ParseError>(e@)
                && reads_back(e@),
            Err(err) => crate::grammar::parse_unmarked(text@) == Err::<EntryView, ParseError>(err),
        },
{
    let chars = chars_of(text);
    proof {
        crate::laws::lemma_parsed_reads_back(text@);
    }
    parse_chars(chars.as_slice())
}

/// Reads an entry from its text: the magic line, then the entry.
pub fn parse(text: &str) -> (r: Result<Entry, ParseError>)
    ensures
        match r {
            Ok(e) => parse_text(text@) == Ok::<EntryView, ParseError>(e@) && reads_back(e@),
            Err(err) => parse_text(text@) == Err::<EntryView, ParseError>(err),
        },
{
    let owned = chars_of(text);
    let chars = owned.as_slice();
    if !starts_with(chars, &['#', 'c', 'o', 'a', 'c', 'h', '\n']) {
        return Err(ParseError::NoMagicNumber);
    }
    proof {
        crate::laws::lemma_parsed_reads_back(text@);
    }
    parse_chars(slice_subrange(chars, 7, chars.len()))
}

} // verus!
