//! The entry format, as mathematics: what an entry is, which strings its
//! fields may hold, which entry a text stands for and which text an entry is
//! written as.

use crate::text::{after_line, first_index, first_pair, is_space, leading, line, trim_start};
use crate::timestamp::{keeps, stamp_of_text, stamp_text, Reading};
use vstd::prelude::*;
use vstd::string::StringExecFns;

verus! {

/// Why a text is no entry.
#[derive(Debug, Clone, Copy, PartialEq, Eq)]
pub enum ParseError {
    NoMagicNumber,
    EmptyLabel,
    MissingNewline,
    ExpectedObservation,
    MissingTimestamp,
    MalformedTimestamp,
}

impl ParseError {
    /// The sentence that says what is wrong.
    pub open spec fn message(self) -> Seq<char> {
        match self {
            ParseError::NoMagicNumber => {
                "coach files must begin with a line containing only the text \"#coach\""@
            },
            ParseError::EmptyLabel => "entries must contain a nonempty first line"@,
            ParseError::MissingNewline => {
                "newlines are required after the label and observations in an entry"@
            },
            ParseError::ExpectedObservation => {
                "there must be a blank line between the entry header and any notes"@
            },
            ParseError::MissingTimestamp => {
                "an event was found, but it was missing a <timestamp>"@
            },
            ParseError::MalformedTimestamp => {
                "the timestamp for this event was in an unexpected format"@
            },
        }
    }

    /// The sentence that says what is wrong.
    pub fn to_string(&self) -> (s: String)
        ensures
            s@ == self.message(),
    {
        let msg = match self {
            ParseError::NoMagicNumber => {
                "coach files must begin with a line containing only the text \"#coach\""
            },
            ParseError::EmptyLabel => "entries must contain a nonempty first line",
            ParseError::MissingNewline => {
                "newlines are required after the label and observations in an entry"
            },
            ParseError::ExpectedObservation => {
                "there must be a blank line between the entry header and any notes"
            },
            ParseError::MissingTimestamp => "an event was found, but it was missing a <timestamp>",
            ParseError::MalformedTimestamp => {
                "the timestamp for this event was in an unexpected format"
            },
        };
        String::from_str(msg)
    }
}

/// A named value.
pub struct ObservationView {
    pub name: Seq<char>,
    pub value: Seq<char>,
}

/// A task: its state and its message.
pub enum TaskView {
    Todo(Seq<char>),
    Working(Seq<char>),
    Done(Seq<char>),
    Cancelled(Seq<char>),
}

/// Something that happened, and when.
pub struct EventView {
    pub when: Reading,
    pub text: Seq<char>,
}

/// An entry: a label and four lists, each in the order of the text.
pub struct EntryView {
    pub label: Seq<char>,
    pub observations: Seq<ObservationView>,
    pub tasks: Seq<TaskView>,
    pub events: Seq<EventView>,
    pub notes: Seq<Seq<char>>,
}

/// The line that every entry text begins with.
pub open spec fn magic_line() -> Seq<char> {
    seq!['#', 'c', 'o', 'a', 'c', 'h', '\n']
}

/// The word before a task that is still to do, with its blank.
pub open spec fn todo_word() -> Seq<char> {
    seq!['T', 'O', 'D', 'O', ' ']
}

/// The word before a task that is being worked on, with its blank.
pub open spec fn working_word() -> Seq<char> {
    seq!['W', 'O', 'R', 'K', 'I', 'N', 'G', ' ']
}

/// The word before a task that is done, with its blank.
pub open spec fn done_word() -> Seq<char> {
    seq!['D', 'O', 'N', 'E', ' ']
}

/// The word before a task that was given up, with its blank.
pub open spec fn cancelled_word() -> Seq<char> {
    seq!['C', 'A', 'N', 'C', 'E', 'L', 'L', 'E', 'D', ' ']
}

/// What an event line begins with.
pub open spec fn event_mark() -> Seq<char> {
    seq!['*', ' ']
}

/// The end of a line.
pub open spec fn newline() -> Seq<char> {
    seq!['\n']
}

impl TaskView {
    /// What is to be done.
    pub open spec fn message(self) -> Seq<char> {
        match self {
            TaskView::Todo(m) => m,
            TaskView::Working(m) => m,
            TaskView::Done(m) => m,
            TaskView::Cancelled(m) => m,
        }
    }

    /// The word that the task's line begins with, its blank included.
    pub open spec fn word(self) -> Seq<char> {
        match self {
            TaskView::Todo(_) => todo_word(),
            TaskView::Working(_) => working_word(),
            TaskView::Done(_) => done_word(),
            TaskView::Cancelled(_) => cancelled_word(),
        }
    }

    /// A task is live while it is still to do or being worked on.
    pub open spec fn is_live(self) -> bool {
        self is Todo || self is Working
    }

    /// Place of the task's state in the order todo, working, done,
    /// cancelled.
    pub open spec fn rank(self) -> int {
        match self {
            TaskView::Todo(_) => 0,
            TaskView::Working(_) => 1,
            TaskView::Done(_) => 2,
            TaskView::Cancelled(_) => 3,
        }
    }

    /// A task in this state with the message `m`.
    pub open spec fn with_message(self, m: Seq<char>) -> TaskView {
        match self {
            TaskView::Todo(_) => TaskView::Todo(m),
            TaskView::Working(_) => TaskView::Working(m),
            TaskView::Done(_) => TaskView::Done(m),
            TaskView::Cancelled(_) => TaskView::Cancelled(m),
        }
    }
}

/// What one rule of the grammar makes of the text before it.
pub enum Consumed<T> {
    /// The rule does not apply here.
    NotFound,
    /// The rule applies and gives this.
    Found(T),
    /// The rule applies and the text breaks it.
    Problem(ParseError),
}

// ---------------------------------------------------------------- validity

/// A string that fits on one line.
pub open spec fn is_no_newlines(s: Seq<char>) -> bool {
    !s.contains('\n')
}

/// A string that can name an observation.
pub open spec fn is_observation_name(s: Seq<char>) -> bool {
    s.len() > 0 && !s.contains('\n') && !s.contains(':')
}

/// A string that can stand as a note: not empty, no newline at either end,
/// no blank line inside, and no task or event line at its head.
pub open spec fn is_note(s: Seq<char>) -> bool {
    &&& s.len() > 0
    &&& s.first() != '\n'
    &&& s.last() != '\n'
    &&& first_pair(s, '\n', '\n') == s.len()
    &&& task_at(s) is None
    &&& event_at(s) is NotFound
}

impl ObservationView {
    /// The name is a name and the value fits on a line.
    pub open spec fn wf(self) -> bool {
        is_observation_name(self.name) && is_no_newlines(self.value)
    }
}

impl TaskView {
    /// The message fits on a line.
    pub open spec fn wf(self) -> bool {
        is_no_newlines(self.message())
    }
}

impl EventView {
    /// The time keeps and the text fits on a line.
    pub open spec fn wf(self) -> bool {
        keeps(self.when) && is_no_newlines(self.text)
    }
}

impl EntryView {
    /// Every field holds what its type allows.
    pub open spec fn wf(self) -> bool {
        &&& is_no_newlines(self.label)
        &&& forall|i: int|
            0 <= i < self.observations.len() ==> (#[trigger] self.observations[i]).wf()
        &&& forall|i: int| 0 <= i < self.tasks.len() ==> (#[trigger] self.tasks[i]).wf()
        &&& forall|i: int| 0 <= i < self.events.len() ==> (#[trigger] self.events[i]).wf()
        &&& forall|i: int| 0 <= i < self.notes.len() ==> is_note(#[trigger] self.notes[i])
    }

    /// An entry with this label and nothing else.
    pub open spec fn bare(label: Seq<char>) -> EntryView {
        EntryView {
            label,
            observations: Seq::empty(),
            tasks: Seq::empty(),
            events: Seq::empty(),
            notes: Seq::empty(),
        }
    }

    /// The entry with these observations in place of its own.
    pub open spec fn with_observations(self, observations: Seq<ObservationView>) -> EntryView {
        EntryView { observations, ..self }
    }

    /// The entry with one more task.
    pub open spec fn with_task(self, task: TaskView) -> EntryView {
        EntryView { tasks: self.tasks.push(task), ..self }
    }

    /// The entry with one more event.
    pub open spec fn with_event(self, event: EventView) -> EntryView {
        EntryView { events: self.events.push(event), ..self }
    }

    /// The entry with one more note.
    pub open spec fn with_note(self, note: Seq<char>) -> EntryView {
        EntryView { notes: self.notes.push(note), ..self }
    }
}

/// An event text is flush when it is empty or begins with a character that
/// is no white space: white space before the text is not kept by reading.
pub open spec fn is_flush(text: Seq<char>) -> bool {
    text.len() == 0 || !is_space(text[0])
}

/// An entry that reads back from its text: valid, with a label, and with
/// event texts that are flush.
pub open spec fn reads_back(e: EntryView) -> bool {
    &&& e.wf()
    &&& e.label.len() > 0
    &&& forall|i: int| 0 <= i < e.events.len() ==> is_flush(#[trigger] e.events[i].text)
}

// ----------------------------------------------------------------- reading

/// The observation that `s` begins with. A blank line or the end of the
/// text closes the block. Any other line must be ended, must hold `": "`,
/// and what stands before the first `": "` must be a name.
pub open spec fn observation_at(s: Seq<char>) -> Consumed<ObservationView> {
    if s.len() == 0 || s[0] == '\n' {
        Consumed::NotFound
    } else if first_index(s, '\n') == s.len() {
        Consumed::Problem(ParseError::MissingNewline)
    } else {
        let l = line(s);
        let colon = first_pair(l, ':', ' ');
        if colon == l.len() || !is_observation_name(l.take(colon)) {
            Consumed::Problem(ParseError::ExpectedObservation)
        } else {
            Consumed::Found(ObservationView { name: l.take(colon), value: l.skip(colon + 2) })
        }
    }
}

/// The task that a line stands for, if it begins with one of the four
/// words: the message is the rest of the line.
pub open spec fn task_on(l: Seq<char>) -> Option<TaskView> {
    if todo_word().is_prefix_of(l) {
        Some(TaskView::Todo(l.skip(5)))
    } else if working_word().is_prefix_of(l) {
        Some(TaskView::Working(l.skip(8)))
    } else if done_word().is_prefix_of(l) {
        Some(TaskView::Done(l.skip(5)))
    } else if cancelled_word().is_prefix_of(l) {
        Some(TaskView::Cancelled(l.skip(10)))
    } else {
        None
    }
}

/// The task that the first line of `s` stands for.
pub open spec fn task_at(s: Seq<char>) -> Option<TaskView> {
    task_on(line(s))
}

/// The two parts of an event line: what stands between the brackets, and
/// the text.
pub struct EventParts {
    pub stamp: Seq<char>,
    pub text: Seq<char>,
}

/// The parts of a line as an event, if it begins with `"* "`. What stands
/// for the time is found between `<`, which must come next, and the first
/// `>`; the text is what follows, without the white space before it.
pub open spec fn event_parts(l: Seq<char>) -> Consumed<EventParts> {
    if !event_mark().is_prefix_of(l) {
        Consumed::NotFound
    } else {
        let e = l.skip(2);
        if e.len() == 0 || e[0] != '<' {
            Consumed::Problem(ParseError::MissingTimestamp)
        } else {
            let close = first_index(e, '>');
            if close == e.len() {
                Consumed::Problem(ParseError::MalformedTimestamp)
            } else {
                Consumed::Found(
                    EventParts { stamp: e.subrange(1, close), text: trim_start(e.skip(close + 1)) },
                )
            }
        }
    }
}

/// The event that a line stands for, if it begins with `"* "`: its parts,
/// with the time that the first of them stands for.
pub open spec fn event_on(l: Seq<char>) -> Consumed<EventView> {
    match event_parts(l) {
        Consumed::NotFound => Consumed::NotFound,
        Consumed::Problem(e) => Consumed::Problem(e),
        Consumed::Found(parts) => match stamp_of_text(parts.stamp) {
            Some(when) => Consumed::Found(EventView { when, text: parts.text }),
            None => Consumed::Problem(ParseError::MalformedTimestamp),
        },
    }
}

/// The event that the first line of `s` stands for.
pub open spec fn event_at(s: Seq<char>) -> Consumed<EventView> {
    event_on(line(s))
}

/// The note that `s` begins with: its lines up to the first blank line or
/// to the end of the text, without the newline that ends the last of them.
pub open spec fn note_at(s: Seq<char>) -> Seq<char> {
    let blank = first_pair(s, '\n', '\n');
    if blank < s.len() {
        s.take(blank)
    } else if s.len() > 0 && s.last() == '\n' {
        s.drop_last()
    } else {
        s
    }
}

/// What follows the note that `s` begins with: the blank line that closes
/// it and the rest.
pub open spec fn after_note(s: Seq<char>) -> Seq<char> {
    let blank = first_pair(s, '\n', '\n');
    if blank < s.len() {
        s.skip(blank + 1)
    } else {
        Seq::empty()
    }
}

/// The pieces that blank lines part a text into: what stands before the
/// first `"\n\n"`, then the pieces of what follows it.
pub open spec fn pieces(s: Seq<char>) -> Seq<Seq<char>>
    decreases s.len(),
{
    let blank = first_pair(s, '\n', '\n');
    if 0 <= blank < s.len() {
        proof {
            crate::text::lemma_first_pair_bounds(s, '\n', '\n');
        }
        seq![s.take(blank)] + pieces(s.skip(blank + 2))
    } else {
        seq![s]
    }
}

/// The notes that a text holds, newlines at its ends set aside: its pieces,
/// if each of them is a note.
pub open spec fn notes_of(text: Seq<char>) -> Option<Seq<Seq<char>>> {
    let ps = pieces(crate::text::strip(text, '\n'));
    if forall|i: int| 0 <= i < ps.len() ==> is_note(#[trigger] ps[i]) {
        Some(ps)
    } else {
        None
    }
}

/// The observations at the head of `s`, added to `acc`, and the text that
/// follows them.
pub open spec fn observations_from(s: Seq<char>, acc: Seq<ObservationView>) -> Result<
    (Seq<ObservationView>, Seq<char>),
    ParseError,
>
    decreases s.len(),
{
    match observation_at(s) {
        Consumed::NotFound => Ok((acc, s)),
        Consumed::Problem(e) => Err(e),
        Consumed::Found(o) => {
            proof {
                crate::text::lemma_first_index_bounds(s, '\n');
            }
            observations_from(after_line(s), acc.push(o))
        },
    }
}

/// The tasks, events and notes of `s`, added to those of `acc`. Blank lines
/// between them count for nothing. Each line is tried as a task, then as an
/// event, and begins a note if it is neither.
pub open spec fn body_from(s: Seq<char>, acc: EntryView) -> Result<EntryView, ParseError>
    decreases s.len(),
{
    let t = s.skip(leading(s, '\n'));
    if t.len() == 0 {
        Ok(acc)
    } else {
        proof {
            crate::text::lemma_leading_bounds(s, '\n');
            crate::text::lemma_first_index_bounds(t, '\n');
            crate::text::lemma_first_pair_bounds(t, '\n', '\n');
        }
        match task_at(t) {
            Some(task) => body_from(after_line(t), acc.with_task(task)),
            None => match event_at(t) {
                Consumed::Found(event) => body_from(after_line(t), acc.with_event(event)),
                Consumed::Problem(e) => Err(e),
                Consumed::NotFound => body_from(after_note(t), acc.with_note(note_at(t))),
            },
        }
    }
}

/// The entry that a text without its first line, the magic one, stands for:
/// the label on a line of its own, the observations, and the body.
pub open spec fn parse_unmarked(s: Seq<char>) -> Result<EntryView, ParseError> {
    if first_index(s, '\n') == s.len() {
        Err(ParseError::MissingNewline)
    } else if first_index(s, '\n') == 0 {
        Err(ParseError::EmptyLabel)
    } else {
        match observations_from(after_line(s), Seq::empty()) {
            Ok((observations, rest)) => body_from(
                rest,
                EntryView::bare(line(s)).with_observations(observations),
            ),
            Err(e) => Err(e),
        }
    }
}

/// The entry that a text stands for.
pub open spec fn parse_text(text: Seq<char>) -> Result<EntryView, ParseError> {
    if magic_line().is_prefix_of(text) {
        parse_unmarked(text.skip(7))
    } else {
        Err(ParseError::NoMagicNumber)
    }
}

// ----------------------------------------------------------------- writing

/// An observation as it is shown: the name, a colon, a blank, the value.
pub open spec fn observation_text(o: ObservationView) -> Seq<char> {
    o.name + seq![':', ' '] + o.value
}

/// An observation on its line.
pub open spec fn observation_line(o: ObservationView) -> Seq<char> {
    observation_text(o) + newline()
}

/// A task as it is shown: the word of its state, then the message.
pub open spec fn task_text(t: TaskView) -> Seq<char> {
    t.word() + t.message()
}

/// A task on its line.
pub open spec fn task_line(t: TaskView) -> Seq<char> {
    task_text(t) + newline()
}

/// The written form of a time; empty where it has none.
pub open spec fn written(when: Reading) -> Seq<char> {
    match stamp_text(when) {
        Some(t) => t,
        None => Seq::empty(),
    }
}

/// An event as it is shown: the time in angle brackets, a blank, the text.
pub open spec fn event_text(e: EventView) -> Seq<char> {
    seq!['<'] + written(e.when) + seq!['>', ' '] + e.text
}

/// An event on its line.
pub open spec fn event_line(e: EventView) -> Seq<char> {
    event_mark() + event_text(e) + newline()
}

/// A note and the blank line that closes it.
pub open spec fn note_block(n: Seq<char>) -> Seq<char> {
    n + newline() + newline()
}

/// The observations, each on its line.
pub open spec fn observation_lines(os: Seq<ObservationView>) -> Seq<char> {
    os.map_values(|o: ObservationView| observation_line(o)).flatten()
}

/// The tasks, each on its line.
pub open spec fn task_lines(ts: Seq<TaskView>) -> Seq<char> {
    ts.map_values(|t: TaskView| task_line(t)).flatten()
}

/// The events, each on its line.
pub open spec fn event_lines(es: Seq<EventView>) -> Seq<char> {
    es.map_values(|e: EventView| event_line(e)).flatten()
}

/// The notes, each with the blank line that closes it.
pub open spec fn note_blocks(ns: Seq<Seq<char>>) -> Seq<char> {
    ns.map_values(|n: Seq<char>| note_block(n)).flatten()
}

/// The lines of a list with one more observation end with its line.
pub proof fn lemma_observation_lines_push(os: Seq<ObservationView>, o: ObservationView)
    ensures
        observation_lines(os.push(o)) == observation_lines(os) + observation_line(o),
{
    let f = |o: ObservationView| observation_line(o);
    assert(os.push(o).map_values(f) =~= os.map_values(f).push(observation_line(o)));
    os.map_values(f).lemma_flatten_push(observation_line(o));
}

/// The lines of a list with one more task end with its line.
pub proof fn lemma_task_lines_push(ts: Seq<TaskView>, t: TaskView)
    ensures
        task_lines(ts.push(t)) == task_lines(ts) + task_line(t),
{
    let f = |t: TaskView| task_line(t);
    assert(ts.push(t).map_values(f) =~= ts.map_values(f).push(task_line(t)));
    ts.map_values(f).lemma_flatten_push(task_line(t));
}

/// The lines of a list with one more event end with its line.
pub proof fn lemma_event_lines_push(es: Seq<EventView>, e: EventView)
    ensures
        event_lines(es.push(e)) == event_lines(es) + event_line(e),
{
    let f = |e: EventView| event_line(e);
    assert(es.push(e).map_values(f) =~= es.map_values(f).push(event_line(e)));
    es.map_values(f).lemma_flatten_push(event_line(e));
}

/// The blocks of a list with one more note end with its block.
pub proof fn lemma_note_blocks_push(ns: Seq<Seq<char>>, n: Seq<char>)
    ensures
        note_blocks(ns.push(n)) == note_blocks(ns) + note_block(n),
{
    let f = |n: Seq<char>| note_block(n);
    assert(ns.push(n).map_values(f) =~= ns.map_values(f).push(note_block(n)));
    ns.map_values(f).lemma_flatten_push(note_block(n));
}

/// A blank line where the list before it is not empty.
pub open spec fn gap(after: nat) -> Seq<char> {
    if after > 0 {
        newline()
    } else {
        Seq::empty()
    }
}

/// The tasks, events and notes of an entry as text.
pub open spec fn render_body(e: EntryView) -> Seq<char> {
    task_lines(e.tasks) + gap(e.tasks.len()) + event_lines(e.events) + gap(e.events.len())
        + note_blocks(e.notes)
}

/// An entry as text, without the magic line: the label, the observations, a
/// blank line, then the tasks, the events and the notes, each list that is
/// not empty closed by a blank line.
pub open spec fn render_unmarked(e: EntryView) -> Seq<char> {
    e.label + newline() + observation_lines(e.observations) + newline() + render_body(e)
}

/// An entry as text.
pub open spec fn render(e: EntryView) -> Seq<char> {
    magic_line() + render_unmarked(e)
}

} // verus!
