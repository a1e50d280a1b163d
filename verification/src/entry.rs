//! The entry in memory: strings that keep to what the format allows, the
//! records made of them, and the entry that holds the records.

use crate::grammar::{
    event_lines, event_text, is_flush, is_no_newlines, is_note, is_observation_name,
    lemma_event_lines_push, lemma_note_blocks_push, lemma_observation_lines_push,
    lemma_task_lines_push, magic_line, newline, note_blocks, observation_lines, observation_text,
    render, render_unmarked, task_lines, task_text, EntryView, EventView, ObservationView,
    TaskView,
};
use crate::text::{chars_of, find_char, is_whitespace, lemma_first_index_absent, push_chars};
use crate::timestamp::Timestamp;
use vstd::prelude::*;
use vstd::string::{StrSliceExecFns, StringExecFns};

verus! {

/// A string without a newline.
#[derive(Debug, PartialEq, Eq, PartialOrd, Ord)]
pub struct NoNewlines(String);

impl View for NoNewlines {
    type V = Seq<char>;

    closed spec fn view(&self) -> Seq<char> {
        self.0@
    }
}

impl NoNewlines {
    #[verifier::type_invariant]
    spec fn fits_a_line(self) -> bool {
        is_no_newlines(self.0@)
    }

    /// Wraps a string that is known to hold no newline.
    pub(crate) fn promise(s: String) -> (r: NoNewlines)
        requires
            is_no_newlines(s@),
        ensures
            r@ == s@,
    {
        NoNewlines(s)
    }

    /// The string itself; it holds no newline.
    pub fn as_str(&self) -> (s: &str)
        ensures
            s@ == self@,
            is_no_newlines(self@),
    {
        proof {
            use_type_invariant(self);
        }
        self.0.as_str()
    }

    /// A copy of the string.
    pub fn to_string(&self) -> (s: String)
        ensures
            s@ == self@,
    {
        self.0.clone()
    }
}

impl Default for NoNewlines {
    fn default() -> (r: NoNewlines)
        ensures
            r@ == Seq::<char>::empty(),
    {
        NoNewlines(String::new())
    }
}

/// `s` as a string without newlines, if it holds none.
pub fn as_no_newlines(s: String) -> (r: Option<NoNewlines>)
    ensures
        r is Some <==> is_no_newlines(s@),
        r is Some ==> r->0@ == s@,
{
    let chars = chars_of(s.as_str());
    proof {
        lemma_first_index_absent(chars@, '\n');
    }
    if find_char(chars.as_slice(), '\n') < chars.len() {
        None
    } else {
        Some(NoNewlines(s))
    }
}

/// The name of an observation: not empty, no newline, no colon.
#[derive(Debug, PartialEq, Eq)]
pub struct ObservationName(String);

impl View for ObservationName {
    type V = Seq<char>;

    closed spec fn view(&self) -> Seq<char> {
        self.0@
    }
}

impl ObservationName {
    #[verifier::type_invariant]
    spec fn is_a_name(self) -> bool {
        is_observation_name(self.0@)
    }

    /// The name itself; it keeps to what a name may hold.
    pub fn as_str(&self) -> (s: &str)
        ensures
            s@ == self@,
            is_observation_name(self@),
    {
        proof {
            use_type_invariant(self);
        }
        self.0.as_str()
    }

    /// A copy of the name.
    pub fn to_string(&self) -> (s: String)
        ensures
            s@ == self@,
    {
        self.0.clone()
    }
}

/// `s` as the name of an observation, if it can be one.
pub fn as_observation_name(s: String) -> (r: Option<ObservationName>)
    ensures
        r is Some <==> is_observation_name(s@),
        r is Some ==> r->0@ == s@,
{
    let chars = chars_of(s.as_str());
    proof {
        lemma_first_index_absent(chars@, '\n');
        lemma_first_index_absent(chars@, ':');
    }
    if chars.len() == 0 || find_char(chars.as_slice(), '\n') < chars.len() || find_char(
        chars.as_slice(),
        ':',
    ) < chars.len() {
        None
    } else {
        Some(ObservationName(s))
    }
}

/// A named value.
#[derive(Debug, PartialEq, Eq)]
pub struct Observation {
    pub name: ObservationName,
    pub value: NoNewlines,
}

impl View for Observation {
    type V = ObservationView;

    open spec fn view(&self) -> ObservationView {
        ObservationView { name: self.name@, value: self.value@ }
    }
}

impl Observation {
    /// The observation as it is shown: `name: value`.
    pub fn to_string(&self) -> (s: String)
        ensures
            s@ == observation_text(self@),
            self@.wf(),
    {
        let mut s = String::new();
        s.append(self.name.as_str());
        s.push(':');
        s.push(' ');
        s.append(self.value.as_str());
        assert(s@ =~= observation_text(self@));
        s
    }
}

/// Something to do, and how far it has come.
#[derive(Debug, PartialEq, Eq, PartialOrd, Ord)]
pub enum Task {
    Todo(NoNewlines),
    Working(NoNewlines),
    Done(NoNewlines),
    Cancelled(NoNewlines),
}

impl View for Task {
    type V = TaskView;

    open spec fn view(&self) -> TaskView {
        match self {
            Task::Todo(m) => TaskView::Todo(m@),
            Task::Working(m) => TaskView::Working(m@),
            Task::Done(m) => TaskView::Done(m@),
            Task::Cancelled(m) => TaskView::Cancelled(m@),
        }
    }
}

impl Task {
    /// Whether the task is still to do or being worked on.
    pub fn is_live(&self) -> (live: bool)
        ensures
            live == self@.is_live(),
    {
        match self {
            Task::Todo(_) | Task::Working(_) => true,
            _ => false,
        }
    }

    /// The string that the task holds.
    pub open spec fn payload(self) -> NoNewlines {
        match self {
            Task::Todo(m) => m,
            Task::Working(m) => m,
            Task::Done(m) => m,
            Task::Cancelled(m) => m,
        }
    }

    /// The message, to read or to change; the state stays.
    pub fn message(&mut self) -> (m: &mut NoNewlines)
        ensures
            *m == old(self).payload(),
            final(self)@ == old(self)@.with_message(final(m)@),
    {
        match self {
            Task::Todo(s) => s,
            Task::Done(s) => s,
            Task::Working(s) => s,
            Task::Cancelled(s) => s,
        }
    }

    /// The message, to read.
    pub fn text(&self) -> (m: &NoNewlines)
        ensures
            m@ == self@.message(),
    {
        match self {
            Task::Todo(s) => s,
            Task::Done(s) => s,
            Task::Working(s) => s,
            Task::Cancelled(s) => s,
        }
    }

    /// The task as it is shown: the word of its state, then the message.
    pub fn to_string(&self) -> (s: String)
        ensures
            s@ == task_text(self@),
            self@.wf(),
    {
        let mut s = String::new();
        match self {
            Task::Todo(_) => push_chars(&mut s, &['T', 'O', 'D', 'O', ' ']),
            Task::Working(_) => push_chars(&mut s, &['W', 'O', 'R', 'K', 'I', 'N', 'G', ' ']),
            Task::Done(_) => push_chars(&mut s, &['D', 'O', 'N', 'E', ' ']),
            Task::Cancelled(_) => push_chars(
                &mut s,
                &['C', 'A', 'N', 'C', 'E', 'L', 'L', 'E', 'D', ' '],
            ),
        }
        assert(s@ =~= self@.word());
        s.append(self.text().as_str());
        s
    }
}

/// Something that happened, and when.
#[derive(Debug, PartialEq, Eq)]
pub struct Event {
    pub when: Timestamp,
    pub text: NoNewlines,
}

impl View for Event {
    type V = EventView;

    open spec fn view(&self) -> EventView {
        EventView { when: self.when@, text: self.text@ }
    }
}

impl Event {
    /// The event as it is shown: `<time> text`.
    pub fn to_string(&self) -> (s: String)
        ensures
            s@ == event_text(self@),
            self@.wf(),
    {
        let mut s = String::new();
        s.push('<');
        let stamp = self.when.to_string();
        s.append(stamp.as_str());
        s.push('>');
        s.push(' ');
        s.append(self.text.as_str());
        assert(s@ =~= event_text(self@));
        s
    }
}

/// Free text of one or more lines.
#[derive(Debug, PartialEq, Eq)]
pub struct Note(String);

impl View for Note {
    type V = Seq<char>;

    closed spec fn view(&self) -> Seq<char> {
        self.0@
    }
}

impl Note {
    #[verifier::type_invariant]
    spec fn is_a_note(self) -> bool {
        is_note(self.0@)
    }

    /// The text of the note; it keeps to what a note may hold.
    pub fn as_str(&self) -> (s: &str)
        ensures
            s@ == self@,
            is_note(self@),
    {
        proof {
            use_type_invariant(self);
        }
        self.0.as_str()
    }

    /// A copy of the text of the note.
    pub fn to_string(&self) -> (s: String)
        ensures
            s@ == self@,
    {
        self.0.clone()
    }
}

/// Wraps a string that is known to be a note, without looking at it.
pub fn promise_nonempty_note(s: String) -> (n: Note)
    requires
        is_note(s@),
    ensures
        n@ == s@,
{
    Note(s)
}

/// An entry: a label and four lists.
#[derive(Debug, PartialEq, Eq)]
pub struct Entry {
    pub label: NoNewlines,
    pub observations: Vec<Observation>,
    pub tasks: Vec<Task>,
    pub events: Vec<Event>,
    pub notes: Vec<Note>,
}

/// What a list of observations holds.
pub open spec fn observation_views(v: Seq<Observation>) -> Seq<ObservationView> {
    v.map_values(|o: Observation| o@)
}

/// What a list of tasks holds.
pub open spec fn task_views(v: Seq<Task>) -> Seq<TaskView> {
    v.map_values(|t: Task| t@)
}

/// What a list of events holds.
pub open spec fn event_views(v: Seq<Event>) -> Seq<EventView> {
    v.map_values(|e: Event| e@)
}

/// What a list of notes holds.
pub open spec fn note_views(v: Seq<Note>) -> Seq<Seq<char>> {
    v.map_values(|n: Note| n@)
}

impl View for Entry {
    type V = EntryView;

    open spec fn view(&self) -> EntryView {
        EntryView {
            label: self.label@,
            observations: observation_views(self.observations@),
            tasks: task_views(self.tasks@),
            events: event_views(self.events@),
            notes: note_views(self.notes@),
        }
    }
}

impl Entry {
    /// Puts in the place of task `ix` what `updater` makes of its message.
    /// The message is moved out of the entry and handed over; the other
    /// tasks and fields stay.
    pub fn update_task<F>(&mut self, ix: usize, updater: F) where F: FnOnce(NoNewlines) -> Task
        requires
            ix < old(self).tasks.len(),
            call_requires(updater, (old(self).tasks@[ix as int].payload(),)),
        ensures
            call_ensures(
                updater,
                (old(self).tasks@[ix as int].payload(),),
                final(self).tasks@[ix as int],
            ),
            final(self).tasks@ == old(self).tasks@.update(
                ix as int,
                final(self).tasks@[ix as int],
            ),
            final(self).label == old(self).label,
            final(self).observations == old(self).observations,
            final(self).events == old(self).events,
            final(self).notes == old(self).notes,
    {
        let mut taken = NoNewlines::default();
        core::mem::swap(self.tasks[ix].message(), &mut taken);
        let new_task = updater(taken);
        self.tasks[ix] = new_task;
    }

    /// Adds an observation behind those that are there.
    pub fn add_observation(&mut self, name: ObservationName, value: NoNewlines)
        ensures
            final(self).observations@ == old(self).observations@.push(Observation { name, value }),
            final(self).label == old(self).label,
            final(self).tasks == old(self).tasks,
            final(self).events == old(self).events,
            final(self).notes == old(self).notes,
    {
        self.observations.push(Observation { name, value });
    }

    /// Adds a task, still to do, behind those that are there.
    pub fn add_task(&mut self, message: NoNewlines)
        ensures
            final(self).tasks@ == old(self).tasks@.push(Task::Todo(message)),
            final(self).label == old(self).label,
            final(self).observations == old(self).observations,
            final(self).events == old(self).events,
            final(self).notes == old(self).notes,
    {
        self.tasks.push(Task::Todo(message));
    }

    /// Adds an event behind those that are there.
    pub fn add_event(&mut self, when: Timestamp, text: NoNewlines)
        ensures
            final(self).events@ == old(self).events@.push(Event { when, text }),
            final(self).label == old(self).label,
            final(self).observations == old(self).observations,
            final(self).tasks == old(self).tasks,
            final(self).notes == old(self).notes,
    {
        self.events.push(Event { when, text });
    }

    /// Adds a note behind those that are there.
    pub fn add_note(&mut self, note: Note)
        ensures
            final(self).notes@ == old(self).notes@.push(note),
            final(self).label == old(self).label,
            final(self).observations == old(self).observations,
            final(self).tasks == old(self).tasks,
            final(self).events == old(self).events,
    {
        self.notes.push(note);
    }

    /// Tells whether reading the text of the entry gives the entry back: it
    /// has a label, and no event text begins with white space.
    pub fn reads_back(&self) -> (b: bool)
        ensures
            b == crate::grammar::reads_back(self@),
    {
        let mut flush = true;
        let mut i: usize = 0;
        while i < self.observations.len()
            invariant
                i <= self.observations.len(),
                forall|j: int| 0 <= j < i ==> (#[trigger] self@.observations[j]).wf(),
            decreases self.observations.len() - i,
        {
            let _ = self.observations[i].name.as_str();
            let _ = self.observations[i].value.as_str();
            i += 1;
        }
        i = 0;
        while i < self.tasks.len()
            invariant
                i <= self.tasks.len(),
                forall|j: int| 0 <= j < i ==> (#[trigger] self@.tasks[j]).wf(),
            decreases self.tasks.len() - i,
        {
            let _ = self.tasks[i].text().as_str();
            i += 1;
        }
        i = 0;
        while i < self.events.len()
            invariant
                i <= self.events.len(),
                forall|j: int| 0 <= j < i ==> (#[trigger] self@.events[j]).wf(),
                flush == forall|j: int| 0 <= j < i ==> is_flush(#[trigger] self@.events[j].text),
            decreases self.events.len() - i,
        {
            let _ = self.events[i].when.year();
            let text = self.events[i].text.as_str();
            if !text.is_empty() && is_whitespace(text.get_char(0)) {
                flush = false;
                assert(!is_flush(self@.events[i as int].text));
            }
            i += 1;
        }
        i = 0;
        while i < self.notes.len()
            invariant
                i <= self.notes.len(),
                forall|j: int| 0 <= j < i ==> is_note(#[trigger] self@.notes[j]),
            decreases self.notes.len() - i,
        {
            let _ = self.notes[i].as_str();
            i += 1;
        }
        !self.label.as_str().is_empty() && flush
    }

    /// Appends the observations, one to a line.
    fn write_observations(&self, out: &mut String)
        ensures
            final(out)@ == old(out)@ + observation_lines(self@.observations),
    {
        let n = self.observations.len();
        let mut i: usize = 0;
        assert(observation_views(self.observations@.take(0)) =~= Seq::empty());
        assert(out@ =~= old(out)@ + observation_lines(Seq::empty()));
        while i < n
            invariant
                n == self.observations.len(),
                i <= n,
                out@ == old(out)@ + observation_lines(
                    observation_views(self.observations@.take(i as int)),
                ),
            decreases n - i,
        {
            let ghost before = observation_views(self.observations@.take(i as int));
            let shown = self.observations[i].to_string();
            out.append(shown.as_str());
            out.push('\n');
            proof {
                let o = self.observations[i as int]@;
                lemma_observation_lines_push(before, o);
                assert(observation_views(self.observations@.take(i + 1)) =~= before.push(o));
                assert(out@ =~= old(out)@ + (observation_lines(before) + (observation_text(o)
                    + newline())));
            }
            i += 1;
        }
        assert(self.observations@.take(n as int) =~= self.observations@);
    }

    /// Appends the tasks, one to a line.
    fn write_tasks(&self, out: &mut String)
        ensures
            final(out)@ == old(out)@ + task_lines(self@.tasks),
    {
        let n = self.tasks.len();
        let mut i: usize = 0;
        assert(task_views(self.tasks@.take(0)) =~= Seq::empty());
        assert(out@ =~= old(out)@ + task_lines(Seq::empty()));
        while i < n
            invariant
                n == self.tasks.len(),
                i <= n,
                out@ == old(out)@ + task_lines(task_views(self.tasks@.take(i as int))),
            decreases n - i,
        {
            let ghost before = task_views(self.tasks@.take(i as int));
            let shown = self.tasks[i].to_string();
            out.append(shown.as_str());
            out.push('\n');
            proof {
                let t = self.tasks[i as int]@;
                lemma_task_lines_push(before, t);
                assert(task_views(self.tasks@.take(i + 1)) =~= before.push(t));
                assert(out@ =~= old(out)@ + (task_lines(before) + (task_text(t) + newline())));
            }
            i += 1;
        }
        assert(self.tasks@.take(n as int) =~= self.tasks@);
    }

    /// Appends the events, one to a line, each behind `"* "`.
    fn write_events(&self, out: &mut String)
        ensures
            final(out)@ == old(out)@ + event_lines(self@.events),
    {
        let n = self.events.len();
        let mut i: usize = 0;
        assert(event_views(self.events@.take(0)) =~= Seq::empty());
        assert(out@ =~= old(out)@ + event_lines(Seq::empty()));
        while i < n
            invariant
                n == self.events.len(),
                i <= n,
                out@ == old(out)@ + event_lines(event_views(self.events@.take(i as int))),
            decreases n - i,
        {
            let ghost before = event_views(self.events@.take(i as int));
            let shown = self.events[i].to_string();
            out.push('*');
            out.push(' ');
            out.append(shown.as_str());
            out.push('\n');
            proof {
                let e = self.events[i as int]@;
                lemma_event_lines_push(before, e);
                assert(event_views(self.events@.take(i + 1)) =~= before.push(e));
                assert(out@ =~= old(out)@ + (event_lines(before) + (seq!['*', ' '] + event_text(e)
                    + newline())));
            }
            i += 1;
        }
        assert(self.events@.take(n as int) =~= self.events@);
    }

    /// Appends the notes, a blank line behind each.
    fn write_notes(&self, out: &mut String)
        ensures
            final(out)@ == old(out)@ + note_blocks(self@.notes),
    {
        let n = self.notes.len();
        let mut i: usize = 0;
        assert(note_views(self.notes@.take(0)) =~= Seq::empty());
        assert(out@ =~= old(out)@ + note_blocks(Seq::empty()));
        while i < n
            invariant
                n == self.notes.len(),
                i <= n,
                out@ == old(out)@ + note_blocks(note_views(self.notes@.take(i as int))),
            decreases n - i,
        {
            let ghost before = note_views(self.notes@.take(i as int));
            out.append(self.notes[i].as_str());
            out.push('\n');
            out.push('\n');
            proof {
                let t = self.notes[i as int]@;
                lemma_note_blocks_push(before, t);
                assert(note_views(self.notes@.take(i + 1)) =~= before.push(t));
                assert(out@ =~= old(out)@ + (note_blocks(before) + (t + newline() + newline())));
            }
            i += 1;
        }
        assert(self.notes@.take(n as int) =~= self.notes@);
    }

    /// Appends the entry without the magic line.
    fn write_unmarked(&self, out: &mut String)
        ensures
            final(out)@ == old(out)@ + render_unmarked(self@),
    {
        out.append(self.label.as_str());
        out.push('\n');
        self.write_observations(out);
        out.push('\n');
        self.write_tasks(out);
        if self.tasks.len() > 0 {
            out.push('\n');
        }
        self.write_events(out);
        if self.events.len() > 0 {
            out.push('\n');
        }
        self.write_notes(out);
        assert(out@ =~= old(out)@ + render_unmarked(self@));
    }

    /// The entry as text, without the magic line.
    pub fn to_unmarked_string(&self) -> (s: String)
        ensures
            s@ == render_unmarked(self@),
    {
        let mut s = String::new();
        self.write_unmarked(&mut s);
        assert(s@ =~= render_unmarked(self@));
        s
    }

    /// The entry as text: the magic line, the label, the observations, a
    /// blank line, then tasks, events and notes, each list that is not empty
    /// closed by a blank line.
    pub fn to_string(&self) -> (s: String)
        ensures
            s@ == render(self@),
    {
        let mut s = String::new();
        push_chars(&mut s, &['#', 'c', 'o', 'a', 'c', 'h', '\n']);
        assert(s@ =~= magic_line());
        self.write_unmarked(&mut s);
        s
    }
}

/// The label of an entry that has not been given one.
pub open spec fn placeholder() -> Seq<char> {
    seq!['P', 'L', 'A', 'C', 'E', 'H', 'O', 'L', 'D', 'E', 'R']
}

impl Default for Entry {
    fn default() -> (e: Entry)
        ensures
            e@ == EntryView::bare(placeholder()),
    {
        let mut label = String::new();
        push_chars(&mut label, &['P', 'L', 'A', 'C', 'E', 'H', 'O', 'L', 'D', 'E', 'R']);
        assert(label@ =~= placeholder());
        let e = Entry {
            label: NoNewlines(label),
            observations: Vec::new(),
            tasks: Vec::new(),
            events: Vec::new(),
            notes: Vec::new(),
        };
        assert(e@.observations =~= Seq::empty());
        assert(e@.tasks =~= Seq::empty());
        assert(e@.events =~= Seq::empty());
        assert(e@.notes =~= Seq::empty());
        e
    }
}

} // verus!
