//! What holds of the format: the laws that tie reading and writing
//! together, and the facts about lines, notes and lists that they and the
//! parser rest on.

use crate::grammar::{
    after_note, body_from, event_at, event_line, event_lines, event_mark, event_on, event_parts,
    event_text, gap, is_flush, is_no_newlines, is_note, magic_line, newline, note_at, note_block,
    note_blocks, observation_at, observation_line, observation_lines, observations_from, parse_text,
    parse_unmarked, reads_back, render, render_body, render_unmarked, task_at, task_line,
    task_lines, task_on, task_text, written, Consumed, EntryView, EventView, ObservationView,
    ParseError, TaskView,
};
use crate::text::{
    after_line, first_index, first_pair, is_space, leading, leading_space, lemma_first_index_bounds,
    lemma_first_index_is, lemma_first_pair_bounds, lemma_first_pair_is, lemma_leading_bounds,
    lemma_leading_is, lemma_leading_space_bounds, lemma_leading_space_is, line, pair_at, trim_start,
};
use crate::timestamp::stamp_of_text;
use vstd::prelude::*;

verus! {

// ------------------------------------------------------------ the laws

/// Reading the text of an entry, written without the magic line, gives the
/// entry back.
pub proof fn lemma_round_trip_unmarked(e: EntryView)
    requires
        reads_back(e),
    ensures
        parse_unmarked(render_unmarked(e)) == Ok::<EntryView, ParseError>(e),
{
    let notes = note_blocks(e.notes);
    let events = event_lines(e.events) + gap(e.events.len()) + notes;
    let body = task_lines(e.tasks) + gap(e.tasks.len()) + events;
    let after = observation_lines(e.observations) + newline() + body;
    let text = render_unmarked(e);
    assert(body =~= render_body(e));
    assert(text =~= e.label + newline() + after);
    lemma_first_line(e.label, after);
    lemma_reads_observations(e.observations, body, Seq::empty());
    assert(Seq::<ObservationView>::empty() + e.observations =~= e.observations);
    let head = EntryView::bare(e.label).with_observations(e.observations);
    lemma_reads_tasks(newline(), e.tasks, events, head);
    assert(newline() + body =~= newline() + task_lines(e.tasks) + gap(e.tasks.len()) + events);
    let with_tasks = EntryView { tasks: head.tasks + e.tasks, ..head };
    let p = lead(newline(), e.tasks.len());
    lemma_reads_events(p, e.events, notes, with_tasks);
    assert(p + events =~= p + event_lines(e.events) + gap(e.events.len()) + notes);
    let with_events = EntryView { events: with_tasks.events + e.events, ..with_tasks };
    let q = lead(p, e.events.len());
    lemma_reads_notes(q, e.notes, with_events);
    assert(head.tasks + e.tasks =~= e.tasks);
    assert(with_tasks.events + e.events =~= e.events);
    assert(with_events.notes + e.notes =~= e.notes);
}

/// Reading the text of an entry gives the entry back: for every valid
/// entry with a label whose event texts are flush, `parse_text(render(e))`
/// is `e`.
pub proof fn lemma_round_trip(e: EntryView)
    requires
        reads_back(e),
    ensures
        parse_text(render(e)) == Ok::<EntryView, ParseError>(e),
{
    let text = render(e);
    assert(magic_line().is_prefix_of(text)) by {
        assert(text.subrange(0, 7) =~= magic_line());
    }
    assert(text.skip(7) =~= render_unmarked(e));
    lemma_round_trip_unmarked(e);
}

/// Writing is a function of the entry: entries with the same fields have
/// the same text, character for character.
pub proof fn lemma_render_deterministic(a: EntryView, b: EntryView)
    requires
        a.label =~= b.label,
        a.observations =~= b.observations,
        a.tasks =~= b.tasks,
        a.events =~= b.events,
        a.notes =~= b.notes,
    ensures
        render(a) == render(b),
        render_unmarked(a) == render_unmarked(b),
{
}

/// A line of the body that begins with the word of a task state is read as
/// a task, whatever follows the word: it is never an event and never the
/// head of a note, and no string that begins with such a line is a note.
pub proof fn lemma_task_word_wins(s: Seq<char>, acc: EntryView)
    requires
        s.len() > 0,
        s[0] != '\n',
        task_at(s) is Some,
    ensures
        body_from(s, acc) == body_from(after_line(s), acc.with_task(task_at(s)->0)),
        !is_note(s),
{
    lemma_leading_is(s, '\n', 0);
    assert(s.skip(0) =~= s);
}

/// A task on the last line of a text need not be ended: a label, a blank
/// line and the line of a task without the newline behind it give an entry
/// with that one task.
pub proof fn lemma_unterminated_task(label: Seq<char>, t: TaskView)
    requires
        is_no_newlines(label),
        label.len() > 0,
        t.wf(),
    ensures
        parse_unmarked(label + newline() + newline() + task_text(t)) == Ok::<
            EntryView,
            ParseError,
        >(EntryView::bare(label).with_task(t)),
        parse_text(magic_line() + (label + newline() + newline() + task_text(t))) == Ok::<
            EntryView,
            ParseError,
        >(EntryView::bare(label).with_task(t)),
{
    let l = task_text(t);
    let rest = newline() + l;
    let text = label + newline() + newline() + l;
    assert(text =~= label + newline() + rest);
    lemma_first_line(label, rest);
    assert(rest[0] == '\n');
    lemma_task_line_reads(t);
    lemma_passes_blank_lines(newline(), l);
    crate::text::lemma_first_index_absent(l, '\n');
    assert(line(l) =~= l);
    let head = EntryView::bare(label).with_observations(Seq::empty());
    lemma_reads_end(Seq::empty(), head.with_task(t));
    assert(after_line(l) =~= Seq::<char>::empty());
    assert(head == EntryView::bare(label));
    let marked = magic_line() + text;
    assert(magic_line().is_prefix_of(marked)) by {
        assert(marked.subrange(0, 7) =~= magic_line());
    }
    assert(marked.skip(7) =~= text);
}

/// A line behind the label that is not blank and holds no `": "` is taken
/// for an observation and refused, whatever follows it.
pub proof fn lemma_line_without_delimiter(label: Seq<char>, l: Seq<char>, rest: Seq<char>)
    requires
        is_no_newlines(label),
        label.len() > 0,
        is_no_newlines(l),
        l.len() > 0,
        first_pair(l, ':', ' ') == l.len(),
    ensures
        parse_unmarked(label + newline() + (l + newline() + rest)) == Err::<
            EntryView,
            ParseError,
        >(ParseError::ExpectedObservation),
{
    let after = l + newline() + rest;
    lemma_first_line(label, after);
    lemma_first_line(l, rest);
    lemma_no_newline_at(l, 0);
    assert(after[0] == l[0]);
    assert(observation_at(after) == Consumed::<ObservationView>::Problem(
        ParseError::ExpectedObservation,
    ));
}

/// The text of an entry that was read is canonical: whatever text the
/// entry was read from, reading its own text gives it back.
pub proof fn lemma_read_entries_round_trip(text: Seq<char>)
    ensures
        parse_text(text) matches Ok(e) ==> parse_text(render(e)) == Ok::<EntryView, ParseError>(e),
        parse_unmarked(text) matches Ok(e) ==> parse_unmarked(render_unmarked(e)) == Ok::<
            EntryView,
            ParseError,
        >(e),
{
    lemma_parsed_reads_back(text);
    match parse_text(text) {
        Ok(e) => lemma_round_trip(e),
        Err(_) => {},
    }
    match parse_unmarked(text) {
        Ok(e) => lemma_round_trip_unmarked(e),
        Err(_) => {},
    }
}

/// Reading gives only entries that read back: valid, with a label, and
/// with flush event texts.
pub proof fn lemma_parsed_reads_back(s: Seq<char>)
    ensures
        parse_unmarked(s) matches Ok(e) ==> reads_back(e),
        parse_text(s) matches Ok(e) ==> reads_back(e),
{
    lemma_unmarked_reads_back(s);
    lemma_unmarked_reads_back(s.skip(7));
}

proof fn lemma_unmarked_reads_back(s: Seq<char>)
    ensures
        parse_unmarked(s) matches Ok(e) ==> reads_back(e),
{
    lemma_first_index_bounds(s, '\n');
    lemma_line_has_no_newline(s);
    lemma_observations_are_valid(after_line(s), Seq::empty());
    if 0 < first_index(s, '\n') < s.len() {
        match observations_from(after_line(s), Seq::empty()) {
            Ok((observations, rest)) => {
                lemma_body_reads_back(
                    rest,
                    EntryView::bare(line(s)).with_observations(observations),
                );
            },
            Err(_) => {},
        }
    }
}

// ------------------------------------------- what reading gives is valid

/// A first line holds no newline.
pub proof fn lemma_line_has_no_newline(s: Seq<char>)
    ensures
        is_no_newlines(line(s)),
{
    lemma_first_index_bounds(s, '\n');
    let l = line(s);
    if l.contains('\n') {
        let i = choose|i: int| 0 <= i < l.len() && l[i] == '\n';
        assert(s[i] == '\n');
    }
}

/// A part of a string without newlines holds none.
pub proof fn lemma_part_has_no_newline(s: Seq<char>, from: int, to: int)
    requires
        0 <= from <= to <= s.len(),
        is_no_newlines(s),
    ensures
        is_no_newlines(s.subrange(from, to)),
{
    let p = s.subrange(from, to);
    if p.contains('\n') {
        let i = choose|i: int| 0 <= i < p.len() && p[i] == '\n';
        assert(s[from + i] == '\n');
    }
}

/// Where a text goes on after blank lines with a line that is no task and
/// no event, the note it begins with is one, and less text follows it.
pub proof fn lemma_note_at_is_note(t: Seq<char>)
    requires
        t.len() > 0,
        t[0] != '\n',
        task_at(t) is None,
        event_at(t) is NotFound,
    ensures
        is_note(note_at(t)),
        after_note(t).len() < t.len(),
{
    let n = note_at(t);
    let blank = first_pair(t, '\n', '\n');
    let end = first_index(t, '\n');
    lemma_first_pair_bounds(t, '\n', '\n');
    lemma_first_index_bounds(t, '\n');
    if blank < t.len() {
        assert(pair_at(t, blank, '\n', '\n'));
        if n.last() == '\n' {
            assert(pair_at(t, blank - 1, '\n', '\n'));
        }
    } else if t.last() == '\n' {
        if n.last() == '\n' {
            assert(pair_at(t, t.len() - 2, '\n', '\n'));
        }
    }
    assert forall|j: int| 0 <= j < n.len() implies !#[trigger] pair_at(n, j, '\n', '\n') by {
        if pair_at(n, j, '\n', '\n') {
            assert(pair_at(t, j, '\n', '\n'));
        }
    }
    lemma_first_pair_is(n, '\n', '\n', n.len() as int);
    assert(end <= n.len()) by {
        if end > n.len() {
            assert(t[n.len() as int] == '\n');
        }
    }
    lemma_first_index_is(n, '\n', end);
    assert(line(n) =~= line(t));
}

/// The observations that a text begins with are all valid, if those
/// gathered before are.
pub proof fn lemma_observations_are_valid(s: Seq<char>, acc: Seq<ObservationView>)
    requires
        forall|i: int| 0 <= i < acc.len() ==> (#[trigger] acc[i]).wf(),
    ensures
        observations_from(s, acc) matches Ok((obs, _)) ==> forall|i: int|
            0 <= i < obs.len() ==> (#[trigger] obs[i]).wf(),
    decreases s.len(),
{
    match observation_at(s) {
        Consumed::Found(o) => {
            lemma_first_index_bounds(s, '\n');
            lemma_line_has_no_newline(s);
            let l = line(s);
            let colon = first_pair(l, ':', ' ');
            lemma_first_pair_bounds(l, ':', ' ');
            assert(pair_at(l, colon, ':', ' '));
            lemma_part_has_no_newline(l, colon + 2, l.len() as int);
            assert(o.wf());
            lemma_observations_are_valid(after_line(s), acc.push(o));
        },
        _ => {},
    }
}

/// The task on a line without newlines is valid.
pub proof fn lemma_task_on_is_valid(l: Seq<char>)
    requires
        is_no_newlines(l),
    ensures
        task_on(l) matches Some(t) ==> t.wf(),
{
    if l.len() >= 5 {
        lemma_part_has_no_newline(l, 5, l.len() as int);
    }
    if l.len() >= 8 {
        lemma_part_has_no_newline(l, 8, l.len() as int);
    }
    if l.len() >= 10 {
        lemma_part_has_no_newline(l, 10, l.len() as int);
    }
}

/// The text of the event on a line without newlines holds none, and is
/// flush.
pub proof fn lemma_event_text_has_no_newline(l: Seq<char>)
    requires
        is_no_newlines(l),
    ensures
        event_parts(l) matches Consumed::Found(parts) ==> is_no_newlines(parts.text) && is_flush(
            parts.text,
        ),
{
    if event_parts(l) is Found {
        let e = l.skip(2);
        let close = first_index(e, '>');
        lemma_first_index_bounds(e, '>');
        let rest = e.skip(close + 1);
        lemma_leading_space_bounds(rest);
        lemma_part_has_no_newline(l, 2, l.len() as int);
        lemma_part_has_no_newline(e, close + 1, e.len() as int);
        lemma_part_has_no_newline(rest, leading_space(rest), rest.len() as int);
    }
}

/// The event on a line without newlines is valid, and its text is flush.
pub proof fn lemma_event_on_is_valid(l: Seq<char>)
    requires
        is_no_newlines(l),
    ensures
        event_on(l) matches Consumed::Found(e) ==> e.wf() && is_flush(e.text),
{
    lemma_event_text_has_no_newline(l);
}

/// The body of a text adds only valid tasks, events and notes, and only
/// events with flush texts.
pub proof fn lemma_body_reads_back(s: Seq<char>, acc: EntryView)
    requires
        reads_back(acc),
    ensures
        body_from(s, acc) matches Ok(e) ==> reads_back(e),
    decreases s.len(),
{
    let t = s.skip(leading(s, '\n'));
    lemma_leading_bounds(s, '\n');
    if t.len() > 0 {
        lemma_first_index_bounds(t, '\n');
        lemma_first_pair_bounds(t, '\n', '\n');
        lemma_line_has_no_newline(t);
        lemma_task_on_is_valid(line(t));
        lemma_event_on_is_valid(line(t));
        match task_at(t) {
            Some(task) => {
                lemma_body_reads_back(after_line(t), acc.with_task(task));
            },
            None => match event_at(t) {
                Consumed::Found(event) => {
                    lemma_body_reads_back(after_line(t), acc.with_event(event));
                },
                Consumed::Problem(_) => {},
                Consumed::NotFound => {
                    lemma_note_at_is_note(t);
                    lemma_body_reads_back(after_note(t), acc.with_note(note_at(t)));
                },
            },
        }
    }
}

// ------------------------------------------------- reading what was written

/// A run of newlines.
pub open spec fn newline_only(p: Seq<char>) -> bool {
    forall|i: int| 0 <= i < p.len() ==> p[i] == '\n'
}

/// What stands before the next list: the blank line that closed the list
/// before it, or what stood before that list where it was empty.
pub open spec fn lead(p: Seq<char>, before: nat) -> Seq<char> {
    if before > 0 {
        newline()
    } else {
        p
    }
}

/// No position of a string without newlines holds one.
proof fn lemma_no_newline_at(s: Seq<char>, i: int)
    requires
        is_no_newlines(s),
        0 <= i < s.len(),
    ensures
        s[i] != '\n',
{
    if s[i] == '\n' {
        assert(s.contains('\n'));
    }
}

/// Blank lines before a piece of text that begins with another character
/// are passed over.
proof fn lemma_passes_blank_lines(p: Seq<char>, body: Seq<char>)
    requires
        newline_only(p),
        body.len() > 0,
        body[0] != '\n',
    ensures
        (p + body).skip(leading(p + body, '\n')) == body,
{
    let s = p + body;
    assert(s[p.len() as int] == body[0]);
    lemma_leading_is(s, '\n', p.len() as int);
    assert(s.skip(p.len() as int) =~= body);
}

/// The first line of `head + "\n" + rest`, where `head` holds no newline,
/// is `head`, and `rest` follows it.
proof fn lemma_first_line(head: Seq<char>, rest: Seq<char>)
    requires
        is_no_newlines(head),
    ensures
        first_index(head + newline() + rest, '\n') == head.len(),
        line(head + newline() + rest) == head,
        after_line(head + newline() + rest) == rest,
{
    let s = head + newline() + rest;
    assert forall|j: int| 0 <= j < head.len() implies s[j] != '\n' by {
        lemma_no_newline_at(head, j);
        assert(s[j] == head[j]);
    }
    assert(s[head.len() as int] == '\n');
    lemma_first_index_is(s, '\n', head.len() as int);
    assert(line(s) =~= head);
    assert(after_line(s) =~= rest);
}

/// The line of a valid task is read as that task.
proof fn lemma_task_line_reads(t: TaskView)
    requires
        t.wf(),
    ensures
        is_no_newlines(t.word() + t.message()),
        task_on(t.word() + t.message()) == Some(t),
        (t.word() + t.message()).len() > 0,
        (t.word() + t.message())[0] != '\n',
{
    let w = t.word();
    let m = t.message();
    let l = w + m;
    assert(is_no_newlines(l)) by {
        if l.contains('\n') {
            let i = choose|i: int| 0 <= i < l.len() && l[i] == '\n';
            if i < w.len() {
                assert(l[i] == w[i]);
            } else {
                lemma_no_newline_at(m, i - w.len());
                assert(l[i] == m[i - w.len()]);
            }
        }
    }
    assert(w.is_prefix_of(l)) by {
        assert(l.subrange(0, w.len() as int) =~= w);
    }
    assert(l.skip(w.len() as int) =~= m);
    assert(l[0] == w[0]);
    match t {
        TaskView::Todo(_) => {},
        TaskView::Working(_) => {
            assert(!crate::grammar::todo_word().is_prefix_of(l)) by {
                if crate::grammar::todo_word().is_prefix_of(l) {
                    assert(l.subrange(0, 5)[0] == 'T');
                }
            }
        },
        TaskView::Done(_) => {
            assert(!crate::grammar::todo_word().is_prefix_of(l)) by {
                if crate::grammar::todo_word().is_prefix_of(l) {
                    assert(l.subrange(0, 5)[0] == 'T');
                }
            }
            assert(!crate::grammar::working_word().is_prefix_of(l)) by {
                if crate::grammar::working_word().is_prefix_of(l) {
                    assert(l.subrange(0, 8)[0] == 'W');
                }
            }
        },
        TaskView::Cancelled(_) => {
            assert(!crate::grammar::todo_word().is_prefix_of(l)) by {
                if crate::grammar::todo_word().is_prefix_of(l) {
                    assert(l.subrange(0, 5)[0] == 'T');
                }
            }
            assert(!crate::grammar::working_word().is_prefix_of(l)) by {
                if crate::grammar::working_word().is_prefix_of(l) {
                    assert(l.subrange(0, 8)[0] == 'W');
                }
            }
            assert(!crate::grammar::done_word().is_prefix_of(l)) by {
                if crate::grammar::done_word().is_prefix_of(l) {
                    assert(l.subrange(0, 5)[0] == 'D');
                }
            }
        },
    }
}

/// A written task, after any blank lines, is read as that task, and
/// reading goes on behind its line.
proof fn lemma_reads_task(p: Seq<char>, t: TaskView, rest: Seq<char>, acc: EntryView)
    requires
        newline_only(p),
        t.wf(),
    ensures
        body_from(p + task_line(t) + rest, acc) == body_from(rest, acc.with_task(t)),
{
    let l = t.word() + t.message();
    let body = l + newline() + rest;
    lemma_task_line_reads(t);
    lemma_first_line(l, rest);
    assert(body[0] == l[0]);
    lemma_passes_blank_lines(p, body);
    assert(p + task_line(t) + rest =~= p + body);
}

/// Strings without newlines, put together, hold none.
proof fn lemma_joined_has_no_newline(a: Seq<char>, b: Seq<char>)
    requires
        is_no_newlines(a),
        is_no_newlines(b),
    ensures
        is_no_newlines(a + b),
{
    let l = a + b;
    if l.contains('\n') {
        let i = choose|i: int| 0 <= i < l.len() && l[i] == '\n';
        if i < a.len() {
            lemma_no_newline_at(a, i);
            assert(l[i] == a[i]);
        } else {
            lemma_no_newline_at(b, i - a.len());
            assert(l[i] == b[i - a.len()]);
        }
    }
}

/// A line that begins with `*` is no task.
proof fn lemma_starred_is_no_task(l: Seq<char>)
    requires
        l.len() > 0,
        l[0] == '*',
    ensures
        task_on(l) is None,
{
    if crate::grammar::todo_word().is_prefix_of(l) {
        assert(l.subrange(0, 5)[0] == 'T');
    }
    if crate::grammar::working_word().is_prefix_of(l) {
        assert(l.subrange(0, 8)[0] == 'W');
    }
    if crate::grammar::done_word().is_prefix_of(l) {
        assert(l.subrange(0, 5)[0] == 'D');
    }
    if crate::grammar::cancelled_word().is_prefix_of(l) {
        assert(l.subrange(0, 10)[0] == 'C');
    }
}

/// In `<w> text`, where `w` holds no `>`, the first `>` is the one behind
/// `w`, with `w` before it and a blank and the text behind it.
proof fn lemma_brackets(w: Seq<char>, text: Seq<char>)
    requires
        !w.contains('>'),
    ensures
        ({
            let inner = seq!['<'] + w + seq!['>', ' '] + text;
            &&& inner[0] == '<'
            &&& first_index(inner, '>') == w.len() + 1
            &&& inner.subrange(1, w.len() as int + 1) == w
            &&& inner.skip(w.len() as int + 2) == seq![' '] + text
        }),
{
    let inner = seq!['<'] + w + seq!['>', ' '] + text;
    let close: int = w.len() as int + 1;
    assert forall|j: int| 0 <= j < close implies inner[j] != '>' by {
        if j > 0 {
            assert(inner[j] == w[j - 1]);
            if w[j - 1] == '>' {
                assert(w.contains('>'));
            }
        }
    }
    assert(inner[close] == '>');
    lemma_first_index_is(inner, '>', close);
    assert(inner.subrange(1, close) =~= w);
    assert(inner.skip(close + 1) =~= seq![' '] + text);
}

/// A blank before a flush text is all the white space before it.
proof fn lemma_trims_the_blank(text: Seq<char>)
    requires
        is_flush(text),
    ensures
        trim_start(seq![' '] + text) == text,
{
    let tail = seq![' '] + text;
    assert(is_space(' '));
    assert(tail[0] == ' ');
    if text.len() > 0 {
        assert(tail[1] == text[0]);
    }
    lemma_leading_space_is(tail, 1);
    assert(tail.skip(1) =~= text);
}

/// The line of a valid event whose text is flush is read as that event.
proof fn lemma_event_line_reads(e: EventView)
    requires
        e.wf(),
        is_flush(e.text),
    ensures
        is_no_newlines(event_mark() + event_text(e)),
        task_on(event_mark() + event_text(e)) is None,
        event_on(event_mark() + event_text(e)) == Consumed::Found(e),
        (event_mark() + event_text(e))[0] != '\n',
{
    let w = written(e.when);
    let inner = event_text(e);
    let l = event_mark() + inner;
    assert(is_no_newlines(seq!['<'])) by {
        if seq!['<'].contains('\n') {
            let i = choose|i: int| 0 <= i < seq!['<'].len() && seq!['<'][i] == '\n';
        }
    }
    assert(is_no_newlines(seq!['>', ' '])) by {
        if seq!['>', ' '].contains('\n') {
            let i = choose|i: int| 0 <= i < seq!['>', ' '].len() && seq!['>', ' '][i] == '\n';
        }
    }
    assert(is_no_newlines(event_mark())) by {
        if event_mark().contains('\n') {
            let i = choose|i: int| 0 <= i < event_mark().len() && event_mark()[i] == '\n';
        }
    }
    lemma_joined_has_no_newline(seq!['<'], w);
    lemma_joined_has_no_newline(seq!['<'] + w, seq!['>', ' ']);
    lemma_joined_has_no_newline(seq!['<'] + w + seq!['>', ' '], e.text);
    lemma_joined_has_no_newline(event_mark(), inner);
    assert(l[0] == '*');
    lemma_starred_is_no_task(l);
    assert(event_mark().is_prefix_of(l)) by {
        assert(l.subrange(0, 2) =~= event_mark());
    }
    assert(l.skip(2) =~= inner);
    lemma_brackets(w, e.text);
    lemma_trims_the_blank(e.text);
    assert(stamp_of_text(w) == Some(e.when));
}

/// A written event, after any blank lines, is read as that event, and
/// reading goes on behind its line.
proof fn lemma_reads_event(p: Seq<char>, e: EventView, rest: Seq<char>, acc: EntryView)
    requires
        newline_only(p),
        e.wf(),
        is_flush(e.text),
    ensures
        body_from(p + event_line(e) + rest, acc) == body_from(rest, acc.with_event(e)),
{
    let l = event_mark() + event_text(e);
    let body = l + newline() + rest;
    lemma_event_line_reads(e);
    lemma_first_line(l, rest);
    assert(body[0] == l[0]);
    lemma_passes_blank_lines(p, body);
    assert(p + event_line(e) + rest =~= p + body);
}

/// A written note, after any blank lines, is read as that note, and
/// reading goes on at the second newline behind it.
proof fn lemma_reads_note(p: Seq<char>, n: Seq<char>, rest: Seq<char>, acc: EntryView)
    requires
        newline_only(p),
        is_note(n),
    ensures
        body_from(p + note_block(n) + rest, acc) == body_from(
            newline() + rest,
            acc.with_note(n),
        ),
{
    let body = n + newline() + newline() + rest;
    let end = first_index(n, '\n');
    lemma_first_index_bounds(n, '\n');
    lemma_first_pair_bounds(n, '\n', '\n');
    assert(body[0] == n[0]);
    lemma_passes_blank_lines(p, body);
    assert(p + note_block(n) + rest =~= p + body);
    assert forall|j: int| 0 <= j < end implies body[j] != '\n' by {
        assert(body[j] == n[j]);
    }
    if end < n.len() {
        assert(body[end] == n[end]);
    } else {
        assert(body[end] == '\n');
    }
    lemma_first_index_is(body, '\n', end);
    assert(line(body) =~= line(n));
    assert forall|j: int| 0 <= j < n.len() implies !#[trigger] pair_at(body, j, '\n', '\n') by {
        if j + 1 < n.len() {
            assert(!pair_at(n, j, '\n', '\n'));
            assert(body[j] == n[j]);
            assert(body[j + 1] == n[j + 1]);
        } else {
            assert(body[j] == n.last());
        }
    }
    assert(pair_at(body, n.len() as int, '\n', '\n'));
    lemma_first_pair_is(body, '\n', '\n', n.len() as int);
    assert(note_at(body) =~= n);
    assert(after_note(body) =~= newline() + rest);
}

/// Where only blank lines are left, reading ends.
proof fn lemma_reads_end(p: Seq<char>, acc: EntryView)
    requires
        newline_only(p),
    ensures
        body_from(p, acc) == Ok::<EntryView, ParseError>(acc),
{
    lemma_leading_is(p, '\n', p.len() as int);
}

/// The first of a list of lines stands before the lines of the others.
proof fn lemma_task_lines_first(ts: Seq<TaskView>)
    requires
        ts.len() > 0,
    ensures
        task_lines(ts) == task_line(ts[0]) + task_lines(ts.drop_first()),
{
    let f = |t: TaskView| task_line(t);
    assert(ts.map_values(f).drop_first() =~= ts.drop_first().map_values(f));
}

proof fn lemma_event_lines_first(es: Seq<EventView>)
    requires
        es.len() > 0,
    ensures
        event_lines(es) == event_line(es[0]) + event_lines(es.drop_first()),
{
    let f = |e: EventView| event_line(e);
    assert(es.map_values(f).drop_first() =~= es.drop_first().map_values(f));
}

proof fn lemma_note_blocks_first(ns: Seq<Seq<char>>)
    requires
        ns.len() > 0,
    ensures
        note_blocks(ns) == note_block(ns[0]) + note_blocks(ns.drop_first()),
{
    let f = |n: Seq<char>| note_block(n);
    assert(ns.map_values(f).drop_first() =~= ns.drop_first().map_values(f));
}

proof fn lemma_observation_lines_first(os: Seq<ObservationView>)
    requires
        os.len() > 0,
    ensures
        observation_lines(os) == observation_line(os[0]) + observation_lines(os.drop_first()),
{
    let f = |o: ObservationView| observation_line(o);
    assert(os.map_values(f).drop_first() =~= os.drop_first().map_values(f));
}

/// Written tasks and the blank line that closes them are read as those
/// tasks, in order.
proof fn lemma_reads_tasks(p: Seq<char>, ts: Seq<TaskView>, rest: Seq<char>, acc: EntryView)
    requires
        newline_only(p),
        forall|i: int| 0 <= i < ts.len() ==> (#[trigger] ts[i]).wf(),
    ensures
        body_from(p + task_lines(ts) + gap(ts.len()) + rest, acc) == body_from(
            lead(p, ts.len()) + rest,
            EntryView { tasks: acc.tasks + ts, ..acc },
        ),
    decreases ts.len(),
{
    if ts.len() == 0 {
        assert(task_lines(ts) =~= Seq::empty());
        assert(p + task_lines(ts) + gap(ts.len()) + rest =~= p + rest);
        assert(acc.tasks + ts =~= acc.tasks);
    } else {
        let tail = ts.drop_first();
        let after = task_lines(tail) + gap(ts.len()) + rest;
        lemma_task_lines_first(ts);
        assert(p + task_lines(ts) + gap(ts.len()) + rest =~= p + task_line(ts[0]) + after);
        lemma_reads_task(p, ts[0], after, acc);
        let next = acc.with_task(ts[0]);
        assert(next.tasks + tail =~= acc.tasks + ts);
        if tail.len() == 0 {
            assert(task_lines(tail) =~= Seq::empty());
            assert(after =~= newline() + rest);
            assert(next.tasks =~= acc.tasks + ts);
        } else {
            assert(Seq::<char>::empty() + task_lines(tail) + gap(tail.len()) + rest =~= after);
            lemma_reads_tasks(Seq::empty(), tail, rest, next);
        }
    }
}

/// Written events and the blank line that closes them are read as those
/// events, in order.
proof fn lemma_reads_events(p: Seq<char>, es: Seq<EventView>, rest: Seq<char>, acc: EntryView)
    requires
        newline_only(p),
        forall|i: int| 0 <= i < es.len() ==> (#[trigger] es[i]).wf() && is_flush(es[i].text),
    ensures
        body_from(p + event_lines(es) + gap(es.len()) + rest, acc) == body_from(
            lead(p, es.len()) + rest,
            EntryView { events: acc.events + es, ..acc },
        ),
    decreases es.len(),
{
    if es.len() == 0 {
        assert(event_lines(es) =~= Seq::empty());
        assert(p + event_lines(es) + gap(es.len()) + rest =~= p + rest);
        assert(acc.events + es =~= acc.events);
    } else {
        let tail = es.drop_first();
        let after = event_lines(tail) + gap(es.len()) + rest;
        lemma_event_lines_first(es);
        assert(p + event_lines(es) + gap(es.len()) + rest =~= p + event_line(es[0]) + after);
        lemma_reads_event(p, es[0], after, acc);
        let next = acc.with_event(es[0]);
        assert(next.events + tail =~= acc.events + es);
        if tail.len() == 0 {
            assert(event_lines(tail) =~= Seq::empty());
            assert(after =~= newline() + rest);
            assert(next.events =~= acc.events + es);
        } else {
            assert(Seq::<char>::empty() + event_lines(tail) + gap(tail.len()) + rest =~= after);
            assert forall|i: int| 0 <= i < tail.len() implies (#[trigger] tail[i]).wf()
                && is_flush(tail[i].text) by {
                assert(tail[i] == es[i + 1]);
            }
            lemma_reads_events(Seq::empty(), tail, rest, next);
        }
    }
}

/// Written notes at the end of a text are read as those notes, in order.
proof fn lemma_reads_notes(p: Seq<char>, ns: Seq<Seq<char>>, acc: EntryView)
    requires
        newline_only(p),
        forall|i: int| 0 <= i < ns.len() ==> is_note(#[trigger] ns[i]),
    ensures
        body_from(p + note_blocks(ns), acc) == Ok::<EntryView, ParseError>(
            EntryView { notes: acc.notes + ns, ..acc },
        ),
    decreases ns.len(),
{
    if ns.len() == 0 {
        assert(note_blocks(ns) =~= Seq::empty());
        assert(p + note_blocks(ns) =~= p);
        assert(acc.notes + ns =~= acc.notes);
        lemma_reads_end(p, acc);
    } else {
        let tail = ns.drop_first();
        lemma_note_blocks_first(ns);
        assert(p + note_blocks(ns) =~= p + note_block(ns[0]) + note_blocks(tail));
        lemma_reads_note(p, ns[0], note_blocks(tail), acc);
        let next = acc.with_note(ns[0]);
        assert(next.notes + tail =~= acc.notes + ns);
        assert forall|i: int| 0 <= i < tail.len() implies is_note(#[trigger] tail[i]) by {
            assert(tail[i] == ns[i + 1]);
        }
        lemma_reads_notes(newline(), tail, next);
    }
}

/// Written observations, with a blank line behind them, are read as those
/// observations, in order, and the blank line is left.
proof fn lemma_reads_observations(
    os: Seq<ObservationView>,
    rest: Seq<char>,
    acc: Seq<ObservationView>,
)
    requires
        forall|i: int| 0 <= i < os.len() ==> (#[trigger] os[i]).wf(),
    ensures
        observations_from(observation_lines(os) + newline() + rest, acc) == Ok::<
            (Seq<ObservationView>, Seq<char>),
            ParseError,
        >((acc + os, newline() + rest)),
    decreases os.len(),
{
    let s = observation_lines(os) + newline() + rest;
    if os.len() == 0 {
        assert(observation_lines(os) =~= Seq::empty());
        assert(s =~= newline() + rest);
        assert(s[0] == '\n');
        assert(acc + os =~= acc);
    } else {
        let o = os[0];
        let tail = os.drop_first();
        let l = o.name + seq![':', ' '] + o.value;
        let after = observation_lines(tail) + newline() + rest;
        lemma_observation_lines_first(os);
        assert(s =~= l + newline() + after);
        assert(is_no_newlines(l)) by {
            if l.contains('\n') {
                let i = choose|i: int| 0 <= i < l.len() && l[i] == '\n';
                if i < o.name.len() {
                    lemma_no_newline_at(o.name, i);
                    assert(l[i] == o.name[i]);
                } else if i >= o.name.len() + 2 {
                    lemma_no_newline_at(o.value, i - o.name.len() - 2);
                    assert(l[i] == o.value[i - o.name.len() - 2]);
                }
            }
        }
        lemma_first_line(l, after);
        assert(s[0] == o.name[0]);
        lemma_no_newline_at(o.name, 0);
        let colon = o.name.len() as int;
        assert forall|j: int| 0 <= j < colon implies !#[trigger] pair_at(l, j, ':', ' ') by {
            assert(l[j] == o.name[j]);
            if o.name[j] == ':' {
                assert(o.name.contains(':'));
            }
        }
        assert(pair_at(l, colon, ':', ' '));
        lemma_first_pair_is(l, ':', ' ', colon);
        assert(l.take(colon) =~= o.name);
        assert(l.skip(colon + 2) =~= o.value);
        assert(observation_at(s) == Consumed::Found(o));
        assert forall|i: int| 0 <= i < tail.len() implies (#[trigger] tail[i]).wf() by {
            assert(tail[i] == os[i + 1]);
        }
        lemma_reads_observations(tail, rest, acc.push(o));
        assert(acc.push(o) + tail =~= acc + os);
    }
}

} // verus!
