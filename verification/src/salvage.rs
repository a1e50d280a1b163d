//! Values made from any text at all: the part of a text that can stand as a
//! line, as a name or as a note. Generators of random entries build on
//! these.

use crate::entry::{as_observation_name, promise_nonempty_note, NoNewlines, Note, ObservationName};
use crate::grammar::{is_note, is_observation_name};
use crate::parser::is_note_text;
use crate::text::{
    chars_of, find_char, find_pair, first_index, first_pair, lemma_first_index_bounds,
    lemma_first_pair_bounds, lemma_trailing_is, line, string_of, trailing,
};
use vstd::prelude::*;
use vstd::slice::slice_subrange;

verus! {

/// What stands before the first newline or colon of a text.
pub open spec fn name_part(s: Seq<char>) -> Seq<char> {
    let newline = first_index(s, '\n');
    let colon = first_index(s, ':');
    s.take(if newline <= colon { newline } else { colon })
}

/// The first of `t`, `t` without its first character, and so on, that is a
/// note; `"x"` where none is.
pub open spec fn first_note(t: Seq<char>) -> Seq<char>
    decreases t.len(),
{
    if t.len() == 0 {
        seq!['x']
    } else if is_note(t) {
        t
    } else {
        first_note(t.drop_first())
    }
}

/// The note that is left of a text: of what stands before its first blank
/// line, without the newlines at its end, the first part that is a note.
pub open spec fn note_part(s: Seq<char>) -> Seq<char> {
    let head = s.take(first_pair(s, '\n', '\n'));
    first_note(head.take(head.len() - trailing(head, '\n')))
}

/// The first line of a text, as a string without newlines.
pub fn line_of(raw: &str) -> (r: NoNewlines)
    ensures
        r@ == line(raw@),
{
    let chars = chars_of(raw);
    let end = find_char(chars.as_slice(), '\n');
    proof {
        lemma_first_index_bounds(chars@, '\n');
        crate::laws::lemma_line_has_no_newline(chars@);
    }
    NoNewlines::promise(string_of(slice_subrange(chars.as_slice(), 0, end)))
}

/// What stands before the first newline or colon of a text, as the name of
/// an observation; nothing stands there where the text begins with one.
pub fn name_of(raw: &str) -> (r: Option<ObservationName>)
    ensures
        r is Some <==> name_part(raw@).len() > 0,
        r is Some ==> r->0@ == name_part(raw@),
{
    let chars = chars_of(raw);
    let newline = find_char(chars.as_slice(), '\n');
    let colon = find_char(chars.as_slice(), ':');
    let end = if newline <= colon {
        newline
    } else {
        colon
    };
    proof {
        lemma_first_index_bounds(chars@, '\n');
        lemma_first_index_bounds(chars@, ':');
        let part = name_part(raw@);
        if part.contains('\n') {
            let i = choose|i: int| 0 <= i < part.len() && part[i] == '\n';
            assert(chars@[i] == '\n');
        }
        if part.contains(':') {
            let i = choose|i: int| 0 <= i < part.len() && part[i] == ':';
            assert(chars@[i] == ':');
        }
        assert(is_observation_name(part) <==> part.len() > 0);
    }
    as_observation_name(string_of(slice_subrange(chars.as_slice(), 0, end)))
}

/// The note that is left of a text.
pub fn note_of(raw: &str) -> (r: Note)
    ensures
        r@ == note_part(raw@),
{
    let chars = chars_of(raw);
    let blank = find_pair(chars.as_slice(), '\n', '\n');
    proof {
        lemma_first_pair_bounds(chars@, '\n', '\n');
    }
    let head = slice_subrange(chars.as_slice(), 0, blank);
    let mut n: usize = head.len();
    while n > 0 && head[n - 1] == '\n'
        invariant
            n <= head.len(),
            forall|j: int| n <= j < head.len() ==> head@[j] == '\n',
        decreases n,
    {
        n -= 1;
    }
    proof {
        lemma_trailing_is(head@, '\n', head.len() - n);
    }
    let mut s = slice_subrange(head, 0, n);
    while s.len() > 0
        invariant
            first_note(s@) == note_part(raw@),
        decreases s@.len(),
    {
        if is_note_text(s) {
            return promise_nonempty_note(string_of(s));
        }
        assert(s@.drop_first() =~= s@.subrange(1, s@.len() as int));
        s = slice_subrange(s, 1, s.len());
    }
    let mut x = String::new();
    x.push('x');
    proof {
        let t = seq!['x'];
        assert(x@ =~= t);
        assert(first_index(t, '\n') == 1) by {
            crate::text::lemma_first_index_is(t, '\n', 1);
        }
        assert(line(t) =~= t);
    }
    promise_nonempty_note(x)
}

} // verus!
