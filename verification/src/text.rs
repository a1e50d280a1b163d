//! Character sequences: the searches and trims that the entry grammar is
//! written in, each as a specification over `Seq<char>` and as an executable
//! function over a slice of characters.

use vstd::prelude::*;
use vstd::slice::slice_subrange;

verus! {

/// `String::push` appends one character to the end of the string.
pub assume_specification[ String::push ](s: &mut String, c: char)
    ensures
        final(s)@ == old(s)@.push(c),
;

/// Position of the first `c` in `s`; `s.len()` where `s` holds none.
pub open spec fn first_index(s: Seq<char>, c: char) -> int
    decreases s.len(),
{
    if s.len() == 0 || s[0] == c {
        0
    } else {
        1 + first_index(s.drop_first(), c)
    }
}

/// Position of the first place in `s` where `a` is directly followed by `b`;
/// `s.len()` where there is no such place.
pub open spec fn first_pair(s: Seq<char>, a: char, b: char) -> int
    decreases s.len(),
{
    if s.len() < 2 {
        s.len() as int
    } else if s[0] == a && s[1] == b {
        0
    } else {
        1 + first_pair(s.drop_first(), a, b)
    }
}

/// Whether `a` stands at position `j` of `s` with `b` directly behind it.
pub open spec fn pair_at(s: Seq<char>, j: int, a: char, b: char) -> bool {
    0 <= j && j + 1 < s.len() && s[j] == a && s[j + 1] == b
}

/// Number of copies of `c` that `s` begins with.
pub open spec fn leading(s: Seq<char>, c: char) -> int
    decreases s.len(),
{
    if s.len() == 0 || s[0] != c {
        0
    } else {
        1 + leading(s.drop_first(), c)
    }
}

/// Number of copies of `c` that `s` ends with.
pub open spec fn trailing(s: Seq<char>, c: char) -> int
    decreases s.len(),
{
    if s.len() == 0 || s.last() != c {
        0
    } else {
        1 + trailing(s.drop_last(), c)
    }
}

/// `s` without the copies of `c` that it begins and ends with.
pub open spec fn strip(s: Seq<char>, c: char) -> Seq<char> {
    let t = s.skip(leading(s, c));
    t.take(t.len() - trailing(t, c))
}

/// The first line of `s`: everything before its first newline, all of `s`
/// where it holds none.
pub open spec fn line(s: Seq<char>) -> Seq<char> {
    s.take(first_index(s, '\n'))
}

/// What follows the first line of `s` and the newline that ends it; empty
/// where the line is not ended.
pub open spec fn after_line(s: Seq<char>) -> Seq<char> {
    if first_index(s, '\n') < s.len() {
        s.skip(first_index(s, '\n') + 1)
    } else {
        Seq::empty()
    }
}

/// The characters with the Unicode property `White_Space`.
pub open spec fn is_space(c: char) -> bool {
    let n = c as u32;
    ||| 0x09 <= n <= 0x0d
    ||| n == 0x20
    ||| n == 0x85
    ||| n == 0xa0
    ||| n == 0x1680
    ||| 0x2000 <= n <= 0x200a
    ||| n == 0x2028
    ||| n == 0x2029
    ||| n == 0x202f
    ||| n == 0x205f
    ||| n == 0x3000
}

/// Number of white-space characters that `s` begins with.
pub open spec fn leading_space(s: Seq<char>) -> int
    decreases s.len(),
{
    if s.len() == 0 || !is_space(s[0]) {
        0
    } else {
        1 + leading_space(s.drop_first())
    }
}

/// Number of white-space characters that `s` ends with.
pub open spec fn trailing_space(s: Seq<char>) -> int
    decreases s.len(),
{
    if s.len() == 0 || !is_space(s.last()) {
        0
    } else {
        1 + trailing_space(s.drop_last())
    }
}

/// `s` without the white space it begins with.
pub open spec fn trim_start(s: Seq<char>) -> Seq<char> {
    s.skip(leading_space(s))
}

/// `s` without the white space it begins and ends with.
pub open spec fn trim(s: Seq<char>) -> Seq<char> {
    let t = trim_start(s);
    t.take(t.len() - trailing_space(t))
}

/// `first_index` lies within the string or at its end, `c` stands there if
/// it lies within, and no `c` stands before it.
pub proof fn lemma_first_index_bounds(s: Seq<char>, c: char)
    ensures
        0 <= first_index(s, c) <= s.len(),
        first_index(s, c) < s.len() ==> s[first_index(s, c)] == c,
        forall|j: int| 0 <= j < first_index(s, c) ==> s[j] != c,
    decreases s.len(),
{
    if s.len() == 0 || s[0] == c {
    } else {
        let t = s.drop_first();
        lemma_first_index_bounds(t, c);
        assert forall|j: int| 0 <= j < first_index(s, c) implies s[j] != c by {
            if j > 0 {
                assert(s[j] == t[j - 1]);
            }
        }
    }
}

/// `first_index` is the one position before which no `c` stands and at
/// which one does, or the end.
pub proof fn lemma_first_index_is(s: Seq<char>, c: char, i: int)
    requires
        0 <= i <= s.len(),
        forall|j: int| 0 <= j < i ==> s[j] != c,
        i < s.len() ==> s[i] == c,
    ensures
        first_index(s, c) == i,
{
    lemma_first_index_bounds(s, c);
    let k = first_index(s, c);
    if k < i {
        assert(s[k] != c);
    } else if i < k {
        assert(s[i] != c);
    }
}

/// `s` holds no `c` exactly where `first_index` runs to its end.
pub proof fn lemma_first_index_absent(s: Seq<char>, c: char)
    ensures
        0 <= first_index(s, c) <= s.len(),
        first_index(s, c) == s.len() <==> !s.contains(c),
{
    lemma_first_index_bounds(s, c);
    if s.contains(c) {
        let i = choose|i: int| 0 <= i < s.len() && s[i] == c;
        assert(s[i] == c);
    }
}

/// `first_pair` lies within the string or at its end, the pair stands there
/// if it lies within, and no pair stands before it.
pub proof fn lemma_first_pair_bounds(s: Seq<char>, a: char, b: char)
    ensures
        0 <= first_pair(s, a, b) <= s.len(),
        first_pair(s, a, b) < s.len() ==> pair_at(s, first_pair(s, a, b), a, b),
        forall|j: int| 0 <= j < first_pair(s, a, b) ==> !#[trigger] pair_at(s, j, a, b),
    decreases s.len(),
{
    if s.len() < 2 {
    } else if s[0] == a && s[1] == b {
    } else {
        let t = s.drop_first();
        lemma_first_pair_bounds(t, a, b);
        assert forall|j: int| 0 <= j < first_pair(s, a, b) implies !#[trigger] pair_at(
            s,
            j,
            a,
            b,
        ) by {
            if j > 0 {
                assert(!pair_at(t, j - 1, a, b));
                if j + 1 < s.len() {
                    assert(s[j] == t[j - 1]);
                    assert(s[j + 1] == t[j]);
                }
            }
        }
    }
}

/// `first_pair` is the one position at which the pair stands with none
/// before it, or the end.
pub proof fn lemma_first_pair_is(s: Seq<char>, a: char, b: char, i: int)
    requires
        0 <= i <= s.len(),
        forall|j: int| 0 <= j < i ==> !#[trigger] pair_at(s, j, a, b),
        i < s.len() ==> pair_at(s, i, a, b),
    ensures
        first_pair(s, a, b) == i,
{
    lemma_first_pair_bounds(s, a, b);
    let k = first_pair(s, a, b);
    if k < i {
        assert(!pair_at(s, k, a, b));
    } else if i < k {
        assert(!pair_at(s, i, a, b));
    }
}

/// `leading` counts copies of `c` and stops at the first other character.
pub proof fn lemma_leading_bounds(s: Seq<char>, c: char)
    ensures
        0 <= leading(s, c) <= s.len(),
        leading(s, c) < s.len() ==> s[leading(s, c)] != c,
        forall|j: int| 0 <= j < leading(s, c) ==> s[j] == c,
    decreases s.len(),
{
    if s.len() == 0 || s[0] != c {
    } else {
        let t = s.drop_first();
        lemma_leading_bounds(t, c);
        assert forall|j: int| 0 <= j < leading(s, c) implies s[j] == c by {
            if j > 0 {
                assert(s[j] == t[j - 1]);
            }
        }
    }
}

/// `leading` is the one length of a run of `c` from the start that another
/// character, or the end, follows.
pub proof fn lemma_leading_is(s: Seq<char>, c: char, i: int)
    requires
        0 <= i <= s.len(),
        forall|j: int| 0 <= j < i ==> s[j] == c,
        i < s.len() ==> s[i] != c,
    ensures
        leading(s, c) == i,
{
    lemma_leading_bounds(s, c);
    let k = leading(s, c);
    if k < i {
        assert(s[k] == c);
    } else if i < k {
        assert(s[i] == c);
    }
}

/// `trailing` counts copies of `c` and stops at the last other character.
pub proof fn lemma_trailing_bounds(s: Seq<char>, c: char)
    ensures
        0 <= trailing(s, c) <= s.len(),
        trailing(s, c) < s.len() ==> s[s.len() - 1 - trailing(s, c)] != c,
        forall|j: int| s.len() - trailing(s, c) <= j < s.len() ==> s[j] == c,
    decreases s.len(),
{
    if s.len() == 0 || s.last() != c {
    } else {
        let t = s.drop_last();
        lemma_trailing_bounds(t, c);
        assert forall|j: int| s.len() - trailing(s, c) <= j < s.len() implies s[j] == c by {
            if j < s.len() - 1 {
                assert(s[j] == t[j]);
            }
        }
        if trailing(s, c) < s.len() {
            assert(s[s.len() - 1 - trailing(s, c)] == t[t.len() - 1 - trailing(t, c)]);
        }
    }
}

/// `trailing` is the one length of a run of `c` to the end that another
/// character, or the start, stands before.
pub proof fn lemma_trailing_is(s: Seq<char>, c: char, k: int)
    requires
        0 <= k <= s.len(),
        forall|j: int| s.len() - k <= j < s.len() ==> s[j] == c,
        k < s.len() ==> s[s.len() - 1 - k] != c,
    ensures
        trailing(s, c) == k,
{
    lemma_trailing_bounds(s, c);
    let t = trailing(s, c);
    if t < k {
        assert(s[s.len() - 1 - t] == c);
    } else if k < t {
        assert(s[s.len() - 1 - k] == c);
    }
}

/// `leading_space` counts white space and stops at the first character
/// that is none.
pub proof fn lemma_leading_space_bounds(s: Seq<char>)
    ensures
        0 <= leading_space(s) <= s.len(),
        leading_space(s) < s.len() ==> !is_space(s[leading_space(s)]),
        forall|j: int| 0 <= j < leading_space(s) ==> is_space(s[j]),
    decreases s.len(),
{
    if s.len() == 0 || !is_space(s[0]) {
    } else {
        let t = s.drop_first();
        lemma_leading_space_bounds(t);
        assert forall|j: int| 0 <= j < leading_space(s) implies is_space(s[j]) by {
            if j > 0 {
                assert(s[j] == t[j - 1]);
            }
        }
    }
}

/// `leading_space` is the one length of a run of white space from the start
/// that another character, or the end, follows.
pub proof fn lemma_leading_space_is(s: Seq<char>, i: int)
    requires
        0 <= i <= s.len(),
        forall|j: int| 0 <= j < i ==> is_space(s[j]),
        i < s.len() ==> !is_space(s[i]),
    ensures
        leading_space(s) == i,
{
    lemma_leading_space_bounds(s);
    let k = leading_space(s);
    if k < i {
        assert(is_space(s[k]));
    } else if i < k {
        assert(is_space(s[i]));
    }
}

/// `trailing_space` counts white space and stops at the last character that
/// is none.
pub proof fn lemma_trailing_space_bounds(s: Seq<char>)
    ensures
        0 <= trailing_space(s) <= s.len(),
        trailing_space(s) < s.len() ==> !is_space(s[s.len() - 1 - trailing_space(s)]),
        forall|j: int| s.len() - trailing_space(s) <= j < s.len() ==> is_space(s[j]),
    decreases s.len(),
{
    if s.len() == 0 || !is_space(s.last()) {
    } else {
        let t = s.drop_last();
        lemma_trailing_space_bounds(t);
        assert forall|j: int| s.len() - trailing_space(s) <= j < s.len() implies is_space(
            s[j],
        ) by {
            if j < s.len() - 1 {
                assert(s[j] == t[j]);
            }
        }
        if trailing_space(s) < s.len() {
            assert(s[s.len() - 1 - trailing_space(s)] == t[t.len() - 1 - trailing_space(t)]);
        }
    }
}

/// `trailing_space` is the one length of a run of white space to the end
/// that another character, or the start, stands before.
pub proof fn lemma_trailing_space_is(s: Seq<char>, k: int)
    requires
        0 <= k <= s.len(),
        forall|j: int| s.len() - k <= j < s.len() ==> is_space(s[j]),
        k < s.len() ==> !is_space(s[s.len() - 1 - k]),
    ensures
        trailing_space(s) == k,
{
    lemma_trailing_space_bounds(s);
    let t = trailing_space(s);
    if t < k {
        assert(is_space(s[s.len() - 1 - t]));
    } else if k < t {
        assert(is_space(s[s.len() - 1 - k]));
    }
}

/// The characters of `text`, in order.
pub fn chars_of(text: &str) -> (chars: Vec<char>)
    ensures
        chars@ == text@,
{
    let mut chars: Vec<char> = Vec::new();
    for c in it: text.chars()
        invariant
            chars@ == it.seq().take(it.index() as int),
            it.seq() == text@,
    {
        chars.push(c);
    }
    chars
}

/// A string of the characters of `chars`, in order.
pub fn string_of(chars: &[char]) -> (s: String)
    ensures
        s@ == chars@,
{
    let mut s = String::new();
    push_chars(&mut s, chars);
    s
}

/// Appends the characters of `chars` to `out`.
pub fn push_chars(out: &mut String, chars: &[char])
    ensures
        final(out)@ == old(out)@ + chars@,
{
    let mut i: usize = 0;
    while i < chars.len()
        invariant
            i <= chars.len(),
            out@ == old(out)@ + chars@.take(i as int),
        decreases chars.len() - i,
    {
        out.push(chars[i]);
        i += 1;
    }
}

/// Finds the first `c`.
pub fn find_char(s: &[char], c: char) -> (i: usize)
    ensures
        i == first_index(s@, c),
{
    let mut i: usize = 0;
    while i < s.len() && s[i] != c
        invariant
            i <= s.len(),
            forall|j: int| 0 <= j < i ==> s@[j] != c,
        decreases s.len() - i,
    {
        i += 1;
    }
    proof {
        lemma_first_index_is(s@, c, i as int);
    }
    i
}

/// Finds the first `a` that `b` follows directly.
pub fn find_pair(s: &[char], a: char, b: char) -> (i: usize)
    ensures
        i == first_pair(s@, a, b),
{
    let n = s.len();
    let mut i: usize = 0;
    while i < n
        invariant
            n == s.len(),
            i <= n,
            forall|j: int| 0 <= j < i ==> !#[trigger] pair_at(s@, j, a, b),
        decreases n - i,
    {
        if i + 1 < n && s[i] == a && s[i + 1] == b {
            proof {
                lemma_first_pair_is(s@, a, b, i as int);
            }
            return i;
        }
        i += 1;
    }
    proof {
        lemma_first_pair_is(s@, a, b, n as int);
    }
    n
}

/// Tells whether `s` begins with `prefix`.
pub fn starts_with(s: &[char], prefix: &[char]) -> (b: bool)
    ensures
        b == prefix@.is_prefix_of(s@),
{
    if prefix.len() > s.len() {
        return false;
    }
    let mut i: usize = 0;
    while i < prefix.len()
        invariant
            i <= prefix.len() <= s.len(),
            forall|j: int| 0 <= j < i ==> s@[j] == prefix@[j],
        decreases prefix.len() - i,
    {
        if s[i] != prefix[i] {
            assert(s@.subrange(0, prefix@.len() as int)[i as int] != prefix@[i as int]);
            return false;
        }
        i += 1;
    }
    assert(prefix@ =~= s@.subrange(0, prefix@.len() as int));
    true
}

/// Counts the copies of `c` that `s` begins with.
pub fn count_leading(s: &[char], c: char) -> (i: usize)
    ensures
        i == leading(s@, c),
{
    let mut i: usize = 0;
    while i < s.len() && s[i] == c
        invariant
            i <= s.len(),
            forall|j: int| 0 <= j < i ==> s@[j] == c,
        decreases s.len() - i,
    {
        i += 1;
    }
    proof {
        lemma_leading_is(s@, c, i as int);
    }
    i
}

/// `s` without the copies of `c` that it begins and ends with.
pub fn stripped(s: &[char], c: char) -> (t: &[char])
    ensures
        t@ == strip(s@, c),
{
    let from = count_leading(s, c);
    proof {
        lemma_leading_bounds(s@, c);
    }
    let t = slice_subrange(s, from, s.len());
    let mut n: usize = t.len();
    while n > 0 && t[n - 1] == c
        invariant
            n <= t.len(),
            forall|j: int| n <= j < t.len() ==> t@[j] == c,
        decreases n,
    {
        n -= 1;
    }
    proof {
        lemma_trailing_is(t@, c, t.len() - n);
    }
    slice_subrange(t, 0, n)
}

/// Tells whether `c` is white space.
pub fn is_whitespace(c: char) -> (b: bool)
    ensures
        b == is_space(c),
{
    let n: u32 = c as u32;
    (0x09 <= n && n <= 0x0d) || n == 0x20 || n == 0x85 || n == 0xa0 || n == 0x1680 || (0x2000 <= n
        && n <= 0x200a) || n == 0x2028 || n == 0x2029 || n == 0x202f || n == 0x205f || n == 0x3000
}

/// `s` from its first character that is no white space.
pub fn trimmed_start(s: &[char]) -> (t: &[char])
    ensures
        t@ == trim_start(s@),
{
    let mut i: usize = 0;
    while i < s.len() && is_whitespace(s[i])
        invariant
            i <= s.len(),
            forall|j: int| 0 <= j < i ==> is_space(s@[j]),
        decreases s.len() - i,
    {
        i += 1;
    }
    proof {
        lemma_leading_space_is(s@, i as int);
    }
    slice_subrange(s, i, s.len())
}

/// `s` between its first and its last character that is no white space.
pub fn trimmed(s: &[char]) -> (t: &[char])
    ensures
        t@ == trim(s@),
{
    let t = trimmed_start(s);
    let mut n: usize = t.len();
    while n > 0 && is_whitespace(t[n - 1])
        invariant
            n <= t.len(),
            forall|j: int| n <= j < t.len() ==> is_space(t@[j]),
        decreases n,
    {
        n -= 1;
    }
    proof {
        lemma_trailing_space_is(t@, t.len() - n);
    }
    slice_subrange(t, 0, n)
}

} // verus!
