//! The task list of an entry: the order that tasks are shown in, the number
//! that a task goes by, and the tasks that move on to the next entry.

use crate::entry::{task_views, Entry, Task};
use crate::grammar::TaskView;
use crate::text::chars_of;
use vstd::prelude::*;

verus! {

/// The order of strings: character by character, a prefix before what it
/// is a prefix of.
pub open spec fn text_le(a: Seq<char>, b: Seq<char>) -> bool
    decreases a.len(),
{
    if a.len() == 0 {
        true
    } else if b.len() == 0 {
        false
    } else if a[0] != b[0] {
        a[0] < b[0]
    } else {
        text_le(a.drop_first(), b.drop_first())
    }
}

/// The order of tasks: by state, todo before working before done before
/// cancelled, and within a state by message.
pub open spec fn task_le(a: TaskView, b: TaskView) -> bool {
    a.rank() < b.rank() || (a.rank() == b.rank() && text_le(a.message(), b.message()))
}

/// Whether no task stands before one that it should follow.
pub open spec fn in_order(ts: Seq<TaskView>) -> bool {
    forall|i: int, j: int| 0 <= i < j < ts.len() ==> task_le(#[trigger] ts[i], #[trigger] ts[j])
}

/// Of two strings one stands before the other, or they are equal.
pub proof fn lemma_text_le_total(a: Seq<char>, b: Seq<char>)
    ensures
        text_le(a, b) || text_le(b, a),
    decreases a.len(),
{
    if a.len() > 0 && b.len() > 0 && a[0] == b[0] {
        lemma_text_le_total(a.drop_first(), b.drop_first());
    }
}

/// What stands before a string stands before all that the string stands before.
pub proof fn lemma_text_le_transitive(a: Seq<char>, b: Seq<char>, c: Seq<char>)
    requires
        text_le(a, b),
        text_le(b, c),
    ensures
        text_le(a, c),
    decreases a.len(),
{
    if a.len() > 0 && b.len() > 0 && c.len() > 0 && a[0] == b[0] && b[0] == c[0] {
        lemma_text_le_transitive(a.drop_first(), b.drop_first(), c.drop_first());
    }
}

/// Strings that stand before each other are one string.
pub proof fn lemma_text_le_antisymmetric(a: Seq<char>, b: Seq<char>)
    requires
        text_le(a, b),
        text_le(b, a),
    ensures
        a == b,
    decreases a.len(),
{
    if a.len() > 0 && b.len() > 0 {
        lemma_text_le_antisymmetric(a.drop_first(), b.drop_first());
        assert(a =~= seq![a[0]] + a.drop_first());
        assert(b =~= seq![b[0]] + b.drop_first());
    } else {
        assert(a =~= b);
    }
}

/// Tasks that stand before each other are one task.
pub proof fn lemma_task_le_antisymmetric(a: TaskView, b: TaskView)
    requires
        task_le(a, b),
        task_le(b, a),
    ensures
        a == b,
{
    lemma_text_le_antisymmetric(a.message(), b.message());
}

/// Of two tasks one stands before the other.
pub proof fn lemma_task_le_total(a: TaskView, b: TaskView)
    ensures
        task_le(a, b) || task_le(b, a),
{
    lemma_text_le_total(a.message(), b.message());
}

/// What stands before a task stands before all that the task stands before.
pub proof fn lemma_task_le_transitive(a: TaskView, b: TaskView, c: TaskView)
    requires
        task_le(a, b),
        task_le(b, c),
    ensures
        task_le(a, c),
{
    if a.rank() == b.rank() && b.rank() == c.rank() {
        lemma_text_le_transitive(a.message(), b.message(), c.message());
    }
}

/// There is one way to put tasks in order: lists in order that hold the
/// same tasks, each as often, are the same list.
pub proof fn lemma_order_is_unique(a: Seq<TaskView>, b: Seq<TaskView>)
    requires
        in_order(a),
        in_order(b),
        a.to_multiset() == b.to_multiset(),
    ensures
        a == b,
    decreases a.len(),
{
    vstd::seq_lib::to_multiset_len(a);
    vstd::seq_lib::to_multiset_len(b);
    if a.len() == 0 {
        assert(a =~= b);
    } else {
        assert(a.contains(a[0]));
        assert(b.contains(b[0]));
        vstd::seq_lib::to_multiset_contains(a, a[0]);
        vstd::seq_lib::to_multiset_contains(b, a[0]);
        vstd::seq_lib::to_multiset_contains(a, b[0]);
        vstd::seq_lib::to_multiset_contains(b, b[0]);
        let j = choose|j: int| 0 <= j < b.len() && b[j] == a[0];
        let i = choose|i: int| 0 <= i < a.len() && a[i] == b[0];
        if i > 0 && j > 0 {
            assert(task_le(b[0], b[j]));
            assert(task_le(a[0], a[i]));
            lemma_task_le_antisymmetric(a[0], b[0]);
        }
        assert(a[0] == b[0]);
        vstd::seq_lib::to_multiset_remove(a, 0);
        vstd::seq_lib::to_multiset_remove(b, 0);
        assert(a.remove(0) =~= a.drop_first());
        assert(b.remove(0) =~= b.drop_first());
        let x = a.drop_first();
        let y = b.drop_first();
        assert(in_order(x)) by {
            assert forall|m: int, n: int| 0 <= m < n < x.len() implies task_le(
                #[trigger] x[m],
                #[trigger] x[n],
            ) by {
                assert(x[m] == a[m + 1] && x[n] == a[n + 1]);
            }
        }
        assert(in_order(y)) by {
            assert forall|m: int, n: int| 0 <= m < n < y.len() implies task_le(
                #[trigger] y[m],
                #[trigger] y[n],
            ) by {
                assert(y[m] == b[m + 1] && y[n] == b[n + 1]);
            }
        }
        lemma_order_is_unique(x, y);
        assert(a =~= seq![a[0]] + x);
        assert(b =~= seq![b[0]] + y);
    }
}

/// A task put between those that stand before it and those that it stands
/// before leaves the list in order.
proof fn lemma_insert_in_order(ts: Seq<TaskView>, at: int, t: TaskView)
    requires
        in_order(ts),
        0 <= at <= ts.len(),
        forall|i: int| 0 <= i < at ==> task_le(#[trigger] ts[i], t),
        forall|i: int| at <= i < ts.len() ==> task_le(t, #[trigger] ts[i]),
    ensures
        in_order(ts.insert(at, t)),
{
    let r = ts.insert(at, t);
    assert forall|i: int, j: int| 0 <= i < j < r.len() implies task_le(
        #[trigger] r[i],
        #[trigger] r[j],
    ) by {
        if j < at {
            assert(r[i] == ts[i] && r[j] == ts[j]);
        } else if j == at {
            assert(r[i] == ts[i]);
        } else if i < at {
            assert(r[i] == ts[i] && r[j] == ts[j - 1]);
        } else if i == at {
            assert(r[j] == ts[j - 1]);
        } else {
            assert(r[i] == ts[i - 1] && r[j] == ts[j - 1]);
        }
    }
}

/// Tells whether the string `a` stands before `b` or is `b`.
fn text_at_most(a: &[char], b: &[char]) -> (le: bool)
    ensures
        le == text_le(a@, b@),
{
    let mut i: usize = 0;
    assert(a@.skip(0) =~= a@ && b@.skip(0) =~= b@);
    while i < a.len() && i < b.len() && a[i] == b[i]
        invariant
            i <= a.len(),
            i <= b.len(),
            text_le(a@, b@) == text_le(a@.skip(i as int), b@.skip(i as int)),
        decreases a.len() - i,
    {
        proof {
            let x = a@.skip(i as int);
            let y = b@.skip(i as int);
            assert(x.drop_first() =~= a@.skip(i + 1));
            assert(y.drop_first() =~= b@.skip(i + 1));
        }
        i += 1;
    }
    if i == a.len() {
        true
    } else if i == b.len() {
        false
    } else {
        a[i] < b[i]
    }
}

impl Task {
    /// Place of the state in the order todo, working, done, cancelled.
    fn rank(&self) -> (r: u8)
        ensures
            r == self@.rank(),
    {
        match self {
            Task::Todo(_) => 0,
            Task::Working(_) => 1,
            Task::Done(_) => 2,
            Task::Cancelled(_) => 3,
        }
    }

    /// Tells whether `self` comes no later than `other` in the order of tasks.
    pub fn at_most(&self, other: &Task) -> (le: bool)
        ensures
            le == task_le(self@, other@),
    {
        let mine = self.rank();
        let theirs = other.rank();
        if mine != theirs {
            mine < theirs
        } else {
            let a = chars_of(self.text().as_str());
            let b = chars_of(other.text().as_str());
            text_at_most(a.as_slice(), b.as_slice())
        }
    }
}

/// The place in the list of the task that goes by `number`: tasks are
/// numbered from 1, so 0 names none.
pub fn index_of_number(number: usize) -> (r: Option<usize>)
    ensures
        r is None <==> number == 0,
        r is Some ==> r->0 == number - 1,
{
    if number == 0 {
        None
    } else {
        Some(number - 1)
    }
}

/// The live ones among tasks.
pub open spec fn live_of(ts: Seq<TaskView>) -> Seq<TaskView> {
    ts.filter(|t: TaskView| t.is_live())
}

/// The settled ones among tasks.
pub open spec fn settled_of(ts: Seq<TaskView>) -> Seq<TaskView> {
    ts.filter(|t: TaskView| !t.is_live())
}

impl Entry {
    /// Takes the live tasks out of the entry, in order; the settled ones
    /// stay, in order.
    pub fn take_live_tasks(&mut self) -> (live: Vec<Task>)
        ensures
            task_views(live@) == live_of(old(self)@.tasks),
            final(self)@.tasks == settled_of(old(self)@.tasks),
            final(self).label == old(self).label,
            final(self).observations == old(self).observations,
            final(self).events == old(self).events,
            final(self).notes == old(self).notes,
    {
        let mut all: Vec<Task> = Vec::new();
        core::mem::swap(&mut self.tasks, &mut all);
        let mut live: Vec<Task> = Vec::new();
        let ghost whole = task_views(all@);
        proof {
            reveal(Seq::filter);
            assert(task_views(all@.take(0)) =~= Seq::empty());
            assert(task_views(live@) =~= live_of(Seq::empty()));
            assert(task_views(self.tasks@) =~= settled_of(Seq::empty()));
        }
        for t in it: all
            invariant
                whole == task_views(it.seq()),
                task_views(live@) == live_of(whole.take(it.index() as int)),
                task_views(self.tasks@) == settled_of(whole.take(it.index() as int)),
                self.label == old(self).label,
                self.observations == old(self).observations,
                self.events == old(self).events,
                self.notes == old(self).notes,
        {
            proof {
                reveal(Seq::filter);
                let i = it.index() as int;
                assert(whole.take(i + 1).drop_last() =~= whole.take(i));
                assert(whole.take(i + 1).last() == t@);
                assert(task_views(live@.push(t)) =~= task_views(live@).push(t@));
                assert(task_views(self.tasks@.push(t)) =~= task_views(self.tasks@).push(t@));
            }
            if t.is_live() {
                live.push(t);
            } else {
                self.tasks.push(t);
            }
        }
        assert(whole.take(whole.len() as int) =~= whole);
        live
    }

    /// The place at which `t` goes into the tasks, which are in order:
    /// behind the last task that it does not stand before.
    fn place_for(&self, t: &Task) -> (at: usize)
        requires
            in_order(self@.tasks),
        ensures
            at <= self.tasks.len(),
            forall|i: int| 0 <= i < at ==> task_le(#[trigger] self@.tasks[i], t@),
            forall|i: int| at <= i < self.tasks.len() ==> task_le(t@, #[trigger] self@.tasks[i]),
    {
        let mut at: usize = 0;
        while at < self.tasks.len() && self.tasks[at].at_most(t)
            invariant
                at <= self.tasks.len(),
                forall|i: int| 0 <= i < at ==> task_le(#[trigger] self@.tasks[i], t@),
            decreases self.tasks.len() - at,
        {
            at += 1;
        }
        proof {
            let ts = self@.tasks;
            assert forall|i: int| at <= i < ts.len() implies task_le(t@, #[trigger] ts[i]) by {
                lemma_task_le_total(ts[i], t@);
                if task_le(ts[i], t@) {
                    if i > at {
                        lemma_task_le_transitive(ts[at as int], ts[i], t@);
                    }
                }
            }
        }
        at
    }

    /// Puts the tasks in order: by state, and within a state by message.
    /// The same tasks are there afterwards.
    pub fn sort_tasks(&mut self)
        ensures
            in_order(final(self)@.tasks),
            final(self)@.tasks.to_multiset() == old(self)@.tasks.to_multiset(),
            final(self).label == old(self).label,
            final(self).observations == old(self).observations,
            final(self).events == old(self).events,
            final(self).notes == old(self).notes,
    {
        let mut all: Vec<Task> = Vec::new();
        core::mem::swap(&mut self.tasks, &mut all);
        let ghost whole = task_views(all@);
        proof {
            assert(task_views(self.tasks@) =~= Seq::empty());
            assert(whole.take(0) =~= Seq::empty());
        }
        for t in it: all
            invariant
                whole == task_views(it.seq()),
                in_order(self@.tasks),
                self@.tasks.to_multiset() == whole.take(it.index() as int).to_multiset(),
                self.label == old(self).label,
                self.observations == old(self).observations,
                self.events == old(self).events,
                self.notes == old(self).notes,
        {
            let at = self.place_for(&t);
            proof {
                let i = it.index() as int;
                let before = self@.tasks;
                lemma_insert_in_order(before, at as int, t@);
                assert(task_views(self.tasks@.insert(at as int, t)) =~= before.insert(
                    at as int,
                    t@,
                ));
                vstd::seq_lib::to_multiset_insert(before, at as int, t@);
                assert(whole.take(i + 1) =~= whole.take(i).push(t@));
                vstd::seq_lib::to_multiset_build(whole.take(i), t@);
            }
            self.tasks.insert(at, t);
        }
        assert(whole.take(whole.len() as int) =~= whole);
    }
}

} // verus!
