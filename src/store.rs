//! The todo repository: creation, partial update, toggling, deletion,
//! reordering and the ordered listing.

use vstd::prelude::*;
use crate::text::{
    trim_of, is_blank, canonical_tag, normalized_date, opt_view, trim_text, normalize_date,
    normalize_recurrence_tag,
};
use crate::sources::{new_id, now_iso};
use crate::todo::{todo_models, todo_model, Todo, TodoError, todo_wf, precedes, is_listed_order, precedes_exec, lemma_precedes_total};

verus! {

/// What a new todo is made from.
#[derive(Debug)]
pub struct CreateTodoInput {
    pub title: String,
    pub recurrence_tag: Option<String>,
    pub note: Option<String>,
    pub due_date: Option<String>,
}

/// How an update treats the due date.
#[derive(Debug)]
pub enum DueDateUpdate {
    /// Leave the stored due date as it is.
    Unchanged,
    /// Remove the due date.
    Clear,
    /// Store this due date, normalised.
    SetTo(String),
}

/// A partial update: each field that is present replaces the stored one.
#[derive(Debug)]
pub struct UpdateTodoInput {
    pub id: String,
    pub title: Option<String>,
    pub recurrence_tag: Option<String>,
    pub note: Option<String>,
    pub completed: Option<bool>,
    pub due_date: DueDateUpdate,
}

/// The stored todos, in no particular order.
pub struct TodoStore {
    pub todos: Vec<Todo>,
}

pub open spec fn has_id(s: Seq<Todo>, id: Seq<char>) -> bool {
    exists|i: int| 0 <= i < s.len() && (#[trigger] s[i]).id@ == id
}

pub open spec fn ids_unique(s: Seq<Todo>) -> bool {
    forall|i: int, j: int|
        0 <= i < s.len() && 0 <= j < s.len() && i != j ==> (#[trigger] s[i]).id@ != (#[trigger] s[j]).id@
}

pub open spec fn todos_wf(s: Seq<Todo>) -> bool {
    &&& ids_unique(s)
    &&& forall|i: int| 0 <= i < s.len() ==> todo_wf(#[trigger] s[i])
}

/// The lowest sort order stored, or 0 where nothing is stored.
pub open spec fn lowest_sort(s: Seq<Todo>) -> int
    decreases s.len(),
{
    if s.len() == 0 {
        0
    } else if s.len() == 1 {
        s[0].sort_order as int
    } else {
        let m = lowest_sort(s.drop_last());
        let l = s.last().sort_order as int;
        if l < m { l } else { m }
    }
}

pub proof fn lemma_lowest_sort_bound(s: Seq<Todo>)
    ensures
        forall|i: int| 0 <= i < s.len() ==> lowest_sort(s) <= (#[trigger] s[i]).sort_order,
        i64::MIN <= lowest_sort(s) <= i64::MAX,
    decreases s.len(),
{
    if s.len() > 1 {
        lemma_lowest_sort_bound(s.drop_last());
        assert forall|i: int| 0 <= i < s.len() implies lowest_sort(s) <= (#[trigger] s[i]).sort_order by {
            if i < s.len() - 1 {
                assert(s.drop_last()[i] == s[i]);
            }
        }
    }
}

/// A new todo takes a sort order below the lowest one stored, so it sorts
/// before every todo already there.
pub proof fn lemma_new_todo_sorts_first(s: Seq<Todo>, t: Todo)
    requires
        t.sort_order == lowest_sort(s) - 1,
    ensures
        forall|i: int| 0 <= i < s.len() ==> t.sort_order < (#[trigger] s[i]).sort_order,
{
    lemma_lowest_sort_bound(s);
}

pub open spec fn note_or_empty(n: Option<String>) -> Seq<char> {
    match n {
        Some(v) => v@,
        None => Seq::empty(),
    }
}

/// `t` is the todo that `create` makes of `input`, with the given id, time
/// and sort order.
pub open spec fn is_created_from(t: Todo, input: CreateTodoInput, id: Seq<char>, now: Seq<char>, sort: int) -> bool {
    &&& t.id@ == id
    &&& t.title@ == trim_of(input.title@)
    &&& t.recurrence_tag@ == canonical_tag(opt_view(input.recurrence_tag))
    &&& t.note@ == note_or_empty(input.note)
    &&& !t.completed
    &&& opt_view(t.due_date) == normalized_date(opt_view(input.due_date))
    &&& t.created_at@ == now
    &&& t.updated_at@ == now
    &&& t.sort_order == sort
}

/// `t` is `old` after the partial update `input` at time `now`.
pub open spec fn is_updated_from(t: Todo, old: Todo, input: UpdateTodoInput, now: Seq<char>) -> bool {
    &&& t.id@ == old.id@
    &&& t.title@ == (match input.title { Some(v) => trim_of(v@), None => old.title@ })
    &&& t.recurrence_tag@ == (match input.recurrence_tag {
        Some(v) => canonical_tag(Some(v@)),
        None => old.recurrence_tag@,
    })
    &&& t.note@ == (match input.note { Some(v) => v@, None => old.note@ })
    &&& t.completed == (match input.completed { Some(c) => c, None => old.completed })
    &&& opt_view(t.due_date) == (match input.due_date {
        DueDateUpdate::Unchanged => opt_view(old.due_date),
        DueDateUpdate::Clear => None,
        DueDateUpdate::SetTo(v) => normalized_date(Some(v@)),
    })
    &&& t.created_at@ == old.created_at@
    &&& t.updated_at@ == now
    &&& t.sort_order == old.sort_order
}

/// `t` is `old` with its completion flipped at time `now`.
pub open spec fn is_toggled_from(t: Todo, old: Todo, now: Seq<char>) -> bool {
    t == Todo { completed: !old.completed, updated_at: t.updated_at, ..old } && t.updated_at@ == now
}

proof fn lemma_insert_keeps_order(before: Seq<Todo>, p: int, t: Todo)
    requires
        0 <= p <= before.len(),
        is_listed_order(before),
        forall|k: int| 0 <= k < p ==> precedes(#[trigger] before[k], t),
        p < before.len() ==> !precedes(before[p], t),
    ensures
        is_listed_order(before.insert(p, t)),
{
    let n = before.insert(p, t);
    if p < before.len() {
        lemma_precedes_total(before[p], t);
    }
    assert forall|k: int| 0 <= k < n.len() - 1 implies precedes(#[trigger] n[k], n[k + 1]) by {
        if k < p - 1 {
            assert(n[k] == before[k] && n[k + 1] == before[k + 1]);
        } else if k == p - 1 {
            assert(n[k] == before[k]);
        } else if k == p {
        } else {
            assert(n[k] == before[k - 1] && n[k + 1] == before[k]);
        }
    }
}

proof fn lemma_insert_contents(before: Seq<Todo>, pre: Seq<Todo>, p: int, t: Todo)
    requires
        0 <= p <= before.len(),
        forall|x: Todo| before.contains(x) <==> pre.contains(x),
    ensures
        forall|x: Todo| before.insert(p, t).contains(x) <==> pre.push(t).contains(x),
{
    let n = before.insert(p, t);
    let post = pre.push(t);
    assert forall|x: Todo| n.contains(x) <==> post.contains(x) by {
        if n.contains(x) {
            let k = choose|k: int| 0 <= k < n.len() && n[k] == x;
            if k == p {
                assert(post[pre.len() as int] == x);
            } else {
                if k < p {
                    assert(before[k] == x);
                } else {
                    assert(before[k - 1] == x);
                }
                assert(pre.contains(x));
                let j = choose|j: int| 0 <= j < pre.len() && pre[j] == x;
                assert(post[j] == x);
            }
        }
        if post.contains(x) {
            let j = choose|j: int| 0 <= j < post.len() && post[j] == x;
            if j < pre.len() {
                assert(pre[j] == x);
                assert(before.contains(x));
                let k = choose|k: int| 0 <= k < before.len() && before[k] == x;
                if k < p {
                    assert(n[k] == x);
                } else {
                    assert(n[k + 1] == x);
                }
            } else {
                assert(n[p] == x);
            }
        }
    }
}

/// The last place at which `id` stands in `ids`, or -1 where it does not.
pub open spec fn last_position(ids: Seq<String>, id: Seq<char>) -> int
    decreases ids.len(),
{
    if ids.len() == 0 {
        -1
    } else if ids.last()@ == id {
        ids.len() - 1
    } else {
        last_position(ids.drop_last(), id)
    }
}

pub proof fn lemma_last_position_range(ids: Seq<String>, id: Seq<char>)
    ensures
        -1 <= last_position(ids, id) < ids.len(),
    decreases ids.len(),
{
    if ids.len() > 0 {
        lemma_last_position_range(ids.drop_last(), id);
    }
}

/// `t` is `old` after a reorder by `ids` at time `now`: a todo whose id is
/// listed takes the (last) position of its id as sort order.
pub open spec fn is_reordered_from(t: Todo, old: Todo, ids: Seq<String>, now: String) -> bool {
    let k = last_position(ids, old.id@);
    if k >= 0 {
        t == Todo { sort_order: k as i64, updated_at: now, ..old }
    } else {
        t == old
    }
}

/// Each of `s` is the todo at its place in `old` after a reorder by `ids`
/// at time `now`.
pub open spec fn is_reordered_all(s: Seq<Todo>, old: Seq<Todo>, ids: Seq<String>, now: String) -> bool {
    &&& s.len() == old.len()
    &&& forall|j: int| 0 <= j < old.len() ==> is_reordered_from(#[trigger] s[j], old[j], ids, now)
}

impl TodoStore {
    pub open spec fn view(&self) -> Seq<Todo> {
        self.todos@
    }

    /// Ids are unique; every title is trimmed and not empty; every
    /// recurrence tag is canonical.
    pub open spec fn wf(&self) -> bool {
        todos_wf(self.todos@)
    }

    pub fn new() -> (r: TodoStore)
        ensures
            r@ == Seq::<Todo>::empty(),
            r.wf(),
    {
        TodoStore { todos: Vec::new() }
    }

    /// Where the todo with this id stands, if one is stored.
    pub fn find_index(&self, id: &String) -> (r: Option<usize>)
        ensures
            match r {
                Some(i) => i < self@.len() && self@[i as int].id@ == id@,
                None => !has_id(self@, id@),
            },
    {
        let mut i: usize = 0;
        while i < self.todos.len()
            invariant
                i <= self.todos@.len(),
                forall|j: int| 0 <= j < i ==> (#[trigger] self.todos@[j]).id@ != id@,
            decreases self.todos@.len() - i,
        {
            if self.todos[i].id == *id {
                return Some(i);
            }
            i = i + 1;
        }
        None
    }

    /// The todo with this id, if one is stored.
    pub fn get_todo_by_id(&self, id: &String) -> (r: Option<Todo>)
        ensures
            match r {
                Some(t) => has_id(self@, id@) && self@.contains(t) && t.id@ == id@,
                None => !has_id(self@, id@),
            },
    {
        match self.find_index(id) {
            Some(i) => Some(self.todos[i].copied()),
            None => None,
        }
    }

    /// The lowest sort order stored, or 0 where nothing is stored.
    pub fn lowest_sort_order(&self) -> (r: i64)
        ensures
            r == lowest_sort(self@),
    {
        let mut m: i64 = 0;
        let mut i: usize = 0;
        while i < self.todos.len()
            invariant
                i <= self.todos@.len(),
                m == lowest_sort(self.todos@.subrange(0, i as int)),
            decreases self.todos@.len() - i,
        {
            proof {
                let s = self.todos@.subrange(0, i + 1);
                assert(s.drop_last() =~= self.todos@.subrange(0, i as int));
            }
            let so = self.todos[i].sort_order;
            if i == 0 || so < m {
                m = so;
            }
            i = i + 1;
        }
        proof {
            assert(self.todos@.subrange(0, i as int) =~= self.todos@);
        }
        m
    }

    /// Adds a todo made of `input`, with the given id and creation time. It
    /// takes a sort order one below the lowest stored.
    pub fn create_todo_with(&mut self, input: CreateTodoInput, id: String, now: String) -> (r: Result<Todo, TodoError>)
        requires
            old(self).wf(),
        ensures
            final(self).wf(),
            is_blank(input.title@) ==> r == Err::<Todo, TodoError>(TodoError::EmptyTitle),
            !is_blank(input.title@) && lowest_sort(old(self)@) == i64::MIN ==> r == Err::<Todo, TodoError>(
                TodoError::SortOrderOutOfRange,
            ),
            !is_blank(input.title@) && lowest_sort(old(self)@) > i64::MIN && has_id(old(self)@, id@) ==> r
                == Err::<Todo, TodoError>(TodoError::DuplicateId(id)),
            !is_blank(input.title@) && lowest_sort(old(self)@) > i64::MIN && !has_id(old(self)@, id@) ==> r is Ok,
            r matches Err(TodoError::DuplicateId(x)) ==> x == id && has_id(old(self)@, x@),
            r is Err ==> final(self)@ == old(self)@,
            r matches Ok(t) ==> {
                &&& is_created_from(t, input, id@, now@, lowest_sort(old(self)@) - 1)
                &&& final(self)@ == old(self)@.push(t)
                &&& forall|i: int| 0 <= i < old(self)@.len() ==> t.sort_order < (#[trigger] old(self)@[i]).sort_order
            },
    {
        let title = trim_text(input.title.as_str());
        if title.is_empty() {
            return Err(TodoError::EmptyTitle);
        }
        let lowest = self.lowest_sort_order();
        if lowest == i64::MIN {
            return Err(TodoError::SortOrderOutOfRange);
        }
        if self.find_index(&id).is_some() {
            return Err(TodoError::DuplicateId(id));
        }
        let todo = Todo {
            id: id,
            title: title.to_owned(),
            recurrence_tag: normalize_recurrence_tag(input.recurrence_tag),
            note: match input.note {
                Some(n) => n,
                None => String::new(),
            },
            completed: false,
            due_date: normalize_date(input.due_date),
            created_at: now.clone(),
            updated_at: now,
            sort_order: lowest - 1,
        };
        let result = todo.copied();
        proof {
            lemma_new_todo_sorts_first(self@, todo);
        }
        self.insert_new(todo);
        Ok(result)
    }

    /// Replaces the todo at `i` by one with the same id that is well formed.
    fn replace_at(&mut self, i: usize, t: Todo)
        requires
            old(self).wf(),
            i < old(self)@.len(),
            t.id@ == old(self)@[i as int].id@,
            todo_wf(t),
        ensures
            final(self).wf(),
            final(self)@ == old(self)@.update(i as int, t),
    {
        self.todos.set(i, t);
        proof {
            let s = self@;
            assert forall|a: int, b: int| 0 <= a < s.len() && 0 <= b < s.len() && a != b implies (#[trigger] s[a]).id@
                != (#[trigger] s[b]).id@ by {
                assert(s[a].id@ == old(self)@[a].id@);
                assert(s[b].id@ == old(self)@[b].id@);
            }
            assert forall|a: int| 0 <= a < s.len() implies todo_wf(#[trigger] s[a]) by {
                if a != i {
                    assert(s[a] == old(self)@[a]);
                }
            }
        }
    }

    /// Applies a partial update, at time `now`, to the todo with `input.id`.
    pub fn update_todo_with(&mut self, input: UpdateTodoInput, now: String) -> (r: Result<Todo, TodoError>)
        requires
            old(self).wf(),
        ensures
            final(self).wf(),
            !has_id(old(self)@, input.id@) ==> r == Err::<Todo, TodoError>(TodoError::NotFound(input.id)),
            has_id(old(self)@, input.id@) && (input.title matches Some(t) && is_blank(t@)) ==> r == Err::<
                Todo,
                TodoError,
            >(TodoError::EmptyTitle),
            has_id(old(self)@, input.id@) && !(input.title matches Some(t) && is_blank(t@)) ==> r is Ok,
            r is Err ==> final(self)@ == old(self)@,
            r matches Ok(t) ==> exists|i: int|
                0 <= i < old(self)@.len() && old(self)@[i].id@ == input.id@ && is_updated_from(
                    t,
                    #[trigger] old(self)@[i],
                    input,
                    now@,
                ) && final(self)@ == old(self)@.update(i, t),
    {
        let i = match self.find_index(&input.id) {
            Some(i) => i,
            None => {
                return Err(TodoError::NotFound(input.id));
            },
        };
        let ghost old_todo = self@[i as int];
        let mut updated = self.todos[i].copied();
        match input.title {
            Some(title) => {
                let trimmed = trim_text(title.as_str());
                if trimmed.is_empty() {
                    return Err(TodoError::EmptyTitle);
                }
                updated.title = trimmed.to_owned();
            },
            None => {},
        }
        match input.recurrence_tag {
            Some(tag) => {
                updated.recurrence_tag = normalize_recurrence_tag(Some(tag));
            },
            None => {},
        }
        match input.note {
            Some(note) => {
                updated.note = note;
            },
            None => {},
        }
        match input.completed {
            Some(c) => {
                updated.completed = c;
            },
            None => {},
        }
        match input.due_date {
            DueDateUpdate::Unchanged => {},
            DueDateUpdate::Clear => {
                updated.due_date = None;
            },
            DueDateUpdate::SetTo(d) => {
                updated.due_date = normalize_date(Some(d));
            },
        }
        updated.updated_at = now;
        let result = updated.copied();
        self.replace_at(i, updated);
        Ok(result)
    }

    /// Flips the completion of the todo with this id, at time `now`.
    pub fn toggle_todo_with(&mut self, id: String, now: String) -> (r: Result<Todo, TodoError>)
        requires
            old(self).wf(),
        ensures
            final(self).wf(),
            !has_id(old(self)@, id@) <==> r == Err::<Todo, TodoError>(TodoError::NotFound(id)),
            has_id(old(self)@, id@) <==> r is Ok,
            r is Err ==> final(self)@ == old(self)@,
            r matches Ok(t) ==> exists|i: int|
                0 <= i < old(self)@.len() && old(self)@[i].id@ == id@ && is_toggled_from(
                    t,
                    #[trigger] old(self)@[i],
                    now@,
                ) && final(self)@ == old(self)@.update(i, t),
    {
        let i = match self.find_index(&id) {
            Some(i) => i,
            None => {
                return Err(TodoError::NotFound(id));
            },
        };
        let mut target = self.todos[i].copied();
        target.completed = !target.completed;
        target.updated_at = now;
        let result = target.copied();
        self.replace_at(i, target);
        Ok(result)
    }

    /// Removes the todo with this id; an unknown id changes nothing.
    pub fn delete_todo(&mut self, id: &String)
        requires
            old(self).wf(),
        ensures
            final(self).wf(),
            !has_id(old(self)@, id@) ==> final(self)@ == old(self)@,
            has_id(old(self)@, id@) ==> exists|i: int|
                0 <= i < old(self)@.len() && (#[trigger] old(self)@[i]).id@ == id@ && final(self)@ == old(self)@.remove(i),
            !has_id(final(self)@, id@),
    {
        match self.find_index(id) {
            Some(i) => {
                self.todos.remove(i);
                proof {
                    let s = self@;
                    let o = old(self)@;
                    assert forall|a: int| 0 <= a < s.len() implies (#[trigger] s[a]) == o[if a < i { a } else { a + 1 }] by {}
                    assert forall|a: int, b: int| 0 <= a < s.len() && 0 <= b < s.len() && a != b implies (#[trigger] s[a]).id@
                        != (#[trigger] s[b]).id@ by {
                        assert(s[a] == o[if a < i { a } else { a + 1 }]);
                        assert(s[b] == o[if b < i { b } else { b + 1 }]);
                    }
                    assert forall|a: int| 0 <= a < s.len() implies todo_wf(#[trigger] s[a]) by {
                        assert(s[a] == o[if a < i { a } else { a + 1 }]);
                    }
                    if has_id(s, id@) {
                        let a = choose|a: int| 0 <= a < s.len() && (#[trigger] s[a]).id@ == id@;
                        assert(s[a] == o[if a < i { a } else { a + 1 }]);
                    }
                }
            },
            None => {},
        }
    }

    /// Every stored todo once, lower sort order first, and on equal sort
    /// orders the later creation time first.
    pub fn list_todos(&self) -> (r: Vec<Todo>)
        requires
            self.wf(),
        ensures
            is_listed_order(r@),
            r@.len() == self@.len(),
            forall|t: Todo| r@.contains(t) <==> self@.contains(t),
    {
        let mut out: Vec<Todo> = Vec::new();
        let mut i: usize = 0;
        while i < self.todos.len()
            invariant
                i <= self.todos@.len(),
                out@.len() == i,
                is_listed_order(out@),
                forall|t: Todo| out@.contains(t) <==> self.todos@.subrange(0, i as int).contains(t),
            decreases self.todos@.len() - i,
        {
            let t = self.todos[i].copied();
            let mut p: usize = 0;
            while p < out.len() && precedes_exec(&out[p], &t)
                invariant
                    p <= out@.len(),
                    forall|k: int| 0 <= k < p ==> precedes(#[trigger] out@[k], t),
                decreases out@.len() - p,
            {
                p = p + 1;
            }
            let ghost before = out@;
            out.insert(p, t);
            proof {
                lemma_insert_keeps_order(before, p as int, t);
                lemma_insert_contents(before, self.todos@.subrange(0, i as int), p as int, t);
                assert(self.todos@.subrange(0, i + 1) =~= self.todos@.subrange(0, i as int).push(t));
            }
            i = i + 1;
        }
        proof {
            assert(self.todos@.subrange(0, i as int) =~= self.todos@);
        }
        out
    }

    /// Gives each listed todo its position in `ids` as sort order, at time
    /// `now`. Ids that are not stored are passed over.
    pub fn reorder_todos_with(&mut self, ids: &Vec<String>, now: String)
        requires
            old(self).wf(),
            ids@.len() <= i64::MAX,
        ensures
            final(self).wf(),
            final(self)@.len() == old(self)@.len(),
            forall|j: int|
                0 <= j < old(self)@.len() ==> is_reordered_from(
                    #[trigger] final(self)@[j],
                    old(self)@[j],
                    ids@,
                    now,
                ),
    {
        let mut i: usize = 0;
        proof {
            assert(ids@.subrange(0, 0) =~= Seq::<String>::empty());
        }
        while i < ids.len()
            invariant
                i <= ids@.len(),
                ids@.len() <= i64::MAX,
                self.wf(),
                self@.len() == old(self)@.len(),
                forall|j: int|
                    0 <= j < old(self)@.len() ==> is_reordered_from(
                        #[trigger] self@[j],
                        old(self)@[j],
                        ids@.subrange(0, i as int),
                        now,
                    ),
            decreases ids@.len() - i,
        {
            let ghost prev = self@;
            proof {
                assert(ids@.subrange(0, i + 1).drop_last() =~= ids@.subrange(0, i as int));
            }
            match self.find_index(&ids[i]) {
                Some(f) => {
                    let mut t = self.todos[f].copied();
                    t.sort_order = i as i64;
                    t.updated_at = now.clone();
                    self.replace_at(f, t);
                    proof {
                        assert forall|j: int| 0 <= j < old(self)@.len() implies is_reordered_from(
                            #[trigger] self@[j],
                            old(self)@[j],
                            ids@.subrange(0, i + 1),
                            now,
                        ) by {
                            lemma_last_position_range(ids@.subrange(0, i as int), old(self)@[j].id@);
                            assert(prev[j].id@ == old(self)@[j].id@);
                            if j != f {
                                assert(prev[j].id@ != prev[f as int].id@);
                            }
                        }
                    }
                },
                None => {
                    proof {
                        assert forall|j: int| 0 <= j < old(self)@.len() implies is_reordered_from(
                            #[trigger] self@[j],
                            old(self)@[j],
                            ids@.subrange(0, i + 1),
                            now,
                        ) by {
                            assert(prev[j].id@ == old(self)@[j].id@);
                            assert(prev[j].id@ != ids@[i as int]@);
                        }
                    }
                },
            }
            i = i + 1;
        }
        proof {
            assert(ids@.subrange(0, i as int) =~= ids@);
        }
    }

    /// Adds a todo made of `input` under a fresh id, created now.
    pub fn create_todo(&mut self, input: CreateTodoInput) -> (r: Result<Todo, TodoError>)
        requires
            old(self).wf(),
        ensures
            final(self).wf(),
            is_blank(input.title@) ==> r == Err::<Todo, TodoError>(TodoError::EmptyTitle),
            !is_blank(input.title@) && lowest_sort(old(self)@) == i64::MIN ==> r == Err::<Todo, TodoError>(
                TodoError::SortOrderOutOfRange,
            ),
            !is_blank(input.title@) && lowest_sort(old(self)@) > i64::MIN ==> (r is Ok || r is Err && r->Err_0 is DuplicateId),
            r matches Err(TodoError::DuplicateId(x)) ==> has_id(old(self)@, x@),
            r is Err ==> final(self)@ == old(self)@,
            r matches Ok(t) ==> {
                &&& is_created_from(t, input, t.id@, t.created_at@, lowest_sort(old(self)@) - 1)
                &&& final(self)@ == old(self)@.push(t)
                &&& forall|i: int| 0 <= i < old(self)@.len() ==> t.sort_order < (#[trigger] old(self)@[i]).sort_order
            },
    {
        let id = new_id();
        let now = now_iso();
        self.create_todo_with(input, id, now)
    }

    /// Applies a partial update to the todo with `input.id`, now.
    pub fn update_todo(&mut self, input: UpdateTodoInput) -> (r: Result<Todo, TodoError>)
        requires
            old(self).wf(),
        ensures
            final(self).wf(),
            !has_id(old(self)@, input.id@) ==> r == Err::<Todo, TodoError>(TodoError::NotFound(input.id)),
            has_id(old(self)@, input.id@) && (input.title matches Some(t) && is_blank(t@)) ==> r == Err::<
                Todo,
                TodoError,
            >(TodoError::EmptyTitle),
            has_id(old(self)@, input.id@) && !(input.title matches Some(t) && is_blank(t@)) ==> r is Ok,
            r is Err ==> final(self)@ == old(self)@,
            r matches Ok(t) ==> exists|i: int|
                0 <= i < old(self)@.len() && old(self)@[i].id@ == input.id@ && is_updated_from(
                    t,
                    #[trigger] old(self)@[i],
                    input,
                    t.updated_at@,
                ) && final(self)@ == old(self)@.update(i, t),
    {
        let now = now_iso();
        self.update_todo_with(input, now)
    }

    /// Flips the completion of the todo with this id, now.
    pub fn toggle_todo(&mut self, id: String) -> (r: Result<Todo, TodoError>)
        requires
            old(self).wf(),
        ensures
            final(self).wf(),
            !has_id(old(self)@, id@) <==> r == Err::<Todo, TodoError>(TodoError::NotFound(id)),
            has_id(old(self)@, id@) <==> r is Ok,
            r is Err ==> final(self)@ == old(self)@,
            r matches Ok(t) ==> exists|i: int|
                0 <= i < old(self)@.len() && old(self)@[i].id@ == id@ && is_toggled_from(
                    t,
                    #[trigger] old(self)@[i],
                    t.updated_at@,
                ) && final(self)@ == old(self)@.update(i, t),
    {
        let now = now_iso();
        self.toggle_todo_with(id, now)
    }

    /// Gives each listed todo its position in `ids` as sort order, now.
    pub fn reorder_todos(&mut self, ids: &Vec<String>)
        requires
            old(self).wf(),
            ids@.len() <= i64::MAX,
        ensures
            final(self).wf(),
            final(self)@.len() == old(self)@.len(),
            exists|now: String| #[trigger] is_reordered_all(final(self)@, old(self)@, ids@, now),
    {
        let now = now_iso();
        let ghost at = now;
        self.reorder_todos_with(ids, now);
        assert(is_reordered_all(self@, old(self)@, ids@, at));
    }

    /// Adds a well-formed todo whose id is not stored yet.
    pub fn insert_new(&mut self, t: Todo)
        requires
            old(self).wf(),
            todo_wf(t),
            !has_id(old(self)@, t.id@),
        ensures
            final(self).wf(),
            final(self)@ == old(self)@.push(t),
            todo_models(final(self)@) == todo_models(old(self)@).push(todo_model(t)),
    {
        self.todos.push(t);
        proof {
            let s = self@;
            assert(todo_models(s) =~= todo_models(old(self)@).push(todo_model(t)));
            assert forall|i: int| 0 <= i < s.len() implies todo_wf(#[trigger] s[i]) by {
                if i < s.len() - 1 {
                    assert(s[i] == old(self)@[i]);
                }
            }
            assert forall|i: int, j: int| 0 <= i < s.len() && 0 <= j < s.len() && i != j implies (#[trigger] s[i]).id@
                != (#[trigger] s[j]).id@ by {
                if i < s.len() - 1 {
                    assert(s[i] == old(self)@[i]);
                }
                if j < s.len() - 1 {
                    assert(s[j] == old(self)@[j]);
                }
            }
        }
    }

    /// Whether these todos meet `wf`: used on todos that come from outside.
    pub fn is_well_formed(&self) -> (r: bool)
        ensures
            r == self.wf(),
    {
        proof {
            reveal_strlit("none");
            reveal_strlit("daily");
            reveal_strlit("bi-weekly");
            assert("none"@ =~= crate::text::tag_none());
            assert("daily"@ =~= crate::text::tag_daily());
            assert("bi-weekly"@ =~= crate::text::tag_bi_weekly());
        }
        let none = "none".to_owned();
        let daily = "daily".to_owned();
        let bi_weekly = "bi-weekly".to_owned();
        let n = self.todos.len();
        let mut i: usize = 0;
        while i < n
            invariant
                n == self.todos@.len(),
                i <= n,
                none@ == crate::text::tag_none(),
                daily@ == crate::text::tag_daily(),
                bi_weekly@ == crate::text::tag_bi_weekly(),
                forall|a: int| 0 <= a < i ==> todo_wf(#[trigger] self.todos@[a]),
                forall|a: int, b: int|
                    0 <= a < i && 0 <= b < n && a != b ==> (#[trigger] self.todos@[a]).id@ != (#[trigger] self.todos@[b]).id@,
            decreases n - i,
        {
            let t = &self.todos[i];
            let trimmed = trim_text(t.title.as_str()).to_owned();
            if trimmed.as_str().is_empty() || trimmed != t.title {
                return false;
            }
            let tag = &t.recurrence_tag;
            if *tag != none && *tag != daily && *tag != bi_weekly {
                return false;
            }
            let mut j: usize = 0;
            while j < n
                invariant
                    n == self.todos@.len(),
                    i < n,
                    j <= n,
                    forall|b: int| 0 <= b < j && b != i ==> (#[trigger] self.todos@[b]).id@ != self.todos@[i as int].id@,
                decreases n - j,
            {
                if j != i && self.todos[j].id == self.todos[i].id {
                    return false;
                }
                j = j + 1;
            }
            i = i + 1;
        }
        true
    }
}

} // verus!
