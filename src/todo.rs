//! The todo record, its well-formedness, and the order in which todos are listed.

use vstd::prelude::*;
use crate::text::{is_blank, is_trimmed, is_canonical_tag};

verus! {

/// One task record.
#[derive(Debug)]
pub struct Todo {
    pub id: String,
    pub title: String,
    pub recurrence_tag: String,
    pub note: String,
    pub completed: bool,
    pub due_date: Option<String>,
    pub created_at: String,
    pub updated_at: String,
    /// Lower sorts earlier; a comparison key only.
    pub sort_order: i64,
}

/// Why an operation on the store failed.
#[derive(Debug)]
pub enum TodoError {
    /// The title is empty once trimmed.
    EmptyTitle,
    /// No todo has this id.
    NotFound(String),
    /// A todo with this id is already stored.
    DuplicateId(String),
    /// No sort order is left below the lowest one stored.
    SortOrderOutOfRange,
}

impl TodoError {
    /// The text that callers are shown.
    pub fn message(&self) -> (r: String)
        ensures
            self matches TodoError::NotFound(id) ==> r@ == "Todo not found: "@ + id@,
            self matches TodoError::DuplicateId(id) ==> r@ == "Todo already exists: "@ + id@,
            self is EmptyTitle ==> r@ == "Title cannot be empty"@,
            self is SortOrderOutOfRange ==> r@ == "Sort order out of range"@,
    {
        match self {
            TodoError::EmptyTitle => "Title cannot be empty".to_owned(),
            TodoError::NotFound(id) => {
                let mut m = "Todo not found: ".to_owned();
                m.append(id.as_str());
                m
            },
            TodoError::DuplicateId(id) => {
                let mut m = "Todo already exists: ".to_owned();
                m.append(id.as_str());
                m
            },
            TodoError::SortOrderOutOfRange => "Sort order out of range".to_owned(),
        }
    }
}

pub open spec fn todo_wf(t: Todo) -> bool {
    &&& !is_blank(t.title@)
    &&& is_trimmed(t.title@)
    &&& is_canonical_tag(t.recurrence_tag@)
}

pub fn copy_opt(s: &Option<String>) -> (r: Option<String>)
    ensures
        r == *s,
{
    match s {
        Some(v) => Some(v.clone()),
        None => None,
    }
}

impl Todo {
    /// A copy of this record, field by field.
    pub fn copied(&self) -> (r: Todo)
        ensures
            r == *self,
    {
        Todo {
            id: self.id.clone(),
            title: self.title.clone(),
            recurrence_tag: self.recurrence_tag.clone(),
            note: self.note.clone(),
            completed: self.completed,
            due_date: copy_opt(&self.due_date),
            created_at: self.created_at.clone(),
            updated_at: self.updated_at.clone(),
            sort_order: self.sort_order,
        }
    }
}

/// A todo as mathematical values.
pub struct TodoModel {
    pub id: Seq<char>,
    pub title: Seq<char>,
    pub recurrence_tag: Seq<char>,
    pub note: Seq<char>,
    pub completed: bool,
    pub due_date: Option<Seq<char>>,
    pub created_at: Seq<char>,
    pub updated_at: Seq<char>,
    pub sort_order: int,
}

pub open spec fn todo_model(t: Todo) -> TodoModel {
    TodoModel {
        id: t.id@,
        title: t.title@,
        recurrence_tag: t.recurrence_tag@,
        note: t.note@,
        completed: t.completed,
        due_date: match t.due_date {
            Some(d) => Some(d@),
            None => None,
        },
        created_at: t.created_at@,
        updated_at: t.updated_at@,
        sort_order: t.sort_order as int,
    }
}

pub open spec fn todo_models(s: Seq<Todo>) -> Seq<TodoModel> {
    s.map_values(|t: Todo| todo_model(t))
}

/// Lexicographic order on texts, character by character.
pub open spec fn text_le(a: Seq<char>, b: Seq<char>) -> bool
    decreases a.len(),
{
    if a.len() == 0 {
        true
    } else if b.len() == 0 {
        false
    } else if a[0] != b[0] {
        a[0] < b[0]
    } else {
        text_le(a.drop_first(), b.drop_first())
    }
}

pub proof fn lemma_text_le_total(a: Seq<char>, b: Seq<char>)
    ensures
        text_le(a, b) || text_le(b, a),
    decreases a.len(),
{
    if a.len() > 0 && b.len() > 0 && a[0] == b[0] {
        lemma_text_le_total(a.drop_first(), b.drop_first());
    }
}

/// `a` may stand before `b` in a listing: lower sort order first, and on
/// equal sort orders the later creation time first.
pub open spec fn precedes(a: Todo, b: Todo) -> bool {
    a.sort_order < b.sort_order || (a.sort_order == b.sort_order && text_le(
        b.created_at@,
        a.created_at@,
    ))
}

pub proof fn lemma_precedes_total(a: Todo, b: Todo)
    ensures
        precedes(a, b) || precedes(b, a),
{
    lemma_text_le_total(a.created_at@, b.created_at@);
}

/// Each todo may stand before the next one.
pub open spec fn is_listed_order(s: Seq<Todo>) -> bool {
    forall|i: int| 0 <= i < s.len() - 1 ==> precedes(#[trigger] s[i], s[i + 1])
}

/// Whether `a` may stand before `b`, computed.
pub fn text_le_exec(a: &String, b: &String) -> (r: bool)
    ensures
        r == text_le(a@, b@),
{
    let sa = a.as_str();
    let sb = b.as_str();
    let la = sa.unicode_len();
    let lb = sb.unicode_len();
    let mut i: usize = 0;
    proof {
        assert(a@.subrange(0, la as int) =~= a@);
        assert(b@.subrange(0, lb as int) =~= b@);
    }
    while i < la && i < lb
        invariant
            i <= la,
            i <= lb,
            la == sa@.len(),
            lb == sb@.len(),
            sa@ == a@,
            sb@ == b@,
            text_le(a@, b@) == text_le(a@.subrange(i as int, la as int), b@.subrange(i as int, lb as int)),
        decreases la - i,
    {
        let ca = sa.get_char(i);
        let cb = sb.get_char(i);
        proof {
            let x = a@.subrange(i as int, la as int);
            let y = b@.subrange(i as int, lb as int);
            assert(x.drop_first() =~= a@.subrange(i + 1, la as int));
            assert(y.drop_first() =~= b@.subrange(i + 1, lb as int));
        }
        if ca != cb {
            return ca < cb;
        }
        i = i + 1;
    }
    i == la
}

pub fn precedes_exec(a: &Todo, b: &Todo) -> (r: bool)
    ensures
        r == precedes(*a, *b),
{
    if a.sort_order < b.sort_order {
        true
    } else if a.sort_order == b.sort_order {
        text_le_exec(&b.created_at, &a.created_at)
    } else {
        false
    }
}

} // verus!
