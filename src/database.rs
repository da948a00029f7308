//! The whole store: the todos and the key-value entries beside them, and the
//! one-time import of legacy records.

use vstd::prelude::*;
use crate::meta::MetaStore;
use crate::sources::{new_id, now_iso};
use crate::store::{TodoStore, has_id, lowest_sort};
use crate::text::{
    trim_of, is_blank, canonical_tag, normalized_date, opt_view, trim_text, normalize_date,
    normalize_recurrence_tag,
};
use crate::todo::{Todo, TodoError, TodoModel, todo_model, todo_models};

verus! {

/// The key under which the end of the legacy import is recorded.
pub const MIGRATION_KEY: &'static str = "legacy_migration_done";

/// The key of the window preferences, as JSON.
pub const WINDOW_PREFS_KEY: &'static str = "window_prefs_json";

/// The key of the interface preferences, as JSON.
pub const UI_PREFS_KEY: &'static str = "ui_prefs_json";

pub open spec fn migration_key() -> Seq<char> {
    seq![
        'l', 'e', 'g', 'a', 'c', 'y', '_', 'm', 'i', 'g', 'r', 'a', 't', 'i', 'o', 'n', '_', 'd', 'o', 'n', 'e',
    ]
}

pub open spec fn text_true() -> Seq<char> {
    seq!['t', 'r', 'u', 'e']
}

/// A record of the earlier store, as it is handed over for import.
#[derive(Debug)]
pub struct LegacyTodo {
    pub id: String,
    pub title: String,
    pub recurrence_tag: Option<String>,
    pub note: String,
    pub completed: bool,
    pub due_date: Option<String>,
    pub created_at: String,
    pub updated_at: String,
}

#[derive(Debug, PartialEq, Eq, Clone, Copy)]
pub struct MigrationResult {
    pub migrated_count: usize,
    pub already_migrated: bool,
}

/// The id a legacy record is imported under: its own, or a fresh one where
/// its own is blank.
pub open spec fn legacy_id(rec: LegacyTodo, fresh: Seq<char>) -> Seq<char> {
    if is_blank(rec.id@) { fresh } else { rec.id@ }
}

pub open spec fn legacy_created(rec: LegacyTodo, now: Seq<char>) -> Seq<char> {
    if is_blank(rec.created_at@) { now } else { rec.created_at@ }
}

pub open spec fn legacy_updated(rec: LegacyTodo, now: Seq<char>) -> Seq<char> {
    if is_blank(rec.updated_at@) { legacy_created(rec, now) } else { rec.updated_at@ }
}

/// The todo a legacy record becomes at sort order `sort`.
pub open spec fn legacy_model(rec: LegacyTodo, fresh: Seq<char>, now: Seq<char>, sort: int) -> TodoModel {
    TodoModel {
        id: legacy_id(rec, fresh),
        title: trim_of(rec.title@),
        recurrence_tag: canonical_tag(opt_view(rec.recurrence_tag)),
        note: rec.note@,
        completed: rec.completed,
        due_date: normalized_date(opt_view(rec.due_date)),
        created_at: legacy_created(rec, now),
        updated_at: legacy_updated(rec, now),
        sort_order: sort,
    }
}

pub open spec fn model_has_id(s: Seq<TodoModel>, id: Seq<char>) -> bool {
    exists|i: int| 0 <= i < s.len() && (#[trigger] s[i]).id == id
}

/// One record of the import: a blank title or an id already stored leaves
/// the todos as they are; otherwise the record is added at sort order `sort`.
pub open spec fn import_step(
    acc: Seq<TodoModel>,
    rec: LegacyTodo,
    fresh: Seq<char>,
    now: Seq<char>,
    sort: int,
) -> Seq<TodoModel> {
    if is_blank(rec.title@) || model_has_id(acc, legacy_id(rec, fresh)) {
        acc
    } else {
        acc.push(legacy_model(rec, fresh, now, sort))
    }
}

/// The todos after importing the first `n` records onto `base`, the
/// sort orders counting up from `start` by one for each record added.
pub open spec fn import_prefix(
    base: Seq<TodoModel>,
    recs: Seq<LegacyTodo>,
    fresh: Seq<String>,
    now: Seq<char>,
    start: int,
    n: int,
) -> Seq<TodoModel>
    decreases n,
{
    if n <= 0 {
        base
    } else {
        let prev = import_prefix(base, recs, fresh, now, start, n - 1);
        import_step(prev, recs[n - 1], fresh[n - 1]@, now, start + prev.len() - base.len())
    }
}

pub proof fn lemma_import_prefix_len(
    base: Seq<TodoModel>,
    recs: Seq<LegacyTodo>,
    fresh: Seq<String>,
    now: Seq<char>,
    start: int,
    n: int,
)
    requires
        n >= 0,
    ensures
        base.len() <= import_prefix(base, recs, fresh, now, start, n).len() <= base.len() + n,
    decreases n,
{
    if n > 0 {
        lemma_import_prefix_len(base, recs, fresh, now, start, n - 1);
    }
}

/// A record that is skipped, for a blank title or an id already stored,
/// changes nothing: it is not counted and takes no sort order.
pub proof fn lemma_skipped_record_changes_nothing(
    base: Seq<TodoModel>,
    recs: Seq<LegacyTodo>,
    fresh: Seq<String>,
    now: Seq<char>,
    start: int,
    n: int,
)
    requires
        0 < n <= recs.len(),
        n <= fresh.len(),
        is_blank(recs[n - 1].title@) || model_has_id(
            import_prefix(base, recs, fresh, now, start, n - 1),
            legacy_id(recs[n - 1], fresh[n - 1]@),
        ),
    ensures
        import_prefix(base, recs, fresh, now, start, n) == import_prefix(base, recs, fresh, now, start, n - 1),
{
}

/// A record that is added takes the next sort order: `start` plus the
/// number of records added before it.
pub proof fn lemma_added_record_takes_next_slot(
    base: Seq<TodoModel>,
    recs: Seq<LegacyTodo>,
    fresh: Seq<String>,
    now: Seq<char>,
    start: int,
    n: int,
)
    requires
        0 < n <= recs.len(),
        n <= fresh.len(),
        import_prefix(base, recs, fresh, now, start, n).len() > import_prefix(
            base,
            recs,
            fresh,
            now,
            start,
            n - 1,
        ).len(),
    ensures
        ({
            let prev = import_prefix(base, recs, fresh, now, start, n - 1);
            let cur = import_prefix(base, recs, fresh, now, start, n);
            &&& cur == prev.push(legacy_model(recs[n - 1], fresh[n - 1]@, now, start + prev.len() - base.len()))
            &&& !is_blank(recs[n - 1].title@)
            &&& !model_has_id(prev, legacy_id(recs[n - 1], fresh[n - 1]@))
        }),
{
}

/// The todos after a full import of `recs` onto `base`.
pub open spec fn is_import_of(
    after: Seq<TodoModel>,
    base: Seq<TodoModel>,
    recs: Seq<LegacyTodo>,
    fresh: Seq<String>,
    now: Seq<char>,
    start: int,
) -> bool {
    &&& fresh.len() == recs.len()
    &&& after == import_prefix(base, recs, fresh, now, start, recs.len() as int)
}

/// The todos and the key-value entries.
pub struct Database {
    pub todos: TodoStore,
    pub meta: MetaStore,
}

impl Database {
    pub open spec fn wf(&self) -> bool {
        self.todos.wf() && self.meta.wf()
    }

    /// The import has been recorded as done.
    pub open spec fn migration_done(&self) -> bool {
        self.meta.spec_get(migration_key()) == Some(text_true())
    }

    /// Whether this store meets `wf`: used on a store read from outside.
    pub fn is_well_formed(&self) -> (r: bool)
        ensures
            r == self.wf(),
    {
        self.todos.is_well_formed() && self.meta.is_well_formed()
    }

    pub fn new() -> (r: Database)
        ensures
            r.wf(),
            r.todos@ == Seq::<Todo>::empty(),
            forall|k: Seq<char>| r.meta.spec_get(k) is None,
    {
        Database { todos: TodoStore::new(), meta: MetaStore::new() }
    }

    /// Imports `payload` once. A record with a blank id takes the fresh id at
    /// its place in `fresh`; blank times become `now`. The imported todos take
    /// sort orders below all stored ones, in the order of `payload`.
    pub fn migrate_legacy_with(
        &mut self,
        payload: Vec<LegacyTodo>,
        fresh: Vec<String>,
        now: String,
    ) -> (r: Result<MigrationResult, TodoError>)
        requires
            old(self).wf(),
            fresh@.len() == payload@.len(),
        ensures
            final(self).wf(),
            old(self).migration_done() ==> r == Ok::<MigrationResult, TodoError>(
                MigrationResult { migrated_count: 0, already_migrated: true },
            ),
            !old(self).migration_done() && lowest_sort(old(self).todos@) - payload@.len() < i64::MIN ==> r
                == Err::<MigrationResult, TodoError>(TodoError::SortOrderOutOfRange),
            !old(self).migration_done() && lowest_sort(old(self).todos@) - payload@.len() >= i64::MIN ==> r is Ok,
            r matches Ok(m) ==> (m.already_migrated <==> old(self).migration_done()),
            r is Err ==> final(self).todos@ == old(self).todos@ && final(self).meta@ == old(self).meta@,
            r matches Ok(m) && m.already_migrated ==> final(self).todos@ == old(self).todos@ && final(self).meta@
                == old(self).meta@,
            r matches Ok(m) ==> !m.already_migrated ==> {
                &&& todo_models(final(self).todos@) == import_prefix(
                    todo_models(old(self).todos@),
                    payload@,
                    fresh@,
                    now@,
                    lowest_sort(old(self).todos@) - payload@.len(),
                    payload@.len() as int,
                )
                &&& m.migrated_count == final(self).todos@.len() - old(self).todos@.len()
                &&& final(self).migration_done()
                &&& forall|k: Seq<char>|
                    k != migration_key() ==> final(self).meta.spec_get(k) == old(self).meta.spec_get(k)
            },
    {
        proof {
            reveal_strlit("legacy_migration_done");
            reveal_strlit("true");
            assert(MIGRATION_KEY@ =~= migration_key());
            assert("true"@ =~= text_true());
        }
        let key = MIGRATION_KEY.to_owned();
        let flag = self.meta.get_meta(&key);
        match flag {
            Some(v) => {
                if v == "true".to_owned() {
                    return Ok(MigrationResult { migrated_count: 0, already_migrated: true });
                }
            },
            None => {},
        }
        let lowest = self.todos.lowest_sort_order();
        let n = payload.len();
        if (n as i128) > (lowest as i128) - (i64::MIN as i128) {
            return Err(TodoError::SortOrderOutOfRange);
        }
        let start: i64 = ((lowest as i128) - (n as i128)) as i64;
        let ghost base = todo_models(self.todos@);
        let mut count: usize = 0;
        let mut cursor: i64 = start;
        let mut i: usize = 0;
        while i < n
            invariant
                n == payload@.len(),
                fresh@.len() == n,
                i <= n,
                self.wf(),
                self.meta == old(self).meta,
                lowest == lowest_sort(old(self).todos@),
                start == lowest - n,
                base == todo_models(old(self).todos@),
                todo_models(self.todos@) == import_prefix(base, payload@, fresh@, now@, start as int, i as int),
                count == self.todos@.len() - old(self).todos@.len(),
                cursor == start + count,
            decreases n - i,
        {
            proof {
                lemma_import_prefix_len(base, payload@, fresh@, now@, start as int, i as int);
            }
            let rec = &payload[i];
            let title = trim_text(rec.title.as_str());
            if !title.is_empty() {
                let id = if trim_text(rec.id.as_str()).is_empty() {
                    fresh[i].clone()
                } else {
                    rec.id.clone()
                };
                let created = if trim_text(rec.created_at.as_str()).is_empty() {
                    now.clone()
                } else {
                    rec.created_at.clone()
                };
                let updated = if trim_text(rec.updated_at.as_str()).is_empty() {
                    created.clone()
                } else {
                    rec.updated_at.clone()
                };
                let ghost prev = todo_models(self.todos@);
                proof {
                    assert(has_id(self.todos@, id@) <==> model_has_id(prev, id@)) by {
                        if has_id(self.todos@, id@) {
                            let j = choose|j: int| 0 <= j < self.todos@.len() && (#[trigger] self.todos@[j]).id@ == id@;
                            assert(prev[j].id == id@);
                        }
                        if model_has_id(prev, id@) {
                            let j = choose|j: int| 0 <= j < prev.len() && (#[trigger] prev[j]).id == id@;
                            assert(self.todos@[j].id@ == id@);
                        }
                    }
                }
                if self.todos.find_index(&id).is_none() {
                    let todo = Todo {
                        id,
                        title: title.to_owned(),
                        recurrence_tag: normalize_recurrence_tag(rec.recurrence_tag.clone()),
                        note: rec.note.clone(),
                        completed: rec.completed,
                        due_date: normalize_date(rec.due_date.clone()),
                        created_at: created,
                        updated_at: updated,
                        sort_order: cursor,
                    };
                    proof {
                        assert(todo_model(todo) == legacy_model(*rec, fresh@[i as int]@, now@, cursor as int));
                    }
                    self.todos.insert_new(todo);
                    count = count + 1;
                    cursor = cursor + 1;
                }
            }
            i = i + 1;
        }
        self.meta.set_meta(key, "true".to_owned());
        Ok(MigrationResult { migrated_count: count, already_migrated: false })
    }

    /// Imports `payload` once, with fresh ids for blank ones and the current
    /// time for blank times. Once the import is recorded as done, any later
    /// call changes nothing and reports it.
    pub fn migrate_legacy_todos_if_needed(&mut self, payload: Vec<LegacyTodo>) -> (r: Result<MigrationResult, TodoError>)
        requires
            old(self).wf(),
        ensures
            final(self).wf(),
            old(self).migration_done() ==> r == Ok::<MigrationResult, TodoError>(
                MigrationResult { migrated_count: 0, already_migrated: true },
            ),
            !old(self).migration_done() && lowest_sort(old(self).todos@) - payload@.len() < i64::MIN ==> r
                == Err::<MigrationResult, TodoError>(TodoError::SortOrderOutOfRange),
            !old(self).migration_done() && lowest_sort(old(self).todos@) - payload@.len() >= i64::MIN ==> r is Ok,
            r matches Ok(m) ==> (m.already_migrated <==> old(self).migration_done()),
            r is Err ==> final(self).todos@ == old(self).todos@ && final(self).meta@ == old(self).meta@,
            r matches Ok(m) && m.already_migrated ==> final(self).todos@ == old(self).todos@ && final(self).meta@
                == old(self).meta@,
            r matches Ok(m) ==> !m.already_migrated ==> {
                &&& exists|fresh: Seq<String>, now: Seq<char>| #[trigger]
                    is_import_of(
                        todo_models(final(self).todos@),
                        todo_models(old(self).todos@),
                        payload@,
                        fresh,
                        now,
                        lowest_sort(old(self).todos@) - payload@.len(),
                    )
                &&& m.migrated_count == final(self).todos@.len() - old(self).todos@.len()
                &&& final(self).migration_done()
                &&& forall|k: Seq<char>|
                    k != migration_key() ==> final(self).meta.spec_get(k) == old(self).meta.spec_get(k)
            },
    {
        let mut fresh: Vec<String> = Vec::new();
        let mut i: usize = 0;
        while i < payload.len()
            invariant
                i <= payload@.len(),
                fresh@.len() == i,
            decreases payload@.len() - i,
        {
            fresh.push(new_id());
            i = i + 1;
        }
        let now = now_iso();
        let ghost fresh_ids = fresh@;
        let ghost at = now@;
        let r = self.migrate_legacy_with(payload, fresh, now);
        proof {
            if r is Ok {
                if !r->Ok_0.already_migrated {
                    assert(is_import_of(
                        todo_models(self.todos@),
                        todo_models(old(self).todos@),
                        payload@,
                        fresh_ids,
                        at,
                        lowest_sort(old(self).todos@) - payload@.len(),
                    ));
                }
            }
        }
        r
    }

    /// The window preferences as stored, in JSON, if any.
    pub fn window_prefs_json(&self) -> (r: Option<String>)
        requires
            self.wf(),
        ensures
            r matches Some(v) ==> self.meta.spec_get(WINDOW_PREFS_KEY@) == Some(v@),
            r is None ==> self.meta.spec_get(WINDOW_PREFS_KEY@) is None,
    {
        self.meta.get_meta(&WINDOW_PREFS_KEY.to_owned())
    }

    /// Stores the window preferences, in JSON, replacing what was there.
    pub fn save_window_prefs_json(&mut self, json: String)
        requires
            old(self).wf(),
        ensures
            final(self).wf(),
            final(self).todos == old(self).todos,
            final(self).meta.spec_get(WINDOW_PREFS_KEY@) == Some(json@),
            forall|k: Seq<char>|
                k != WINDOW_PREFS_KEY@ ==> final(self).meta.spec_get(k) == old(self).meta.spec_get(k),
    {
        self.meta.set_meta(WINDOW_PREFS_KEY.to_owned(), json);
    }

    /// The interface preferences as stored, in JSON, if any.
    pub fn ui_prefs_json(&self) -> (r: Option<String>)
        requires
            self.wf(),
        ensures
            r matches Some(v) ==> self.meta.spec_get(UI_PREFS_KEY@) == Some(v@),
            r is None ==> self.meta.spec_get(UI_PREFS_KEY@) is None,
    {
        self.meta.get_meta(&UI_PREFS_KEY.to_owned())
    }

    /// Stores the interface preferences, in JSON, replacing what was there.
    pub fn save_ui_prefs_json(&mut self, json: String)
        requires
            old(self).wf(),
        ensures
            final(self).wf(),
            final(self).todos == old(self).todos,
            final(self).meta.spec_get(UI_PREFS_KEY@) == Some(json@),
            forall|k: Seq<char>| k != UI_PREFS_KEY@ ==> final(self).meta.spec_get(k) == old(self).meta.spec_get(k),
    {
        self.meta.set_meta(UI_PREFS_KEY.to_owned(), json);
    }
}

} // verus!
