use simple_todo_note::database::{Database, LegacyTodo, MigrationResult};
use simple_todo_note::store::{CreateTodoInput, DueDateUpdate, TodoStore, UpdateTodoInput};
use simple_todo_note::todo::{Todo, TodoError};

fn input(title: &str) -> CreateTodoInput {
    CreateTodoInput { title: title.to_string(), recurrence_tag: None, note: None, due_date: None }
}

fn no_change(id: &str) -> UpdateTodoInput {
    UpdateTodoInput {
        id: id.to_string(),
        title: None,
        recurrence_tag: None,
        note: None,
        completed: None,
        due_date: DueDateUpdate::Unchanged,
    }
}

fn sort_of(store: &TodoStore, id: &str) -> i64 {
    store.todos.iter().find(|t| t.id == id).unwrap().sort_order
}

fn legacy(id: &str, title: &str) -> LegacyTodo {
    LegacyTodo {
        id: id.to_string(),
        title: title.to_string(),
        recurrence_tag: None,
        note: String::new(),
        completed: false,
        due_date: None,
        created_at: "2023-01-01T00:00:00+00:00".to_string(),
        updated_at: String::new(),
    }
}

#[test]
fn create_rejects_blank_titles_and_trims() {
    let mut store = TodoStore::new();
    assert!(matches!(store.create_todo(input("")), Err(TodoError::EmptyTitle)));
    assert!(matches!(store.create_todo(input("   ")), Err(TodoError::EmptyTitle)));
    assert!(store.todos.is_empty());
    let t = store.create_todo(input(" Buy milk ")).unwrap();
    assert_eq!(t.title, "Buy milk");
    assert_eq!(store.todos[0].title, "Buy milk");
}

#[test]
fn create_defaults_and_fresh_values() {
    let mut store = TodoStore::new();
    let t = store.create_todo(input("Buy milk")).unwrap();
    assert!(!t.completed);
    assert_eq!(t.recurrence_tag, "none");
    assert_eq!(t.note, "");
    assert_eq!(t.due_date, None);
    assert_eq!(t.sort_order, -1);
    assert_eq!(t.id.len(), 36);
    assert!(!t.created_at.is_empty());
    assert_eq!(t.created_at, t.updated_at);
    let u = store.create_todo(input("Call mom")).unwrap();
    assert_ne!(t.id, u.id);
}

#[test]
fn create_normalises_tag_note_and_date() {
    let mut store = TodoStore::new();
    let t = store
        .create_todo(CreateTodoInput {
            title: "Run".to_string(),
            recurrence_tag: Some(" daily ".to_string()),
            note: Some("far".to_string()),
            due_date: Some(" 2024-01-01 ".to_string()),
        })
        .unwrap();
    assert_eq!(t.recurrence_tag, "daily");
    assert_eq!(t.note, "far");
    assert_eq!(t.due_date, Some("2024-01-01".to_string()));
    let u = store
        .create_todo(CreateTodoInput {
            title: "Walk".to_string(),
            recurrence_tag: Some("weekly".to_string()),
            note: None,
            due_date: Some("   ".to_string()),
        })
        .unwrap();
    assert_eq!(u.recurrence_tag, "none");
    assert_eq!(u.due_date, None);
}

#[test]
fn each_create_sorts_before_all_earlier() {
    let mut store = TodoStore::new();
    let mut previous: Vec<i64> = Vec::new();
    for n in 0..6 {
        let t = store.create_todo(input(&format!("task {n}"))).unwrap();
        for p in &previous {
            assert!(t.sort_order < *p);
        }
        previous.push(t.sort_order);
    }
    assert_eq!(previous, vec![-1, -2, -3, -4, -5, -6]);
}

#[test]
fn create_with_given_id_and_time() {
    let mut store = TodoStore::new();
    let t = store.create_todo_with(input("a"), "id-1".to_string(), "T1".to_string()).unwrap();
    assert_eq!(t.id, "id-1");
    assert_eq!(t.created_at, "T1");
    let dup = store.create_todo_with(input("b"), "id-1".to_string(), "T2".to_string());
    assert!(matches!(dup, Err(TodoError::DuplicateId(ref id)) if id == "id-1"));
    assert_eq!(store.todos.len(), 1);
}

#[test]
fn create_fails_when_no_sort_order_is_left() {
    let mut store = TodoStore::new();
    store.create_todo_with(input("a"), "a".to_string(), "T".to_string()).unwrap();
    store.todos[0].sort_order = i64::MIN;
    let r = store.create_todo(input("b"));
    assert!(matches!(r, Err(TodoError::SortOrderOutOfRange)));
    assert_eq!(store.todos.len(), 1);
}

#[test]
fn list_orders_by_sort_then_newest_first() {
    let mut store = TodoStore::new();
    store.create_todo_with(input("a"), "a".to_string(), "2024-01-01".to_string()).unwrap();
    store.create_todo_with(input("b"), "b".to_string(), "2024-01-02".to_string()).unwrap();
    store.create_todo_with(input("c"), "c".to_string(), "2024-01-03".to_string()).unwrap();
    store.create_todo_with(input("d"), "d".to_string(), "2024-01-04".to_string()).unwrap();
    store.todos[0].sort_order = 5;
    store.todos[1].sort_order = 5;
    store.todos[2].sort_order = 7;
    store.todos[3].sort_order = -3;
    let listed: Vec<String> = store.list_todos().into_iter().map(|t: Todo| t.id).collect();
    assert_eq!(listed, vec!["d", "b", "a", "c"]);
}

#[test]
fn list_of_empty_store_is_empty() {
    let store = TodoStore::new();
    assert!(store.list_todos().is_empty());
}

#[test]
fn update_due_date_three_ways() {
    let mut store = TodoStore::new();
    let t = store
        .create_todo(CreateTodoInput {
            title: "Pay rent".to_string(),
            recurrence_tag: None,
            note: None,
            due_date: Some("2023-12-31".to_string()),
        })
        .unwrap();
    let same = store.update_todo(no_change(&t.id)).unwrap();
    assert_eq!(same.due_date, Some("2023-12-31".to_string()));
    let mut clear = no_change(&t.id);
    clear.due_date = DueDateUpdate::Clear;
    assert_eq!(store.update_todo(clear).unwrap().due_date, None);
    let mut set = no_change(&t.id);
    set.due_date = DueDateUpdate::SetTo("2024-01-01".to_string());
    let r = store.update_todo(set).unwrap();
    assert_eq!(r.due_date, Some("2024-01-01".to_string()));
    assert_eq!(store.todos[0].due_date, Some("2024-01-01".to_string()));
    assert_eq!(r.created_at, t.created_at);
}

#[test]
fn update_replaces_present_fields() {
    let mut store = TodoStore::new();
    store.create_todo_with(input("Old"), "x".to_string(), "T0".to_string()).unwrap();
    let r = store
        .update_todo_with(
            UpdateTodoInput {
                id: "x".to_string(),
                title: Some("  New  ".to_string()),
                recurrence_tag: Some("bi-weekly".to_string()),
                note: Some("n".to_string()),
                completed: Some(true),
                due_date: DueDateUpdate::SetTo("  ".to_string()),
            },
            "T1".to_string(),
        )
        .unwrap();
    assert_eq!(r.title, "New");
    assert_eq!(r.recurrence_tag, "bi-weekly");
    assert_eq!(r.note, "n");
    assert!(r.completed);
    assert_eq!(r.due_date, None);
    assert_eq!(r.created_at, "T0");
    assert_eq!(r.updated_at, "T1");
    assert_eq!(r.sort_order, -1);
}

#[test]
fn update_errors() {
    let mut store = TodoStore::new();
    let e = store.update_todo(no_change("nope")).unwrap_err();
    assert!(matches!(e, TodoError::NotFound(ref id) if id == "nope"));
    assert_eq!(e.message(), "Todo not found: nope");
    store.create_todo_with(input("Keep"), "k".to_string(), "T0".to_string()).unwrap();
    let mut blank = no_change("k");
    blank.title = Some("  ".to_string());
    let e = store.update_todo(blank).unwrap_err();
    assert!(matches!(e, TodoError::EmptyTitle));
    assert_eq!(e.message(), "Title cannot be empty");
    assert_eq!(store.todos[0].title, "Keep");
}

#[test]
fn end_to_end_create_toggle_delete() {
    let mut store = TodoStore::new();
    let t = store.create_todo(input("Buy milk")).unwrap();
    assert!(!t.completed);
    assert_eq!(t.recurrence_tag, "none");
    let toggled = store.toggle_todo_with(t.id.clone(), "later".to_string()).unwrap();
    assert!(toggled.completed);
    assert_ne!(toggled.updated_at, t.updated_at);
    assert_eq!(toggled.created_at, t.created_at);
    let back = store.toggle_todo(t.id.clone()).unwrap();
    assert!(!back.completed);
    store.delete_todo(&t.id);
    assert!(store.list_todos().iter().all(|x| x.id != t.id));
    store.delete_todo(&t.id);
    assert!(store.list_todos().is_empty());
    assert!(matches!(store.toggle_todo(t.id.clone()), Err(TodoError::NotFound(_))));
}

#[test]
fn reorder_assigns_positions() {
    let mut store = TodoStore::new();
    store.create_todo_with(input("a"), "a".to_string(), "T".to_string()).unwrap();
    store.create_todo_with(input("b"), "b".to_string(), "T".to_string()).unwrap();
    store.create_todo_with(input("c"), "c".to_string(), "T".to_string()).unwrap();
    let ids = vec!["a".to_string(), "b".to_string(), "c".to_string()];
    store.reorder_todos_with(&ids, "R".to_string());
    assert_eq!(sort_of(&store, "a"), 0);
    assert_eq!(sort_of(&store, "b"), 1);
    assert_eq!(sort_of(&store, "c"), 2);
    assert!(store.todos.iter().all(|t| t.updated_at == "R"));
    let listed: Vec<String> = store.list_todos().into_iter().map(|t: Todo| t.id).collect();
    assert_eq!(listed, vec!["a", "b", "c"]);
    store.reorder_todos(&vec!["c".to_string(), "zz".to_string(), "a".to_string()]);
    assert_eq!(sort_of(&store, "c"), 0);
    assert_eq!(sort_of(&store, "a"), 2);
    assert_eq!(sort_of(&store, "b"), 1);
}

#[test]
fn migration_runs_once() {
    let mut db = Database::new();
    let r = db.migrate_legacy_todos_if_needed(vec![legacy("l1", "Old one")]).unwrap();
    assert_eq!(r, MigrationResult { migrated_count: 1, already_migrated: false });
    let again = db.migrate_legacy_todos_if_needed(vec![legacy("l2", "Another")]).unwrap();
    assert_eq!(again, MigrationResult { migrated_count: 0, already_migrated: true });
    assert_eq!(db.todos.todos.len(), 1);
}

#[test]
fn migration_of_nothing_still_records_done() {
    let mut db = Database::new();
    let r = db.migrate_legacy_todos_if_needed(Vec::new()).unwrap();
    assert_eq!(r, MigrationResult { migrated_count: 0, already_migrated: false });
    let again = db.migrate_legacy_todos_if_needed(vec![legacy("l1", "x")]).unwrap();
    assert!(again.already_migrated);
    assert!(db.todos.todos.is_empty());
}

#[test]
fn migration_skips_blank_and_duplicate() {
    let mut db = Database::new();
    db.todos.create_todo_with(input("existing"), "e".to_string(), "T".to_string()).unwrap();
    let payload = vec![
        legacy("l1", "first"),
        legacy("l2", "   "),
        legacy("e", "clash"),
        legacy("l1", "again"),
        legacy("l3", "third"),
    ];
    let fresh: Vec<String> = (0..5).map(|i| format!("f{i}")).collect();
    let r = db.migrate_legacy_with(payload, fresh, "NOW".to_string()).unwrap();
    assert_eq!(r.migrated_count, 2);
    assert_eq!(db.todos.todos.len(), 3);
    // existing sorts at -1; cursor starts at -1 - 5 = -6 and moves only on insertion
    assert_eq!(sort_of(&db.todos, "l1"), -6);
    assert_eq!(sort_of(&db.todos, "l3"), -5);
    let l1 = db.todos.todos.iter().find(|t| t.id == "l1").unwrap();
    assert_eq!(l1.title, "first");
    assert_eq!(l1.updated_at, "2023-01-01T00:00:00+00:00");
    let listed: Vec<String> = db.todos.list_todos().into_iter().map(|t: Todo| t.id).collect();
    assert_eq!(listed, vec!["l1", "l3", "e"]);
}

#[test]
fn migration_fills_blank_id_and_times() {
    let mut db = Database::new();
    let mut rec = legacy(" ", "Title");
    rec.created_at = String::new();
    rec.recurrence_tag = Some("weekly".to_string());
    rec.due_date = Some(" 2024-02-02 ".to_string());
    rec.completed = true;
    let r = db.migrate_legacy_with(vec![rec], vec!["fresh".to_string()], "NOW".to_string()).unwrap();
    assert_eq!(r.migrated_count, 1);
    let t = &db.todos.todos[0];
    assert_eq!(t.id, "fresh");
    assert_eq!(t.created_at, "NOW");
    assert_eq!(t.updated_at, "NOW");
    assert_eq!(t.recurrence_tag, "none");
    assert_eq!(t.due_date, Some("2024-02-02".to_string()));
    assert!(t.completed);
    assert_eq!(t.sort_order, -1);
}

#[test]
fn migration_generates_ids_for_blank_ones() {
    let mut db = Database::new();
    let r = db.migrate_legacy_todos_if_needed(vec![legacy("", "a"), legacy("", "b")]).unwrap();
    assert_eq!(r.migrated_count, 2);
    assert_eq!(db.todos.todos[0].id.len(), 36);
    assert_ne!(db.todos.todos[0].id, db.todos.todos[1].id);
}
