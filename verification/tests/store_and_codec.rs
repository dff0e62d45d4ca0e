use rustytodo::db_schema::{load_any, write_current, StoreError};
use rustytodo::errors::AppError;
use rustytodo::repo::{MemoryTodoRepository, TodoRepository};
use rustytodo::store::{Store, TodoService};
use rustytodo::todo::{Status, Todo};
use rustytodo::values::{DueAt, Notes, Priority, Tag, Title};

#[test]
fn service_add_then_list() {
    let repo = MemoryTodoRepository::new();
    let mut svc = TodoService::new(repo);

    svc.add_todo(Title::parse("Hello").unwrap()).unwrap();
    svc.add_todo(Title::parse("World").unwrap()).unwrap();

    let todos = svc.list_todos();
    assert_eq!(todos.len(), 2);
    assert_eq!(todos[0].title.as_str(), "Hello");
    assert_eq!(todos[1].title.as_str(), "World");
}

#[test]
fn repo_add_then_list_returns_items() {
    let mut repo = MemoryTodoRepository::new();
    repo.add(Todo::new(Title::parse("One").unwrap()));
    repo.add(Todo::new(Title::parse("Two").unwrap()));

    let items = repo.list();
    assert_eq!(items.len(), 2);
    assert_eq!(items[0].title.as_str(), "One");
    assert_eq!(items[1].title.as_str(), "Two");
}

#[test]
fn repo_replace_updates_item() {
    let mut repo = MemoryTodoRepository::new();
    let mut t = Todo::new(Title::parse("One").unwrap());
    let id = t.id;
    repo.add(t.clone());

    t.title = Title::parse("Updated").unwrap();
    assert!(repo.replace(t));

    let got = repo.get(id).unwrap();
    assert_eq!(got.title.as_str(), "Updated");
}

#[test]
fn repo_remove_and_miss_outcomes() {
    let mut repo = MemoryTodoRepository::new();
    let t = Todo::new(Title::parse("One").unwrap());
    let id = t.id;
    repo.add(t);
    assert!(repo.remove(id));
    assert!(!repo.remove(id));
    assert!(repo.get(id).is_none());
    let other = Todo::new(Title::parse("Two").unwrap());
    assert!(!repo.replace(other));
}

#[test]
fn store_mark_done_open_and_delete_flow() {
    let mut store = Store::new(MemoryTodoRepository::new());
    let id = store.add_todo(Title::parse("Task").unwrap()).unwrap();

    store.mark_done(id).unwrap();
    assert_eq!(store.mark_done(id).unwrap_err(), AppError::AlreadyDone);
    store.mark_open(id).unwrap();
    assert_eq!(store.mark_open(id).unwrap_err(), AppError::AlreadyOpen);
    store.delete(id).unwrap();
    assert_eq!(store.delete(id).unwrap_err(), AppError::TodoNotFound);
    assert_eq!(store.mark_done(id).unwrap_err(), AppError::TodoNotFound);
    assert!(store.is_empty());
}

#[test]
fn store_edit_and_set_all() {
    let mut store = Store::new(MemoryTodoRepository::new());
    let id = store.add_todo(Title::parse("Before").unwrap()).unwrap();
    let mut patch = rustytodo::todo::TodoPatch::default();
    patch.title = rustytodo::todo::FieldPatch::Assign(Title::parse("After").unwrap());
    assert!(store.edit_todo(id, patch));
    assert_eq!(store.list_todos()[0].title.as_str(), "After");

    let missing = rustytodo::id::TodoId::from_value(42);
    let patch2 = rustytodo::todo::TodoPatch::default();
    assert!(!store.edit_todo(missing, patch2));

    let replacement = vec![Todo::new(Title::parse("Only").unwrap())];
    store.set_all(replacement);
    let listed = store.list_todos();
    assert_eq!(listed.len(), 1);
    assert_eq!(listed[0].title.as_str(), "Only");
}

#[test]
fn load_any_reads_v1() {
    let todo = Todo::new(Title::parse("A").unwrap());
    let json = write_current(&vec![todo]);
    let todos = load_any(&json).unwrap();
    assert_eq!(todos.len(), 1);
    assert_eq!(todos[0].title.as_str(), "A");
}

#[test]
fn document_round_trips_every_field() {
    let mut t = Todo::new(Title::parse("Quote \" backslash \\ and\nnewline").unwrap());
    t.notes = Some(Notes::parse("some notes with a tab\there").unwrap());
    t.project = rustytodo::values::ProjectName::parse("Errands").unwrap();
    t.priority = Priority::P2;
    t.due = Some(DueAt::parse_rfc3339("2026-05-06T07:08:09+01:30").unwrap());
    let mut patch = rustytodo::todo::TodoPatch::default();
    patch.tags = rustytodo::todo::FieldPatch::Assign(vec![
        Tag::parse("work").unwrap(),
        Tag::parse("errand").unwrap(),
    ]);
    t.apply_patch(patch);
    t.mark_done().unwrap();
    let open_extra = Todo::new(Title::parse("Second").unwrap());

    let before = vec![t, open_extra];
    let json = write_current(&before);
    let after = load_any(&json).unwrap();
    assert_eq!(after.len(), 2);
    for (a, b) in before.iter().zip(after.iter()) {
        assert_eq!(a.id, b.id);
        assert_eq!(a.title.as_str(), b.title.as_str());
        assert_eq!(a.notes.as_ref().map(|n| n.as_str().to_string()),
                   b.notes.as_ref().map(|n| n.as_str().to_string()));
        assert_eq!(a.project.as_str(), b.project.as_str());
        let at: Vec<&str> = a.tags.iter().map(|x| x.as_str()).collect();
        let bt: Vec<&str> = b.tags.iter().map(|x| x.as_str()).collect();
        assert_eq!(at, bt);
        assert_eq!(a.status, b.status);
        assert_eq!(a.priority, b.priority);
        assert_eq!(a.due, b.due);
        assert_eq!(a.created_at, b.created_at);
        assert_eq!(a.updated_at, b.updated_at);
    }
}

#[test]
fn load_rejects_garbage_and_unknown_version() {
    assert_eq!(load_any("not json at all"), Err(StoreError::Malformed));
    assert_eq!(load_any(""), Err(StoreError::Malformed));
    assert_eq!(
        load_any("{\"schema_version\":2,\"todos\":[]}"),
        Err(StoreError::UnsupportedSchemaVersion { version: 2 })
    );
    assert_eq!(
        load_any("{\"schema_version\":0,\"todos\":[]}"),
        Err(StoreError::UnsupportedSchemaVersion { version: 0 })
    );
    assert_eq!(
        load_any("{\"schema_version\":1,\"todos\":[]} "),
        Err(StoreError::Malformed)
    );
}

#[test]
fn load_accepts_empty_document() {
    let empty = write_current(&Vec::new());
    assert_eq!(empty, "{\"schema_version\":1,\"todos\":[]}");
    assert_eq!(load_any(&empty).unwrap().len(), 0);
}

#[test]
fn end_to_end_persist_and_reload() {
    let mut store = Store::new(MemoryTodoRepository::new());
    store.add_todo(Title::parse("Buy milk").unwrap()).unwrap();
    let saved = write_current(&store.list_todos());

    let mut reloaded = Store::new(MemoryTodoRepository::new());
    reloaded.set_all(load_any(&saved).unwrap());
    let listed = reloaded.list_todos();
    assert_eq!(listed.len(), 1);
    assert_eq!(listed[0].title.as_str(), "Buy milk");
    assert_eq!(listed[0].status, Status::Open);
    assert_eq!(listed[0].priority, Priority::P3);
}

#[test]
fn default_seed_tasks_are_valid() {
    let seeds = rustytodo::seed::default_todos();
    assert_eq!(seeds.len(), 4);
    assert_eq!(seeds[0].title.as_str(), "Welcome to rustytodo");
    assert_eq!(seeds[0].priority, Priority::P2);
    assert_eq!(seeds[3].priority, Priority::P1);
    let json = write_current(&seeds);
    assert_eq!(load_any(&json).unwrap().len(), 4);
}
