use rustytodo::errors::DomainError;
use rustytodo::id::TodoId;
use rustytodo::instant::Instant;
use rustytodo::todo::{FieldPatch, OptFieldPatch, Status, Todo, TodoPatch};
use rustytodo::values::{DueAt, Notes, Priority, Tag, Title};

#[test]
fn todo_defaults_project_inbox() {
    let todo = Todo::new(Title::parse("A").unwrap());
    assert_eq!(todo.project.as_str(), "Inbox");
    assert!(todo.tags.is_empty());
    assert!(todo.notes.is_none());
}

#[test]
fn overdue_only_when_open_and_due_in_past() {
    let now = Instant::now();
    let mut todo = Todo::new(Title::parse("A").unwrap());
    todo.due = Some(DueAt::parse_rfc3339("2001-01-01T00:00:00Z").unwrap());
    assert!(todo.is_overdue(&now));

    todo.mark_done().unwrap();
    assert!(!todo.is_overdue(&now));
}

#[test]
fn not_overdue_without_due_or_with_future_due() {
    let now = Instant::now();
    let mut todo = Todo::new(Title::parse("A").unwrap());
    assert!(!todo.is_overdue(&now));
    todo.due = Some(DueAt::parse_rfc3339("2999-01-01T00:00:00Z").unwrap());
    assert!(!todo.is_overdue(&now));
}

#[test]
fn mark_done_transitions_open_to_done() {
    let mut todo = Todo::new(Title::parse("A").unwrap());
    assert_eq!(todo.status, Status::Open);

    todo.mark_done().unwrap();
    assert!(todo.status.is_done());
    assert!(todo.updated_at.unix_nanos() >= todo.created_at.unix_nanos());
}

#[test]
fn mark_done_rejects_if_already_done() {
    let mut todo = Todo::new(Title::parse("A").unwrap());
    todo.mark_done().unwrap();
    let err = todo.mark_done().unwrap_err();
    assert_eq!(err, DomainError::AlreadyDone);
}

#[test]
fn mark_done_again_keeps_completion_instant() {
    let mut todo = Todo::new(Title::parse("A").unwrap());
    todo.mark_done().unwrap();
    let first = match &todo.status {
        Status::Done { completed_at } => completed_at.unix_nanos(),
        Status::Open => panic!("expected done"),
    };
    let before_update = todo.updated_at.unix_nanos();
    assert_eq!(todo.mark_done().unwrap_err(), DomainError::AlreadyDone);
    let second = match &todo.status {
        Status::Done { completed_at } => completed_at.unix_nanos(),
        Status::Open => panic!("expected done"),
    };
    assert_eq!(first, second);
    assert_eq!(todo.updated_at.unix_nanos(), before_update);
}

#[test]
fn mark_open_transitions_done_to_open() {
    let mut todo = Todo::new(Title::parse("A").unwrap());
    todo.mark_done().unwrap();
    todo.mark_open().unwrap();
    assert_eq!(todo.status, Status::Open);
}

#[test]
fn mark_open_rejects_if_already_open() {
    let mut todo = Todo::new(Title::parse("A").unwrap());
    let err = todo.mark_open().unwrap_err();
    assert_eq!(err, DomainError::AlreadyOpen);
    assert_eq!(todo.status, Status::Open);
}

#[test]
fn apply_patch_touches_only_assigned_fields() {
    let mut todo = Todo::new(Title::parse("Original").unwrap());
    todo.notes = Some(Notes::parse("keep me?").unwrap());
    let mut patch = TodoPatch::default();
    patch.title = FieldPatch::Assign(Title::parse("Renamed").unwrap());
    patch.priority = FieldPatch::Assign(Priority::P1);
    patch.notes = OptFieldPatch::Clear;
    todo.apply_patch(patch);
    assert_eq!(todo.title.as_str(), "Renamed");
    assert_eq!(todo.priority, Priority::P1);
    assert!(todo.notes.is_none());
    assert_eq!(todo.project.as_str(), "Inbox");
    assert_eq!(todo.status, Status::Open);
}

#[test]
fn apply_patch_normalizes_assigned_tags() {
    let mut todo = Todo::new(Title::parse("A").unwrap());
    let raw = vec![
        Tag::parse("zeta").unwrap(),
        Tag::parse("alpha").unwrap(),
        Tag::parse("zeta").unwrap(),
        Tag::parse("beta").unwrap(),
    ];
    let mut patch = TodoPatch::default();
    patch.tags = FieldPatch::Assign(raw);
    todo.apply_patch(patch);
    let texts: Vec<&str> = todo.tags.iter().map(|t| t.as_str()).collect();
    assert_eq!(texts, vec!["alpha", "beta", "zeta"]);
}

#[test]
fn id_canonical_text_round_trips() {
    let id = TodoId::from_value(0x550e8400_e29b_41d4_a716_446655440000u128);
    let text = id.as_uuid_str();
    assert_eq!(text, "550e8400-e29b-41d4-a716-446655440000");
    assert_eq!(id.short(), "550e8400");
    let back = TodoId::parse_uuid(&text).unwrap();
    assert_eq!(back, id);
    let upper = TodoId::parse_uuid("550E8400-E29B-41D4-A716-446655440000").unwrap();
    assert_eq!(upper, id);
    assert!(TodoId::parse_uuid("not-a-uuid").is_none());
    assert!(TodoId::parse_uuid("550e8400e29b41d4a716446655440000").is_none());
}

#[test]
fn fresh_ids_have_canonical_form() {
    let id = TodoId::new();
    let text = id.as_uuid_str();
    assert_eq!(text.len(), 36);
    assert_eq!(TodoId::parse_uuid(&text).unwrap(), id);
}

#[test]
fn status_symbols_differ() {
    let mut todo = Todo::new(Title::parse("A").unwrap());
    let open_symbol = todo.status_symbol();
    todo.mark_done().unwrap();
    let done_symbol = todo.status_symbol();
    assert_ne!(open_symbol, done_symbol);
}
