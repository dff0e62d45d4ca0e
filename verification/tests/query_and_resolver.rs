use rustytodo::id::TodoId;
use rustytodo::instant::Instant;
use rustytodo::query::{apply_list_query, ListQuery, SortKey, StatusFilter};
use rustytodo::resolver::{resolve_id_input, ResolveError};
use rustytodo::todo::Todo;
use rustytodo::values::{DueAt, Priority, Tag, Title};

fn task(title: &str, priority: Priority) -> Todo {
    let mut t = Todo::new(Title::parse(title).unwrap());
    t.priority = priority;
    t
}

#[test]
fn query_filters_by_status_project_tag_priority() {
    let now = Instant::now();
    let mut a = task("Alpha", Priority::P1);
    a.project = rustytodo::values::ProjectName::parse("Home").unwrap();
    let mut patch = rustytodo::todo::TodoPatch::default();
    patch.tags = rustytodo::todo::FieldPatch::Assign(vec![Tag::parse("chores").unwrap()]);
    a.apply_patch(patch);
    let mut b = task("Beta", Priority::P2);
    b.mark_done().unwrap();
    let todos = vec![a, b];

    let mut q = ListQuery::default();
    q.status = Some(StatusFilter::Open);
    let open_only = apply_list_query(todos.clone(), &q, &now);
    assert_eq!(open_only.len(), 1);
    assert_eq!(open_only[0].title.as_str(), "Alpha");

    let mut q2 = ListQuery::default();
    q2.status = Some(StatusFilter::Done);
    let done_only = apply_list_query(todos.clone(), &q2, &now);
    assert_eq!(done_only.len(), 1);
    assert_eq!(done_only[0].title.as_str(), "Beta");

    let mut q3 = ListQuery::default();
    q3.project = Some("  hOmE ".to_string());
    assert_eq!(apply_list_query(todos.clone(), &q3, &now).len(), 1);

    let mut q4 = ListQuery::default();
    q4.tag = Some(" Chores ".to_string());
    assert_eq!(apply_list_query(todos.clone(), &q4, &now).len(), 1);

    let mut q5 = ListQuery::default();
    q5.priority = Some(Priority::P2);
    assert_eq!(apply_list_query(todos.clone(), &q5, &now).len(), 1);
}

#[test]
fn query_search_matches_title_and_notes_case_insensitively() {
    let now = Instant::now();
    let mut a = task("Write Report", Priority::P3);
    a.notes = Some(rustytodo::values::Notes::parse("summary inside").unwrap());
    let b = task("Unrelated", Priority::P3);
    let todos = vec![a, b];

    let mut q = ListQuery::default();
    q.search = Some("REPORT".to_string());
    assert_eq!(apply_list_query(todos.clone(), &q, &now).len(), 1);

    let mut q2 = ListQuery::default();
    q2.search = Some("SumMary".to_string());
    assert_eq!(apply_list_query(todos.clone(), &q2, &now).len(), 1);

    let mut q3 = ListQuery::default();
    q3.search = Some("   ".to_string());
    assert_eq!(apply_list_query(todos.clone(), &q3, &now).len(), 2);
}

#[test]
fn query_overdue_filter() {
    let now = Instant::now();
    let mut late = task("Late", Priority::P3);
    late.due = Some(DueAt::parse_rfc3339("2001-01-01T00:00:00Z").unwrap());
    let fresh = task("Fresh", Priority::P3);
    let todos = vec![late, fresh];

    let mut q = ListQuery::default();
    q.overdue = true;
    let r = apply_list_query(todos, &q, &now);
    assert_eq!(r.len(), 1);
    assert_eq!(r[0].title.as_str(), "Late");
}

#[test]
fn list_sort_priority_orders_p1_first() {
    let now = Instant::now();
    let todos = vec![
        task("Low", Priority::P4),
        task("High", Priority::P1),
        task("Mid", Priority::P3),
    ];
    let mut q = ListQuery::default();
    q.sort = SortKey::Priority;
    let sorted = apply_list_query(todos, &q, &now);
    for w in sorted.windows(2) {
        assert!(w[0].priority.rank() <= w[1].priority.rank());
    }
    assert_eq!(sorted[0].title.as_str(), "High");
}

#[test]
fn due_sort_places_undated_after_dated_and_desc_reverses() {
    let now = Instant::now();
    let mut early = task("Early", Priority::P3);
    early.due = Some(DueAt::parse_rfc3339("2026-01-01T00:00:00Z").unwrap());
    let mut later = task("Later", Priority::P3);
    later.due = Some(DueAt::parse_rfc3339("2027-01-01T00:00:00Z").unwrap());
    let undated = task("Undated", Priority::P3);
    let todos = vec![undated.clone(), later.clone(), early.clone()];

    let q = ListQuery::default();
    let asc = apply_list_query(todos.clone(), &q, &now);
    let names: Vec<&str> = asc.iter().map(|t| t.title.as_str()).collect();
    assert_eq!(names, vec!["Early", "Later", "Undated"]);

    let mut qd = ListQuery::default();
    qd.desc = true;
    let desc = apply_list_query(todos, &qd, &now);
    let names_desc: Vec<&str> = desc.iter().map(|t| t.title.as_str()).collect();
    assert_eq!(names_desc, vec!["Undated", "Later", "Early"]);
}

#[test]
fn created_sort_is_stable_for_ties() {
    let now = Instant::now();
    let a = task("First", Priority::P3);
    let mut b = a.clone();
    b.title = Title::parse("Second").unwrap();
    b.id = TodoId::from_value(7);
    let todos = vec![a, b];
    let mut q = ListQuery::default();
    q.sort = SortKey::Created;
    let sorted = apply_list_query(todos, &q, &now);
    assert_eq!(sorted[0].title.as_str(), "First");
    assert_eq!(sorted[1].title.as_str(), "Second");
}

fn with_id(title: &str, value: u128) -> Todo {
    let mut t = Todo::new(Title::parse(title).unwrap());
    t.id = TodoId::from_value(value);
    t
}

#[test]
fn resolver_distinguishes_the_documented_outcomes() {
    let a = with_id("First", 0xaaaa1111_0000_4000_8000_000000000001u128);
    let b = with_id("Second", 0xaaaa2222_0000_4000_8000_000000000002u128);
    assert_eq!(a.id.short(), "aaaa1111");
    assert_eq!(b.id.short(), "aaaa2222");
    let todos = vec![a.clone(), b.clone()];

    match resolve_id_input(&todos, "aaaa") {
        Err(ResolveError::Ambiguous { candidates }) => {
            assert_eq!(candidates.len(), 2);
            assert_eq!(candidates[0].0, "aaaa1111");
            assert_eq!(candidates[0].1, "First");
            assert_eq!(candidates[1].0, "aaaa2222");
            assert_eq!(candidates[1].1, "Second");
        }
        other => panic!("expected ambiguity, got {:?}", other),
    }

    assert_eq!(resolve_id_input(&todos, "aaaa1111").unwrap(), a.id);

    assert_eq!(
        resolve_id_input(&todos, "zz"),
        Err(ResolveError::PrefixTooShort)
    );

    let unowned = "99999999-9999-4999-8999-999999999999";
    let resolved = resolve_id_input(&todos, unowned).unwrap();
    assert_eq!(resolved.as_uuid_str(), unowned);

    match resolve_id_input(&todos, "bbbb0000") {
        Err(ResolveError::NotFound { input }) => assert_eq!(input, "bbbb0000"),
        other => panic!("expected not found, got {:?}", other),
    }
}

#[test]
fn resolver_matches_canonical_prefix_beyond_short_form() {
    let a = with_id("Task", 0xabcdef12_3456_4789_8abc_def123456789u128);
    let todos = vec![a.clone()];
    assert_eq!(
        resolve_id_input(&todos, "abcdef12-3456").unwrap(),
        a.id
    );
}
