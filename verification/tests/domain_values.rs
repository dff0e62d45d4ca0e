use rustytodo::errors::DomainError;
use rustytodo::values::{DueAt, Notes, Priority, ProjectName, Tag, Title};

#[test]
fn title_parse_rejects_empty() {
    let err = Title::parse("   ").unwrap_err();
    assert_eq!(err, DomainError::EmptyTitle);
}

#[test]
fn title_parse_trims_and_accepts() {
    let title = Title::parse("  Buy milk  ").expect("valid title");
    assert_eq!(title.as_str(), "Buy milk");
}

#[test]
fn tag_is_normalized_to_lowercase() {
    let t = Tag::parse("Work").unwrap();
    assert_eq!(t.as_str(), "work");
}

#[test]
fn tag_rejects_invalid_chars() {
    assert!(Tag::parse("hello!").is_err());
    assert!(Tag::parse("space tag").is_err());
}

#[test]
fn tag_rejects_empty_and_inner_space() {
    assert_eq!(Tag::parse("").unwrap_err(), DomainError::EmptyTag);
    assert_eq!(Tag::parse("a b").unwrap_err(), DomainError::InvalidTag);
}

#[test]
fn tag_accepts_mixed_alphabet() {
    let t = Tag::parse("rust-lang_2").unwrap();
    assert_eq!(t.as_str(), "rust-lang_2");
}

#[test]
fn project_name_requires_non_empty() {
    assert!(ProjectName::parse("   ").is_err());
    assert_eq!(ProjectName::parse("Work").unwrap().as_str(), "Work");
}

#[test]
fn project_inbox_is_default_text() {
    assert_eq!(ProjectName::inbox().as_str(), "Inbox");
}

#[test]
fn notes_max_len_is_enforced() {
    let big = "a".repeat(10_001);
    assert!(Notes::parse(&big).is_err());
}

#[test]
fn notes_at_cap_accepted_and_trimmed() {
    let exact = "b".repeat(10_000);
    let n = Notes::parse(&exact).unwrap();
    assert_eq!(n.as_str().len(), 10_000);
    let trimmed = Notes::parse("  hello world  ").unwrap();
    assert_eq!(trimmed.as_str(), "hello world");
}

#[test]
fn priority_parse_accepts_p1_to_p4_case_insensitive() {
    assert_eq!(Priority::parse("p1").unwrap(), Priority::P1);
    assert_eq!(Priority::parse("P2").unwrap(), Priority::P2);
    assert_eq!(Priority::parse(" P3 ").unwrap(), Priority::P3);
    assert_eq!(Priority::parse("p4").unwrap(), Priority::P4);
}

#[test]
fn priority_parse_rejects_invalid() {
    let err = Priority::parse("p9").unwrap_err();
    assert_eq!(err, DomainError::InvalidPriority);
}

#[test]
fn priority_labels_round_trip() {
    for p in [Priority::P1, Priority::P2, Priority::P3, Priority::P4] {
        assert_eq!(Priority::parse(p.label()).unwrap(), p);
    }
    assert_eq!(Priority::default(), Priority::P3);
}

#[test]
fn dueat_parse_rfc3339_works_for_zulu() {
    let due = DueAt::parse_rfc3339("2026-01-02T09:00:00Z").unwrap();
    assert_eq!(due.format_rfc3339(), "2026-01-02T09:00:00Z");
}

#[test]
fn dueat_parse_rejects_garbage() {
    let err = DueAt::parse_rfc3339("tomorrow at 9").unwrap_err();
    assert_eq!(err, DomainError::InvalidDueAt);
}

#[test]
fn dueat_offset_denotes_same_instant_as_utc() {
    let offset = DueAt::parse_rfc3339("2026-01-02T09:00:00+02:00").unwrap();
    let zulu = DueAt::parse_rfc3339("2026-01-02T07:00:00Z").unwrap();
    assert_eq!(offset.as_dt().unix_nanos(), zulu.as_dt().unix_nanos());
    assert!(offset.as_dt().unix_nanos() > 0);
}
