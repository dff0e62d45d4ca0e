//! Default data seeding: a small set of starter tasks for a fresh,
//! empty store.

use vstd::prelude::*;

verus! {

use crate::instant::{Instant, instant_wf, rfc3339_instant};
use crate::todo::{Todo, todo_wf};
use crate::values::{DueAt, Priority, Title};

/// Build one seed task with the given title and priority.
fn seed_todo(title: &str, priority: Priority) -> (r: Option<Todo>)
    ensures
        match r {
            Some(t) => t.wf() && t@.title == crate::text::trim_spec(title@) && t@.priority
                == priority && t@.status is Open,
            None => crate::text::trim_spec(title@).len() == 0,
        },
{
    match Title::parse(title) {
        Ok(tt) => {
            let mut t = Todo::new(tt);
            t.priority = priority;
            Some(t)
        },
        Err(_) => None,
    }
}

/// A due instant at five in the afternoon of the current day: the hour
/// digits of the clock's text form are replaced and the result parsed
/// again; when the clock text has an unexpected shape, there is no due
/// instant.
fn today_at_five(now: &Instant) -> (r: Option<DueAt>)
    requires
        instant_wf(now@),
    ensures
        match r {
            Some(d) => d.wf(),
            None => true,
        },
{
    proof {
        reveal_strlit("17");
    }
    let text = now.text();
    let n = text.unicode_len();
    if n < 20 {
        return None;
    }
    let head = text.substring_char(0, 11);
    let tail = text.substring_char(13, n);
    let mut patched = head.to_owned();
    patched.append("17");
    patched.append(tail);
    match Instant::parse(patched.as_str()) {
        Some(at) => Some(DueAt::from_dt(at)),
        None => None,
    }
}

/// Generate a small set of default tasks: a short introduction, two
/// hints, and one task due later today. Every produced task is well
/// formed and open, and the priorities span the levels.
pub fn default_todos() -> (r: Vec<Todo>)
    ensures
        r@.len() == 4,
        forall|i: int| 0 <= i < r@.len() ==> todo_wf((#[trigger] r@[i])@),
        forall|i: int| 0 <= i < r@.len() ==> (#[trigger] r@[i])@.status is Open,
        r@[0]@.title == "Welcome to rustytodo"@,
        r@[0]@.priority == Priority::P2,
        r@[1]@.priority == Priority::P4,
        r@[2]@.priority == Priority::P3,
        r@[3]@.priority == Priority::P1,
{
    proof {
        reveal_strlit("Welcome to rustytodo");
        reveal_strlit("Press ? to view keybindings");
        reveal_strlit("Add your first real task");
        reveal_strlit("Task with a due date");
        crate::text::lemma_trimmed_id("Welcome to rustytodo"@);
        crate::text::lemma_trimmed_id("Press ? to view keybindings"@);
        crate::text::lemma_trimmed_id("Add your first real task"@);
        crate::text::lemma_trimmed_id("Task with a due date"@);
    }
    let now = Instant::now();
    let mut out: Vec<Todo> = Vec::new();
    match seed_todo("Welcome to rustytodo", Priority::P2) {
        Some(t) => {
            out.push(t);
        },
        None => {
            proof {
                assert(false);
            }
        },
    }
    match seed_todo("Press ? to view keybindings", Priority::P4) {
        Some(t) => {
            out.push(t);
        },
        None => {
            proof {
                assert(false);
            }
        },
    }
    match seed_todo("Add your first real task", Priority::P3) {
        Some(t) => {
            out.push(t);
        },
        None => {
            proof {
                assert(false);
            }
        },
    }
    match seed_todo("Task with a due date", Priority::P1) {
        Some(t) => {
            let mut t = t;
            match today_at_five(&now) {
                Some(d) => {
                    t.due = Some(d);
                },
                None => {},
            }
            out.push(t);
        },
        None => {
            proof {
                assert(false);
            }
        },
    }
    out
}

} // verus!
