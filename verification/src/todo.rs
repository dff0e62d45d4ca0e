//! The task entity: an aggregate of the validated value types with a
//! status state machine and patch-based partial edits. The record's
//! invariant — updated-at never earlier than created-at, tags sorted and
//! duplicate-free, every field well formed — is established by the
//! constructor and preserved by every transition.

use vstd::prelude::*;

verus! {

use crate::errors::DomainError;
use crate::id::TodoId;
use crate::instant::{Instant, InstantV, instant_wf};
use crate::tags::{normalize_tags, normalize_tags_spec, tags_list_wf, tags_view};
use crate::values::{
    DueAt,
    Notes,
    Priority,
    ProjectName,
    Tag,
    Title,
    inbox_text,
    nonempty_trimmed,
    notes_text_wf,
};

/// Lifecycle state of a task: open, or done since a recorded instant.
#[derive(Debug, PartialEq, Eq)]
pub enum Status {
    Open,
    Done { completed_at: Instant },
}

/// Mathematical model of a [`Status`].
pub ghost enum StatusV {
    Open,
    Done { completed_at: InstantV },
}

impl View for Status {
    type V = StatusV;

    open spec fn view(&self) -> StatusV {
        match self {
            Status::Open => StatusV::Open,
            Status::Done { completed_at } => StatusV::Done { completed_at: completed_at@ },
        }
    }
}

impl Clone for Status {
    fn clone(&self) -> (r: Self)
        ensures
            r@ == self@,
    {
        match self {
            Status::Open => Status::Open,
            Status::Done { completed_at } => Status::Done { completed_at: completed_at.clone() },
        }
    }
}

impl Status {
    /// Is this the done state?
    pub fn is_done(&self) -> (r: bool)
        ensures
            r == (self@ is Done),
    {
        match self {
            Status::Open => false,
            Status::Done { .. } => true,
        }
    }
}

/// Mathematical model of a [`Todo`].
pub ghost struct TodoV {
    pub id: u128,
    pub title: Seq<char>,
    pub notes: Option<Seq<char>>,
    pub project: Seq<char>,
    pub tags: Seq<Seq<char>>,
    pub status: StatusV,
    pub priority: Priority,
    pub due: Option<InstantV>,
    pub created_at: InstantV,
    pub updated_at: InstantV,
}

/// The record invariant over the model: every field well formed, and the
/// update instant never earlier than the creation instant.
pub open spec fn todo_wf(t: TodoV) -> bool {
    &&& nonempty_trimmed(t.title)
    &&& match t.notes {
        Some(n) => notes_text_wf(n),
        None => true,
    }
    &&& nonempty_trimmed(t.project)
    &&& tags_list_wf(t.tags)
    &&& match t.status {
        StatusV::Open => true,
        StatusV::Done { completed_at } => instant_wf(completed_at),
    }
    &&& match t.due {
        Some(d) => instant_wf(d),
        None => true,
    }
    &&& instant_wf(t.created_at)
    &&& instant_wf(t.updated_at)
    &&& t.updated_at.nanos >= t.created_at.nanos
}

/// The later of two instants, as the model sees it.
pub open spec fn later_instant(a: InstantV, b: InstantV) -> InstantV {
    if a.nanos >= b.nanos {
        a
    } else {
        b
    }
}

/// A single trackable unit of work.
#[derive(Debug, PartialEq, Eq)]
pub struct Todo {
    pub id: TodoId,
    pub title: Title,
    pub notes: Option<Notes>,
    pub project: ProjectName,
    pub tags: Vec<Tag>,
    pub status: Status,
    pub priority: Priority,
    pub due: Option<DueAt>,
    pub created_at: Instant,
    pub updated_at: Instant,
}

impl View for Todo {
    type V = TodoV;

    open spec fn view(&self) -> TodoV {
        TodoV {
            id: self.id.spec_value(),
            title: self.title@,
            notes: match self.notes {
                Some(n) => Some(n@),
                None => None,
            },
            project: self.project@,
            tags: tags_view(self.tags@),
            status: self.status@,
            priority: self.priority,
            due: match self.due {
                Some(d) => Some(d@),
                None => None,
            },
            created_at: self.created_at@,
            updated_at: self.updated_at@,
        }
    }
}

impl Clone for Todo {
    fn clone(&self) -> (r: Self)
        ensures
            r@ == self@,
    {
        let notes = match &self.notes {
            Some(n) => Some(n.clone()),
            None => None,
        };
        let due = match &self.due {
            Some(d) => Some(d.clone()),
            None => None,
        };
        let mut tags: Vec<Tag> = Vec::new();
        let n = self.tags.len();
        let mut i: usize = 0;
        while i < n
            invariant
                0 <= i <= n,
                n == self.tags@.len(),
                tags@.len() == i,
                forall|k: int| 0 <= k < i ==> #[trigger] tags@[k]@ == self.tags@[k]@,
            decreases n - i,
        {
            tags.push(self.tags[i].clone());
            i = i + 1;
        }
        proof {
            assert(tags_view(tags@) =~= tags_view(self.tags@));
        }
        Todo {
            id: self.id,
            title: self.title.clone(),
            notes,
            project: self.project.clone(),
            tags,
            status: self.status.clone(),
            priority: self.priority,
            due,
            created_at: self.created_at.clone(),
            updated_at: self.updated_at.clone(),
        }
    }
}

impl Todo {
    /// The record invariant.
    pub open spec fn wf(&self) -> bool {
        todo_wf(self@)
    }

    /// A new open task: fresh identifier, the given title, default project
    /// Inbox, no tags, no notes, priority P3, no due instant, and the
    /// current instant as both creation and update time.
    pub fn new(title: Title) -> (r: Todo)
        requires
            title.wf(),
        ensures
            r.wf(),
            r@.title == title@,
            r@.notes is None,
            r@.project == inbox_text(),
            r@.tags == Seq::<Seq<char>>::empty(),
            r@.status is Open,
            r@.priority == Priority::P3,
            r@.due is None,
            r@.created_at == r@.updated_at,
    {
        let now = Instant::now();
        let tags: Vec<Tag> = Vec::new();
        proof {
            assert(tags_view(tags@) =~= Seq::<Seq<char>>::empty());
        }
        Todo {
            id: TodoId::new(),
            title,
            notes: None,
            project: ProjectName::inbox(),
            tags,
            status: Status::Open,
            priority: Priority::P3,
            due: None,
            created_at: now.clone(),
            updated_at: now,
        }
    }

    /// Mark the task done as of `now`; fails with `AlreadyDone` and leaves
    /// the task unchanged if it is already done. On success the completion
    /// and update instants are the later of `now` and the previous update
    /// instant, so the update instant never moves backwards.
    pub fn mark_done_at(&mut self, now: &Instant) -> (r: Result<(), DomainError>)
        requires
            old(self).wf(),
            instant_wf(now@),
        ensures
            final(self).wf(),
            match r {
                Ok(()) => old(self)@.status is Open && final(self)@ == (TodoV {
                    status: StatusV::Done {
                        completed_at: later_instant(now@, old(self)@.updated_at),
                    },
                    updated_at: later_instant(now@, old(self)@.updated_at),
                    ..old(self)@
                }),
                Err(e) => e == DomainError::AlreadyDone && old(self)@.status is Done && final(self)@
                    == old(self)@,
            },
    {
        match &self.status {
            Status::Open => {
                let ts = now.later_of(&self.updated_at);
                self.status = Status::Done { completed_at: ts.clone() };
                self.updated_at = ts;
                Ok(())
            },
            Status::Done { .. } => Err(DomainError::AlreadyDone),
        }
    }

    /// Mark the task done as of the current clock instant. Whatever the
    /// clock returned, the update instant does not move backwards.
    pub fn mark_done(&mut self) -> (r: Result<(), DomainError>)
        requires
            old(self).wf(),
        ensures
            final(self).wf(),
            match r {
                Ok(()) => old(self)@.status is Open && final(self)@ == (TodoV {
                    status: StatusV::Done { completed_at: final(self)@.updated_at },
                    updated_at: final(self)@.updated_at,
                    ..old(self)@
                }) && final(self)@.updated_at.nanos >= old(self)@.updated_at.nanos,
                Err(e) => e == DomainError::AlreadyDone && old(self)@.status is Done && final(self)@
                    == old(self)@,
            },
    {
        let now = Instant::now();
        self.mark_done_at(&now)
    }

    /// Mark the task open again as of `now`; fails with `AlreadyOpen` and
    /// leaves the task unchanged if it is already open. On success the
    /// update instant is the later of `now` and the previous update
    /// instant.
    pub fn mark_open_at(&mut self, now: &Instant) -> (r: Result<(), DomainError>)
        requires
            old(self).wf(),
            instant_wf(now@),
        ensures
            final(self).wf(),
            match r {
                Ok(()) => old(self)@.status is Done && final(self)@ == (TodoV {
                    status: StatusV::Open,
                    updated_at: later_instant(now@, old(self)@.updated_at),
                    ..old(self)@
                }),
                Err(e) => e == DomainError::AlreadyOpen && old(self)@.status is Open && final(self)@
                    == old(self)@,
            },
    {
        match &self.status {
            Status::Done { .. } => {
                let ts = now.later_of(&self.updated_at);
                self.status = Status::Open;
                self.updated_at = ts;
                Ok(())
            },
            Status::Open => Err(DomainError::AlreadyOpen),
        }
    }

    /// Mark the task open again as of the current clock instant.
    pub fn mark_open(&mut self) -> (r: Result<(), DomainError>)
        requires
            old(self).wf(),
        ensures
            final(self).wf(),
            match r {
                Ok(()) => old(self)@.status is Done && final(self)@ == (TodoV {
                    status: StatusV::Open,
                    updated_at: final(self)@.updated_at,
                    ..old(self)@
                }) && final(self)@.updated_at.nanos >= old(self)@.updated_at.nanos,
                Err(e) => e == DomainError::AlreadyOpen && old(self)@.status is Open && final(self)@
                    == old(self)@,
            },
    {
        let now = Instant::now();
        self.mark_open_at(&now)
    }

    /// Overdue means open, with a due instant, and that instant strictly
    /// before `now`; a done task is never overdue.
    pub fn is_overdue(&self, now: &Instant) -> (r: bool)
        ensures
            r == is_overdue_spec(self@, now@.nanos),
    {
        match &self.status {
            Status::Done { .. } => false,
            Status::Open => match &self.due {
                Some(d) => {
                    let dt = d.as_dt();
                    dt.is_before(now)
                },
                None => false,
            },
        }
    }

    /// Status mark for list rendering.
    pub fn status_symbol(&self) -> (r: &'static str)
        ensures
            r@ == status_symbol_text(self@.status),
    {
        proof {
            reveal_strlit("☐");
            reveal_strlit("☑");
        }
        match &self.status {
            Status::Open => "☐",
            Status::Done { .. } => "☑",
        }
    }
}

/// Open, with a due instant strictly before `now`.
pub open spec fn is_overdue_spec(t: TodoV, now: int) -> bool {
    match t.due {
        Some(d) => !(t.status is Done) && d.nanos < now,
        None => false,
    }
}

/// The symbol rendered for each status.
pub open spec fn status_symbol_text(s: StatusV) -> Seq<char> {
    match s {
        StatusV::Open => seq!['☐'],
        StatusV::Done { .. } => seq!['☑'],
    }
}

/// Instruction for one required field of a task: leave it alone, or
/// replace its value.
pub enum FieldPatch<T> {
    Unchanged,
    Assign(T),
}

/// Instruction for one optional field of a task: leave it alone, clear
/// it, or replace its value. This keeps "do not modify" apart from
/// "remove" and from "set to a value".
pub enum OptFieldPatch<T> {
    Unchanged,
    Clear,
    Assign(T),
}

/// A partial edit: per-field instructions applied in one step.
pub struct TodoPatch {
    pub title: FieldPatch<Title>,
    pub notes: OptFieldPatch<Notes>,
    pub project: FieldPatch<ProjectName>,
    pub priority: FieldPatch<Priority>,
    pub due: OptFieldPatch<DueAt>,
    pub tags: FieldPatch<Vec<Tag>>,
}

impl TodoPatch {
    /// Every value the patch would assign is itself well formed.
    pub open spec fn wf(&self) -> bool {
        &&& match self.title {
            FieldPatch::Assign(ref t) => t.wf(),
            FieldPatch::Unchanged => true,
        }
        &&& match self.notes {
            OptFieldPatch::Assign(ref n) => n.wf(),
            _ => true,
        }
        &&& match self.project {
            FieldPatch::Assign(ref p) => p.wf(),
            FieldPatch::Unchanged => true,
        }
        &&& match self.due {
            OptFieldPatch::Assign(ref d) => d.wf(),
            _ => true,
        }
        &&& match self.tags {
            FieldPatch::Assign(ref v) => forall|i: int|
                0 <= i < v@.len() ==> (#[trigger] v@[i]).wf(),
            FieldPatch::Unchanged => true,
        }
    }
}

impl Default for TodoPatch {
    /// The empty patch: every field left alone.
    fn default() -> (r: Self)
        ensures
            r.title is Unchanged,
            r.notes is Unchanged,
            r.project is Unchanged,
            r.priority is Unchanged,
            r.due is Unchanged,
            r.tags is Unchanged,
    {
        TodoPatch {
            title: FieldPatch::Unchanged,
            notes: OptFieldPatch::Unchanged,
            project: FieldPatch::Unchanged,
            priority: FieldPatch::Unchanged,
            due: OptFieldPatch::Unchanged,
            tags: FieldPatch::Unchanged,
        }
    }
}

/// The model of a task after a patch lands: assigned fields replaced,
/// cleared fields emptied, untouched fields kept, the update instant
/// refreshed once.
pub open spec fn patched(t: TodoV, p: &TodoPatch, up: InstantV) -> TodoV {
    TodoV {
        title: match p.title {
            FieldPatch::Assign(ref x) => x@,
            FieldPatch::Unchanged => t.title,
        },
        notes: match p.notes {
            OptFieldPatch::Assign(ref x) => Some(x@),
            OptFieldPatch::Clear => None,
            OptFieldPatch::Unchanged => t.notes,
        },
        project: match p.project {
            FieldPatch::Assign(ref x) => x@,
            FieldPatch::Unchanged => t.project,
        },
        priority: match p.priority {
            FieldPatch::Assign(x) => x,
            FieldPatch::Unchanged => t.priority,
        },
        due: match p.due {
            OptFieldPatch::Assign(ref x) => Some(x@),
            OptFieldPatch::Clear => None,
            OptFieldPatch::Unchanged => t.due,
        },
        tags: match p.tags {
            FieldPatch::Assign(ref v) => normalize_tags_spec(tags_view(v@)),
            FieldPatch::Unchanged => t.tags,
        },
        updated_at: up,
        ..t
    }
}

impl Todo {
    /// Apply a patch as of `now`: replace exactly the fields the patch
    /// assigns or clears, normalize an assigned tag list, and refresh the
    /// update instant once — to the later of `now` and its old value.
    pub fn apply_patch_at(&mut self, patch: TodoPatch, now: &Instant)
        requires
            old(self).wf(),
            patch.wf(),
            instant_wf(now@),
        ensures
            final(self).wf(),
            final(self)@ == patched(old(self)@, &patch, later_instant(now@, old(self)@.updated_at)),
    {
        match patch.title {
            FieldPatch::Assign(t) => {
                self.title = t;
            },
            FieldPatch::Unchanged => {},
        }
        match patch.notes {
            OptFieldPatch::Assign(n) => {
                self.notes = Some(n);
            },
            OptFieldPatch::Clear => {
                self.notes = None;
            },
            OptFieldPatch::Unchanged => {},
        }
        match patch.project {
            FieldPatch::Assign(p) => {
                self.project = p;
            },
            FieldPatch::Unchanged => {},
        }
        match patch.priority {
            FieldPatch::Assign(p) => {
                self.priority = p;
            },
            FieldPatch::Unchanged => {},
        }
        match patch.due {
            OptFieldPatch::Assign(d) => {
                self.due = Some(d);
            },
            OptFieldPatch::Clear => {
                self.due = None;
            },
            OptFieldPatch::Unchanged => {},
        }
        match patch.tags {
            FieldPatch::Assign(v) => {
                proof {
                    crate::tags::lemma_normalize_wf(tags_view(v@));
                }
                self.tags = normalize_tags(v);
            },
            FieldPatch::Unchanged => {},
        }
        self.updated_at = now.later_of(&self.updated_at);
    }

    /// Apply a patch as of the current clock instant. Whatever the clock
    /// returned, the update instant does not move backwards.
    pub fn apply_patch(&mut self, patch: TodoPatch)
        requires
            old(self).wf(),
            patch.wf(),
        ensures
            final(self).wf(),
            final(self)@ == patched(old(self)@, &patch, final(self)@.updated_at),
            final(self)@.updated_at.nanos >= old(self)@.updated_at.nanos,
            instant_wf(final(self)@.updated_at),
    {
        let now = Instant::now();
        self.apply_patch_at(patch, &now)
    }
}

} // verus!
