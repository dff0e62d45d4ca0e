//! The orchestration layer: use-cases composing a repository with the
//! domain. `TodoService` provides the primitive use-cases; `Store` owns a
//! service and adds the transition and delete use-cases, mapping domain
//! failures to application-level outcomes. Neither persists implicitly:
//! a caller that needs durability persists explicitly after mutating.

use vstd::prelude::*;

verus! {

use crate::errors::{AppError, DomainError};
use crate::id::TodoId;
use crate::instant::{InstantV, instant_wf};
use crate::repo::{TodoRepository, all_wf, first_match, remove_id, todos_views};
use crate::todo::{StatusV, Todo, TodoPatch, TodoV, patched, todo_wf};
use crate::values::{Priority, Title, inbox_text};

/// `t` marked done as of `up`.
pub open spec fn done_version(t: TodoV, up: InstantV) -> TodoV {
    TodoV { status: StatusV::Done { completed_at: up }, updated_at: up, ..t }
}

/// `t` reopened as of `up`.
pub open spec fn open_version(t: TodoV, up: InstantV) -> TodoV {
    TodoV { status: StatusV::Open, updated_at: up, ..t }
}

/// A freshly constructed task: the given title and identifier, every
/// other field at its default, timestamps equal.
pub open spec fn fresh_task(t: TodoV, title: Seq<char>, id: u128) -> bool {
    &&& todo_wf(t)
    &&& t.id == id
    &&& t.title == title
    &&& t.notes is None
    &&& t.project == inbox_text()
    &&& t.tags == Seq::<Seq<char>>::empty()
    &&& t.status is Open
    &&& t.priority == Priority::P3
    &&& t.due is None
    &&& t.created_at == t.updated_at
}

/// The stored tasks after marking `id` done: the first task with that
/// identifier was open and is now done as of some instant no earlier than
/// its previous update instant.
pub open spec fn marked_done(pre: Seq<TodoV>, post: Seq<TodoV>, id: u128) -> bool {
    let i = first_match(pre, id);
    &&& i != -1
    &&& pre[i].status is Open
    &&& exists|up: InstantV|
        instant_wf(up) && up.nanos >= pre[i].updated_at.nanos && post == pre.update(
            i,
            #[trigger] done_version(pre[i], up),
        )
}

/// The stored tasks after reopening `id`: the first task with that
/// identifier was done and is now open as of some instant no earlier than
/// its previous update instant.
pub open spec fn marked_open(pre: Seq<TodoV>, post: Seq<TodoV>, id: u128) -> bool {
    let i = first_match(pre, id);
    &&& i != -1
    &&& pre[i].status is Done
    &&& exists|up: InstantV|
        instant_wf(up) && up.nanos >= pre[i].updated_at.nanos && post == pre.update(
            i,
            #[trigger] open_version(pre[i], up),
        )
}

/// The stored tasks after editing `id`: the first task with that
/// identifier has the patch applied, its update instant refreshed to some
/// instant no earlier than before.
pub open spec fn edited(pre: Seq<TodoV>, post: Seq<TodoV>, id: u128, p: &TodoPatch) -> bool {
    let i = first_match(pre, id);
    &&& i != -1
    &&& exists|up: InstantV|
        instant_wf(up) && up.nanos >= pre[i].updated_at.nanos && post == pre.update(
            i,
            #[trigger] patched(pre[i], p, up),
        )
}

/// High-level application service over an injected repository backend.
pub struct TodoService<R: TodoRepository> {
    pub repo: R,
}

impl<R: TodoRepository> TodoService<R> {
    /// Wrap a repository.
    pub fn new(repo: R) -> (r: Self)
        ensures
            r.repo == repo,
    {
        TodoService { repo }
    }

    /// Construct a new task with the given title and store it; the fresh
    /// task lands at the end and its identifier is returned.
    pub fn add_todo(&mut self, title: Title) -> (r: Result<TodoId, AppError>)
        requires
            title.wf(),
            all_wf(old(self).repo.todos()),
        ensures
            all_wf(final(self).repo.todos()),
            match r {
                Ok(id) => final(self).repo.todos().len() == old(self).repo.todos().len() + 1
                    && final(self).repo.todos().subrange(
                    0,
                    old(self).repo.todos().len() as int,
                ) == old(self).repo.todos() && fresh_task(
                    final(self).repo.todos().last(),
                    title@,
                    id.spec_value(),
                ),
                Err(_) => false,
            },
    {
        let ghost title_view = title@;
        let todo = Todo::new(title);
        let id = todo.id;
        proof {
            crate::id::lemma_id_value_determines(id, todo.id);
        }
        self.repo.add(todo);
        proof {
            let pre = old(self).repo.todos();
            let post = self.repo.todos();
            assert(post.subrange(0, pre.len() as int) =~= pre);
            assert(forall|k: int| 0 <= k < pre.len() ==> post[k] == pre[k]);
            assert(all_wf(post));
        }
        Ok(id)
    }

    /// A full copy of the stored tasks, in insertion order.
    pub fn list_todos(&self) -> (r: Vec<Todo>)
        requires
            all_wf(self.repo.todos()),
        ensures
            todos_views(r@) == self.repo.todos(),
            all_wf(todos_views(r@)),
    {
        self.repo.list()
    }

    /// Store a fully constructed task at the end.
    pub fn insert_todo(&mut self, todo: Todo)
        requires
            todo.wf(),
            all_wf(old(self).repo.todos()),
        ensures
            final(self).repo.todos() == old(self).repo.todos().push(todo@),
            all_wf(final(self).repo.todos()),
    {
        self.repo.add(todo);
        proof {
            let post = self.repo.todos();
            assert(all_wf(post));
        }
    }

    /// Fetch the task with this identifier, apply the patch, and put the
    /// result back; false when no task carries the identifier.
    pub fn edit_todo(&mut self, id: TodoId, patch: TodoPatch) -> (r: bool)
        requires
            patch.wf(),
            all_wf(old(self).repo.todos()),
        ensures
            all_wf(final(self).repo.todos()),
            r ==> edited(old(self).repo.todos(), final(self).repo.todos(), id.spec_value(), &patch),
            !r ==> first_match(old(self).repo.todos(), id.spec_value()) == -1
                && final(self).repo.todos() == old(self).repo.todos(),
    {
        let ghost pre = self.repo.todos();
        match self.repo.get(id) {
            Some(mut todo) => {
                let ghost i = first_match(pre, id.spec_value());
                proof {
                    crate::repo::lemma_first_match(pre, id.spec_value());
                }
                todo.apply_patch(patch);
                proof {
                    crate::id::lemma_id_value_determines(todo.id, id);
                    assert(todo@.id == pre[i].id);
                }
                let replaced = self.repo.replace(todo);
                proof {
                    assert(first_match(pre, todo@.id) == i);
                    assert(replaced);
                    assert(all_wf(self.repo.todos())) by {
                        assert(forall|k: int|
                            0 <= k < self.repo.todos().len() ==> todo_wf(
                                #[trigger] self.repo.todos()[k],
                            ));
                    }
                }
                replaced
            },
            None => false,
        }
    }
}

/// Application store: owns the service and exposes the use-cases the
/// interface layer composes per command.
pub struct Store<R: TodoRepository> {
    pub service: TodoService<R>,
}

impl<R: TodoRepository> Store<R> {
    /// Wrap a repository.
    pub fn new(repo: R) -> (r: Self)
        ensures
            r.service.repo == repo,
    {
        Store { service: TodoService::new(repo) }
    }

    /// The stored tasks this store holds.
    pub open spec fn todos(&self) -> Seq<TodoV> {
        self.service.repo.todos()
    }

    /// Construct a new task with the given title and store it.
    pub fn add_todo(&mut self, title: Title) -> (r: Result<TodoId, AppError>)
        requires
            title.wf(),
            all_wf(old(self).todos()),
        ensures
            all_wf(final(self).todos()),
            match r {
                Ok(id) => final(self).todos().len() == old(self).todos().len() + 1
                    && final(self).todos().subrange(0, old(self).todos().len() as int)
                    == old(self).todos() && fresh_task(
                    final(self).todos().last(),
                    title@,
                    id.spec_value(),
                ),
                Err(_) => false,
            },
    {
        self.service.add_todo(title)
    }

    /// A full copy of the stored tasks, in insertion order.
    pub fn list_todos(&self) -> (r: Vec<Todo>)
        requires
            all_wf(self.todos()),
        ensures
            todos_views(r@) == self.todos(),
            all_wf(todos_views(r@)),
    {
        self.service.list_todos()
    }

    /// Is the store empty?
    pub fn is_empty(&self) -> (r: bool)
        requires
            all_wf(self.todos()),
        ensures
            r == (self.todos().len() == 0),
    {
        self.list_todos().len() == 0
    }

    /// Store a fully constructed task at the end.
    pub fn insert_todo(&mut self, todo: Todo)
        requires
            todo.wf(),
            all_wf(old(self).todos()),
        ensures
            final(self).todos() == old(self).todos().push(todo@),
            all_wf(final(self).todos()),
    {
        self.service.insert_todo(todo);
    }

    /// Store several fully constructed tasks, in order.
    pub fn insert_many(&mut self, todos: Vec<Todo>)
        requires
            all_wf(todos_views(todos@)),
            all_wf(old(self).todos()),
        ensures
            final(self).todos() == old(self).todos() + todos_views(todos@),
            all_wf(final(self).todos()),
    {
        let n = todos.len();
        let mut i: usize = 0;
        proof {
            assert(self.todos() =~= old(self).todos() + todos_views(todos@).subrange(0, 0));
        }
        while i < n
            invariant
                0 <= i <= n,
                n == todos@.len(),
                all_wf(todos_views(todos@)),
                all_wf(self.todos()),
                self.todos() == old(self).todos() + todos_views(todos@).subrange(0, i as int),
            decreases n - i,
        {
            let t = todos[i].clone();
            proof {
                assert(todos_views(todos@)[i as int] == todos@[i as int]@);
                assert(todo_wf(t@));
            }
            self.service.insert_todo(t);
            proof {
                assert(self.todos() =~= old(self).todos() + todos_views(todos@).subrange(
                    0,
                    i + 1,
                ));
            }
            i = i + 1;
        }
        proof {
            assert(todos_views(todos@).subrange(0, n as int) =~= todos_views(todos@));
        }
    }

    /// Fetch, apply the patch, and put the result back; false when no
    /// task carries the identifier.
    pub fn edit_todo(&mut self, id: TodoId, patch: TodoPatch) -> (r: bool)
        requires
            patch.wf(),
            all_wf(old(self).todos()),
        ensures
            all_wf(final(self).todos()),
            r ==> edited(old(self).todos(), final(self).todos(), id.spec_value(), &patch),
            !r ==> first_match(old(self).todos(), id.spec_value()) == -1 && final(self).todos()
                == old(self).todos(),
    {
        self.service.edit_todo(id, patch)
    }

    /// Direct access to the backend, for infrastructure concerns such as
    /// persisting.
    pub fn repo_mut(&mut self) -> (r: &mut R)
        ensures
            *r == old(self).service.repo,
            final(self).service.repo == *final(r),
    {
        &mut self.service.repo
    }

    /// Replace the entire dataset, as bulk import does.
    pub fn set_all(&mut self, todos: Vec<Todo>)
        requires
            all_wf(todos_views(todos@)),
        ensures
            final(self).todos() == todos_views(todos@),
            all_wf(final(self).todos()),
    {
        self.service.repo.set_all(todos);
    }

    /// Mark the task with this identifier done. Distinct outcomes: no
    /// such task, already done (stored state unchanged either way), or
    /// success with exactly that task transitioned.
    pub fn mark_done(&mut self, id: TodoId) -> (r: Result<(), AppError>)
        requires
            all_wf(old(self).todos()),
        ensures
            all_wf(final(self).todos()),
            match r {
                Ok(()) => marked_done(old(self).todos(), final(self).todos(), id.spec_value()),
                Err(e) => final(self).todos() == old(self).todos() && ((e == AppError::TodoNotFound
                    && first_match(old(self).todos(), id.spec_value()) == -1) || (e
                    == AppError::AlreadyDone && first_match(old(self).todos(), id.spec_value())
                    != -1 && old(self).todos()[first_match(old(self).todos(), id.spec_value())].status
                    is Done)),
            },
    {
        let ghost pre = self.todos();
        let todo = match self.service.repo.get(id) {
            Some(t) => t,
            None => {
                return Err(AppError::TodoNotFound);
            },
        };
        let ghost i = first_match(pre, id.spec_value());
        proof {
            crate::repo::lemma_first_match(pre, id.spec_value());
        }
        let mut todo = todo;
        match todo.mark_done() {
            Ok(()) => {},
            Err(_) => {
                return Err(AppError::AlreadyDone);
            },
        }
        proof {
            crate::id::lemma_id_value_determines(todo.id, id);
            assert(todo@.id == pre[i].id);
        }
        let replaced = self.service.repo.replace(todo);
        proof {
            assert(first_match(pre, todo@.id) == i);
            assert(replaced);
            let post = self.todos();
            let up = todo@.updated_at;
            assert(instant_wf(up) && up.nanos >= pre[i].updated_at.nanos && post == pre.update(
                i,
                done_version(pre[i], up),
            ));
            assert(all_wf(post)) by {
                assert(forall|k: int| 0 <= k < post.len() ==> todo_wf(#[trigger] post[k]));
            }
        }
        Ok(())
    }

    /// Mark the task with this identifier open again. Distinct outcomes:
    /// no such task, already open (stored state unchanged either way), or
    /// success with exactly that task transitioned.
    pub fn mark_open(&mut self, id: TodoId) -> (r: Result<(), AppError>)
        requires
            all_wf(old(self).todos()),
        ensures
            all_wf(final(self).todos()),
            match r {
                Ok(()) => marked_open(old(self).todos(), final(self).todos(), id.spec_value()),
                Err(e) => final(self).todos() == old(self).todos() && ((e == AppError::TodoNotFound
                    && first_match(old(self).todos(), id.spec_value()) == -1) || (e
                    == AppError::AlreadyOpen && first_match(old(self).todos(), id.spec_value())
                    != -1 && old(self).todos()[first_match(old(self).todos(), id.spec_value())].status
                    is Open)),
            },
    {
        let ghost pre = self.todos();
        let todo = match self.service.repo.get(id) {
            Some(t) => t,
            None => {
                return Err(AppError::TodoNotFound);
            },
        };
        let ghost i = first_match(pre, id.spec_value());
        proof {
            crate::repo::lemma_first_match(pre, id.spec_value());
        }
        let mut todo = todo;
        match todo.mark_open() {
            Ok(()) => {},
            Err(_) => {
                return Err(AppError::AlreadyOpen);
            },
        }
        proof {
            crate::id::lemma_id_value_determines(todo.id, id);
            assert(todo@.id == pre[i].id);
        }
        let replaced = self.service.repo.replace(todo);
        proof {
            assert(first_match(pre, todo@.id) == i);
            assert(replaced);
            let post = self.todos();
            let up = todo@.updated_at;
            assert(instant_wf(up) && up.nanos >= pre[i].updated_at.nanos && post == pre.update(
                i,
                open_version(pre[i], up),
            ));
            assert(all_wf(post)) by {
                assert(forall|k: int| 0 <= k < post.len() ==> todo_wf(#[trigger] post[k]));
            }
        }
        Ok(())
    }

    /// Remove the task with this identifier; fails with `TodoNotFound`
    /// when none carries it.
    pub fn delete(&mut self, id: TodoId) -> (r: Result<(), AppError>)
        requires
            all_wf(old(self).todos()),
        ensures
            all_wf(final(self).todos()),
            final(self).todos() == remove_id(old(self).todos(), id.spec_value()),
            match r {
                Ok(()) => first_match(old(self).todos(), id.spec_value()) != -1,
                Err(e) => e == AppError::TodoNotFound && first_match(
                    old(self).todos(),
                    id.spec_value(),
                ) == -1 && final(self).todos() == old(self).todos(),
            },
    {
        let ghost pre = self.todos();
        let removed = self.service.repo.remove(id);
        proof {
            lemma_remove_id_wf(pre, id.spec_value());
            if !removed {
                crate::repo::lemma_first_match(pre, id.spec_value());
                lemma_remove_id_none(pre, id.spec_value());
            }
        }
        if removed {
            Ok(())
        } else {
            Err(AppError::TodoNotFound)
        }
    }
}

/// Removal keeps every remaining task well formed.
proof fn lemma_remove_id_wf(s: Seq<TodoV>, id: u128)
    requires
        all_wf(s),
    ensures
        all_wf(remove_id(s, id)),
    decreases s.len(),
{
    if s.len() > 0 {
        assert(all_wf(s.drop_first())) by {
            assert(forall|k: int|
                0 <= k < s.drop_first().len() ==> #[trigger] s.drop_first()[k] == s[k + 1]);
        }
        lemma_remove_id_wf(s.drop_first(), id);
        if s[0].id != id {
            let r = remove_id(s, id);
            let rt = remove_id(s.drop_first(), id);
            assert(r =~= seq![s[0]] + rt);
            assert(forall|k: int| 1 <= k < r.len() ==> #[trigger] r[k] == rt[k - 1]);
        }
    }
}

/// When nothing matches, removal changes nothing.
proof fn lemma_remove_id_none(s: Seq<TodoV>, id: u128)
    requires
        forall|i: int| 0 <= i < s.len() ==> (#[trigger] s[i]).id != id,
    ensures
        remove_id(s, id) == s,
    decreases s.len(),
{
    if s.len() > 0 {
        assert(forall|k: int|
            0 <= k < s.drop_first().len() ==> #[trigger] s.drop_first()[k] == s[k + 1]);
        lemma_remove_id_none(s.drop_first(), id);
        assert(remove_id(s, id) =~= seq![s[0]] + s.drop_first());
        assert(seq![s[0]] + s.drop_first() =~= s);
    }
}

/// Marking done then reopening is an exact inverse on the record: the
/// reopened task differs from the original only in its update instant.
pub proof fn lemma_mark_round_trip(t: TodoV, u1: InstantV, u2: InstantV)
    requires
        t.status is Open,
    ensures
        open_version(done_version(t, u1), u2) == (TodoV { updated_at: u2, ..t }),
{
}

/// After a task is marked done, the same identifier resolves to the same
/// stored slot, that task is done, and its update instant has advanced;
/// by `mark_done`'s contract a second call then fails with `AlreadyDone`
/// and leaves the stored tasks — the completion instant included —
/// unchanged.
pub proof fn lemma_marked_done_is_done(pre: Seq<TodoV>, post: Seq<TodoV>, id: u128)
    requires
        marked_done(pre, post, id),
    ensures
        first_match(post, id) == first_match(pre, id),
        post[first_match(post, id)].status is Done,
        post[first_match(post, id)].updated_at.nanos >= pre[first_match(pre, id)].updated_at.nanos,
        post[first_match(post, id)].status matches StatusV::Done { completed_at } && completed_at
            == post[first_match(post, id)].updated_at,
{
    let i = first_match(pre, id);
    crate::repo::lemma_first_match(pre, id);
    let up = choose|up: InstantV|
        instant_wf(up) && up.nanos >= pre[i].updated_at.nanos && post == pre.update(
            i,
            #[trigger] done_version(pre[i], up),
        );
    assert(post[i] == done_version(pre[i], up));
    assert(post[i].id == id);
    assert(forall|k: int| 0 <= k < i ==> post[k] == pre[k]);
    crate::repo::lemma_first_match_at(post, id, i);
}

/// The mirror fact for reopening: after a task is marked open, the same
/// identifier resolves to the same stored slot, that task is open, and
/// its update instant has advanced; by `mark_open`'s contract a second
/// call then fails with `AlreadyOpen` and changes nothing.
pub proof fn lemma_marked_open_is_open(pre: Seq<TodoV>, post: Seq<TodoV>, id: u128)
    requires
        marked_open(pre, post, id),
    ensures
        first_match(post, id) == first_match(pre, id),
        post[first_match(post, id)].status is Open,
        post[first_match(post, id)].updated_at.nanos >= pre[first_match(pre, id)].updated_at.nanos,
{
    let i = first_match(pre, id);
    crate::repo::lemma_first_match(pre, id);
    let up = choose|up: InstantV|
        instant_wf(up) && up.nanos >= pre[i].updated_at.nanos && post == pre.update(
            i,
            #[trigger] open_version(pre[i], up),
        );
    assert(post[i] == open_version(pre[i], up));
    assert(post[i].id == id);
    assert(forall|k: int| 0 <= k < i ==> post[k] == pre[k]);
    crate::repo::lemma_first_match_at(post, id, i);
}

} // verus!
