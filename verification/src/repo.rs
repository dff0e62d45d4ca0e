//! The repository port and its in-memory implementation.
//!
//! The port is the storage capability everything above it consumes: add,
//! list (a full copy in insertion order), exact-id get, replace, remove,
//! and wholesale replacement. A backend is injected at construction time;
//! the durable file backend composes the in-memory store with the
//! document codec and file handling outside the library.

use vstd::prelude::*;

verus! {

use crate::id::TodoId;
use crate::todo::{Todo, TodoV, todo_wf};

/// The models of a sequence of tasks.
pub open spec fn todos_views(s: Seq<Todo>) -> Seq<TodoV> {
    s.map_values(|t: Todo| t@)
}

/// Every task in the sequence is well formed.
pub open spec fn all_wf(s: Seq<TodoV>) -> bool {
    forall|i: int| 0 <= i < s.len() ==> todo_wf(#[trigger] s[i])
}

/// The sequence with every task carrying the identifier removed.
pub open spec fn remove_id(s: Seq<TodoV>, id: u128) -> Seq<TodoV>
    decreases s.len(),
{
    if s.len() == 0 {
        Seq::empty()
    } else if s[0].id == id {
        remove_id(s.drop_first(), id)
    } else {
        seq![s[0]] + remove_id(s.drop_first(), id)
    }
}

proof fn lemma_remove_id_push(s: Seq<TodoV>, x: TodoV, id: u128)
    ensures
        remove_id(s.push(x), id) == if x.id == id {
            remove_id(s, id)
        } else {
            remove_id(s, id).push(x)
        },
    decreases s.len(),
{
    if s.len() == 0 {
        assert(s.push(x).drop_first() =~= Seq::<TodoV>::empty());
        assert(s.push(x)[0] == x);
        assert(s.push(x).len() == 1);
        if x.id == id {
            assert(remove_id(s.push(x), id) == remove_id(s.push(x).drop_first(), id));
            assert(remove_id(s, id) =~= Seq::<TodoV>::empty());
            assert(remove_id(Seq::<TodoV>::empty(), id) =~= Seq::<TodoV>::empty());
        } else {
            assert(remove_id(s.push(x), id) == seq![x] + remove_id(s.push(x).drop_first(), id));
            assert(remove_id(Seq::<TodoV>::empty(), id) =~= Seq::<TodoV>::empty());
            assert(seq![x] + Seq::<TodoV>::empty() =~= remove_id(s, id).push(x));
        }
    } else {
        assert(s.push(x).drop_first() =~= s.drop_first().push(x));
        assert(s.push(x)[0] == s[0]);
        lemma_remove_id_push(s.drop_first(), x, id);
        if s[0].id == id {
        } else {
            if x.id == id {
            } else {
                assert(remove_id(s.push(x), id) =~= remove_id(s, id).push(x));
            }
        }
    }
}

/// Index of the first task with the given identifier, or -1.
pub open spec fn first_match(s: Seq<TodoV>, id: u128) -> int
    decreases s.len(),
{
    if s.len() == 0 {
        -1
    } else if s[0].id == id {
        0
    } else {
        let r = first_match(s.drop_first(), id);
        if r == -1 {
            -1
        } else {
            r + 1
        }
    }
}

/// The first match is a match, earlier entries do not match, and -1 means
/// nothing matches.
pub proof fn lemma_first_match(s: Seq<TodoV>, id: u128)
    ensures
        first_match(s, id) == -1 ==> forall|i: int| 0 <= i < s.len() ==> (#[trigger] s[i]).id
            != id,
        first_match(s, id) != -1 ==> 0 <= first_match(s, id) < s.len() && s[first_match(
            s,
            id,
        )].id == id && forall|i: int| 0 <= i < first_match(s, id) ==> (#[trigger] s[i]).id != id,
    decreases s.len(),
{
    if s.len() > 0 && s[0].id != id {
        lemma_first_match(s.drop_first(), id);
        let t = s.drop_first();
        if first_match(s, id) == -1 {
            assert forall|i: int| 0 <= i < s.len() implies (#[trigger] s[i]).id != id by {
                if i > 0 {
                    assert(t[i - 1] == s[i]);
                }
            }
        } else {
            let r = first_match(t, id);
            assert(s[r + 1] == t[r]);
            assert forall|i: int| 0 <= i < first_match(s, id) implies (#[trigger] s[i]).id
                != id by {
                if i > 0 {
                    assert(t[i - 1] == s[i]);
                }
            }
        }
    }
}

/// Storage capability required of any task backend.
pub trait TodoRepository: Sized {
    /// The stored tasks, in insertion order.
    spec fn todos(&self) -> Seq<TodoV>;

    /// Add a task at the end.
    fn add(&mut self, todo: Todo)
        requires
            all_wf(old(self).todos()),
            todo.wf(),
        ensures
            final(self).todos() == old(self).todos().push(todo@),
    ;

    /// A full copy of every stored task, in insertion order.
    fn list(&self) -> (r: Vec<Todo>)
        requires
            all_wf(self.todos()),
        ensures
            todos_views(r@) == self.todos(),
            all_wf(todos_views(r@)),
    ;

    /// Overwrite the first stored task with the same identifier; true iff
    /// one existed. Never inserts on a miss.
    fn replace(&mut self, todo: Todo) -> (r: bool)
        requires
            all_wf(old(self).todos()),
            todo.wf(),
        ensures
            r == (first_match(old(self).todos(), todo@.id) != -1),
            r ==> final(self).todos() == old(self).todos().update(
                first_match(old(self).todos(), todo@.id),
                todo@,
            ),
            !r ==> final(self).todos() == old(self).todos(),
    ;

    /// The first stored task with exactly this identifier, copied out.
    fn get(&self, id: TodoId) -> (r: Option<Todo>)
        requires
            all_wf(self.todos()),
        ensures
            match r {
                Some(t) => first_match(self.todos(), id.spec_value()) != -1 && t@ == self.todos()[
                    first_match(self.todos(), id.spec_value())
                ] && t.wf(),
                None => first_match(self.todos(), id.spec_value()) == -1,
            },
    ;

    /// Replace the entire dataset.
    fn set_all(&mut self, todos: Vec<Todo>)
        requires
            all_wf(todos_views(todos@)),
        ensures
            final(self).todos() == todos_views(todos@),
    ;

    /// Remove every stored task with this identifier; true iff any
    /// existed.
    fn remove(&mut self, id: TodoId) -> (r: bool)
        requires
            all_wf(old(self).todos()),
        ensures
            final(self).todos() == remove_id(old(self).todos(), id.spec_value()),
            r == (first_match(old(self).todos(), id.spec_value()) != -1),
    ;
}

/// Simple in-memory store, also the seed of the durable backend.
pub struct MemoryTodoRepository {
    todos: Vec<Todo>,
}

impl MemoryTodoRepository {
    /// An empty store.
    pub fn new() -> (r: Self)
        ensures
            r.todos() == Seq::<TodoV>::empty(),
    {
        let r = MemoryTodoRepository { todos: Vec::new() };
        proof {
            assert(todos_views(r.todos@) =~= Seq::<TodoV>::empty());
        }
        r
    }
}

impl TodoRepository for MemoryTodoRepository {
    closed spec fn todos(&self) -> Seq<TodoV> {
        todos_views(self.todos@)
    }

    fn add(&mut self, todo: Todo) {
        self.todos.push(todo);
        proof {
            assert(todos_views(self.todos@) =~= todos_views(old(self).todos@).push(todo@));
        }
    }

    fn list(&self) -> (r: Vec<Todo>) {
        let n = self.todos.len();
        let mut out: Vec<Todo> = Vec::new();
        let mut i: usize = 0;
        while i < n
            invariant
                0 <= i <= n,
                n == self.todos@.len(),
                all_wf(todos_views(self.todos@)),
                out@.len() == i,
                forall|k: int| 0 <= k < i ==> #[trigger] out@[k]@ == self.todos@[k]@,
            decreases n - i,
        {
            proof {
                assert(todos_views(self.todos@)[i as int] == self.todos@[i as int]@);
            }
            out.push(self.todos[i].clone());
            i = i + 1;
        }
        proof {
            assert(todos_views(out@) =~= todos_views(self.todos@));
        }
        out
    }

    fn replace(&mut self, todo: Todo) -> (r: bool) {
        proof {
            lemma_first_match(todos_views(self.todos@), todo@.id);
        }
        let n = self.todos.len();
        let mut i: usize = 0;
        while i < n
            invariant
                0 <= i <= n,
                n == self.todos@.len(),
                *self == *old(self),
                forall|k: int| 0 <= k < i ==> (#[trigger] todos_views(self.todos@)[k]).id
                    != todo@.id,
            decreases n - i,
        {
            proof {
                assert(todos_views(self.todos@)[i as int] == self.todos@[i as int]@);
                crate::id::lemma_id_value_determines(self.todos@[i as int].id, todo.id);
            }
            if self.todos[i].id == todo.id {
                proof {
                    lemma_first_match_at(todos_views(self.todos@), todo@.id, i as int);
                }
                self.todos.set(i, todo);
                proof {
                    assert(todos_views(self.todos@) =~= todos_views(old(self).todos@).update(
                        i as int,
                        todo@,
                    ));
                }
                return true;
            }
            i = i + 1;
        }
        proof {
            lemma_first_match(todos_views(self.todos@), todo@.id);
        }
        false
    }

    fn get(&self, id: TodoId) -> (r: Option<Todo>) {
        proof {
            lemma_first_match(todos_views(self.todos@), id.spec_value());
        }
        let n = self.todos.len();
        let mut i: usize = 0;
        while i < n
            invariant
                0 <= i <= n,
                n == self.todos@.len(),
                all_wf(todos_views(self.todos@)),
                forall|k: int| 0 <= k < i ==> (#[trigger] todos_views(self.todos@)[k]).id
                    != id.spec_value(),
            decreases n - i,
        {
            proof {
                assert(todos_views(self.todos@)[i as int] == self.todos@[i as int]@);
                crate::id::lemma_id_value_determines(self.todos@[i as int].id, id);
            }
            if self.todos[i].id == id {
                proof {
                    lemma_first_match_at(todos_views(self.todos@), id.spec_value(), i as int);
                }
                return Some(self.todos[i].clone());
            }
            i = i + 1;
        }
        proof {
            lemma_first_match(todos_views(self.todos@), id.spec_value());
        }
        None
    }

    fn set_all(&mut self, todos: Vec<Todo>) {
        self.todos = todos;
    }

    fn remove(&mut self, id: TodoId) -> (r: bool) {
        let n = self.todos.len();
        let mut out: Vec<Todo> = Vec::new();
        let mut found = false;
        let mut i: usize = 0;
        proof {
            assert(todos_views(self.todos@).subrange(0, 0) =~= Seq::<TodoV>::empty());
            assert(todos_views(out@) =~= Seq::<TodoV>::empty());
        }
        while i < n
            invariant
                0 <= i <= n,
                n == self.todos@.len(),
                *self == *old(self),
                todos_views(out@) == remove_id(
                    todos_views(self.todos@).subrange(0, i as int),
                    id.spec_value(),
                ),
                found == exists|k: int|
                    0 <= k < i && (#[trigger] todos_views(self.todos@)[k]).id == id.spec_value(),
            decreases n - i,
        {
            let ghost pre = todos_views(self.todos@).subrange(0, i as int);
            let ghost post = todos_views(self.todos@).subrange(0, i + 1);
            proof {
                assert(todos_views(self.todos@)[i as int] == self.todos@[i as int]@);
                assert(post =~= pre.push(todos_views(self.todos@)[i as int]));
                lemma_remove_id_push(pre, todos_views(self.todos@)[i as int], id.spec_value());
            }
            proof {
                crate::id::lemma_id_value_determines(self.todos@[i as int].id, id);
            }
            if self.todos[i].id == id {
                proof {
                    assert((todos_views(self.todos@)[i as int]).id == id.spec_value());
                }
                found = true;
            } else {
                let ghost prev = todos_views(out@);
                out.push(self.todos[i].clone());
                proof {
                    assert(todos_views(out@) =~= prev.push(self.todos@[i as int]@));
                }
            }
            i = i + 1;
        }
        proof {
            assert(todos_views(self.todos@).subrange(0, n as int) =~= todos_views(self.todos@));
            lemma_first_match(todos_views(self.todos@), id.spec_value());
            if first_match(todos_views(self.todos@), id.spec_value()) != -1 {
                let w = first_match(todos_views(self.todos@), id.spec_value());
                assert((todos_views(self.todos@)[w]).id == id.spec_value());
            }
        }
        self.todos = out;
        found
    }
}

/// At the first index whose task carries the identifier, `first_match`
/// finds exactly that index.
pub proof fn lemma_first_match_at(s: Seq<TodoV>, id: u128, i: int)
    requires
        0 <= i < s.len(),
        s[i].id == id,
        forall|k: int| 0 <= k < i ==> (#[trigger] s[k]).id != id,
    ensures
        first_match(s, id) == i,
    decreases i,
{
    if i > 0 {
        lemma_first_match_at(s.drop_first(), id, i - 1);
    }
}

} // verus!
