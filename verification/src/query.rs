//! The query engine: a pure filter + sort transformation over a task
//! collection. All filters are conjunctive; the result is sorted by
//! exactly one key with a stable insertion order among ties, and an
//! optional final reversal inverts the whole sequence.

use vstd::prelude::*;

verus! {

use crate::instant::Instant;
use crate::text::{contains_seq, lower_seq, trim_spec, trim, eq_ignore_case, contains_lower};
use crate::todo::{Todo, TodoV, is_overdue_spec};
use crate::repo::todos_views;
use crate::values::Priority;

/// Restrict a listing to open or to done tasks.
#[derive(Debug, Clone, Copy, PartialEq, Eq, Structural)]
pub enum StatusFilter {
    Open,
    Done,
}

/// The single key a listing is sorted by.
#[derive(Debug, Clone, Copy, PartialEq, Eq, Structural)]
pub enum SortKey {
    Due,
    Priority,
    Created,
}

/// A listing request: independently optional filters, one sort key, and
/// an optional final reversal.
#[derive(Debug)]
pub struct ListQuery {
    pub status: Option<StatusFilter>,
    pub project: Option<String>,
    pub tag: Option<String>,
    pub search: Option<String>,
    pub overdue: bool,
    pub priority: Option<Priority>,
    pub sort: SortKey,
    pub desc: bool,
}

/// Mathematical model of a [`ListQuery`].
pub ghost struct QueryV {
    pub status: Option<StatusFilter>,
    pub project: Option<Seq<char>>,
    pub tag: Option<Seq<char>>,
    pub search: Option<Seq<char>>,
    pub overdue: bool,
    pub priority: Option<Priority>,
    pub sort: SortKey,
    pub desc: bool,
}

impl View for ListQuery {
    type V = QueryV;

    open spec fn view(&self) -> QueryV {
        QueryV {
            status: self.status,
            project: match self.project {
                Some(ref p) => Some(p@),
                None => None,
            },
            tag: match self.tag {
                Some(ref t) => Some(t@),
                None => None,
            },
            search: match self.search {
                Some(ref s) => Some(s@),
                None => None,
            },
            overdue: self.overdue,
            priority: self.priority,
            sort: self.sort,
            desc: self.desc,
        }
    }
}

impl Clone for ListQuery {
    fn clone(&self) -> (r: Self)
        ensures
            r@ == self@,
    {
        ListQuery {
            status: self.status,
            project: match &self.project {
                Some(p) => Some(p.clone()),
                None => None,
            },
            tag: match &self.tag {
                Some(t) => Some(t.clone()),
                None => None,
            },
            search: match &self.search {
                Some(s) => Some(s.clone()),
                None => None,
            },
            overdue: self.overdue,
            priority: self.priority,
            sort: self.sort,
            desc: self.desc,
        }
    }
}

impl Default for ListQuery {
    /// No filters, sorted by due instant, ascending.
    fn default() -> (r: Self)
        ensures
            r@.status is None,
            r@.project is None,
            r@.tag is None,
            r@.search is None,
            !r@.overdue,
            r@.priority is None,
            r@.sort == SortKey::Due,
            !r@.desc,
    {
        ListQuery {
            status: None,
            project: None,
            tag: None,
            search: None,
            overdue: false,
            priority: None,
            sort: SortKey::Due,
            desc: false,
        }
    }
}

/// Does one task pass every filter of the query? Conjunctive: status,
/// project (case-insensitive against the trimmed input), tag (input
/// normalized as tag construction does, then set membership), priority,
/// overdue, and free-text search over title or notes (an empty or
/// white-space-only search string is no filter).
pub open spec fn keeps(t: TodoV, q: QueryV, now: int) -> bool {
    &&& match q.status {
        Some(StatusFilter::Open) => !(t.status is Done),
        Some(StatusFilter::Done) => t.status is Done,
        None => true,
    }
    &&& match q.project {
        Some(p) => lower_seq(t.project) == lower_seq(trim_spec(p)),
        None => true,
    }
    &&& match q.tag {
        Some(g) => t.tags.contains(lower_seq(trim_spec(g))),
        None => true,
    }
    &&& match q.priority {
        Some(pr) => t.priority == pr,
        None => true,
    }
    &&& (q.overdue ==> is_overdue_spec(t, now))
    &&& match q.search {
        Some(s) => {
            let needle = lower_seq(trim_spec(s));
            needle.len() == 0 || contains_seq(lower_seq(t.title), needle) || match t.notes {
                Some(n) => contains_seq(lower_seq(n), needle),
                None => false,
            }
        },
        None => true,
    }
}

/// The subsequence of tasks that pass every filter, in their original
/// order.
pub open spec fn filtered(s: Seq<TodoV>, q: QueryV, now: int) -> Seq<TodoV>
    decreases s.len(),
{
    if s.len() == 0 {
        Seq::empty()
    } else if keeps(s[0], q, now) {
        seq![s[0]] + filtered(s.drop_first(), q, now)
    } else {
        filtered(s.drop_first(), q, now)
    }
}

proof fn lemma_filtered_push(s: Seq<TodoV>, x: TodoV, q: QueryV, now: int)
    ensures
        filtered(s.push(x), q, now) == if keeps(x, q, now) {
            filtered(s, q, now).push(x)
        } else {
            filtered(s, q, now)
        },
    decreases s.len(),
{
    if s.len() == 0 {
        assert(s.push(x)[0] == x);
        assert(s.push(x).drop_first() =~= Seq::<TodoV>::empty());
        assert(s =~= Seq::<TodoV>::empty());
        assert(filtered(Seq::<TodoV>::empty(), q, now) == Seq::<TodoV>::empty());
        if keeps(x, q, now) {
            assert(filtered(s.push(x), q, now) == seq![x] + filtered(
                s.push(x).drop_first(),
                q,
                now,
            ));
            assert(filtered(s.push(x), q, now) =~= filtered(s, q, now).push(x));
        } else {
            assert(filtered(s.push(x), q, now) == filtered(s.push(x).drop_first(), q, now));
        }
    } else {
        assert(s.push(x)[0] == s[0]);
        assert(s.push(x).drop_first() =~= s.drop_first().push(x));
        lemma_filtered_push(s.drop_first(), x, q, now);
        if keeps(s[0], q, now) {
            assert(filtered(s.push(x), q, now) == seq![s[0]] + filtered(
                s.drop_first().push(x),
                q,
                now,
            ));
            if keeps(x, q, now) {
                assert(filtered(s.push(x), q, now) =~= filtered(s, q, now).push(x));
            }
        } else {
            assert(filtered(s.push(x), q, now) == filtered(s.drop_first().push(x), q, now));
        }
    }
}

/// Strict order under one sort key. For the due key a task with a due
/// instant comes before any task without one; ties under the key are not
/// ordered, which is what keeps the sort stable.
pub open spec fn key_lt(k: SortKey, a: TodoV, b: TodoV) -> bool {
    match k {
        SortKey::Due => match (a.due, b.due) {
            (Some(x), Some(y)) => x.nanos < y.nanos,
            (Some(_), None) => true,
            (None, _) => false,
        },
        SortKey::Priority => a.priority.rank_spec() < b.priority.rank_spec(),
        SortKey::Created => a.created_at.nanos < b.created_at.nanos,
    }
}

/// Insert `x` before the first element it is not strictly above: an
/// element that came earlier in the original order lands before every
/// element it ties with.
pub open spec fn sort_insert(k: SortKey, x: TodoV, s: Seq<TodoV>) -> Seq<TodoV>
    decreases s.len(),
{
    if s.len() == 0 {
        seq![x]
    } else if key_lt(k, s[0], x) {
        seq![s[0]] + sort_insert(k, x, s.drop_first())
    } else {
        seq![x] + s
    }
}

/// Stable insertion sort under one key.
pub open spec fn sort_by_key(k: SortKey, s: Seq<TodoV>) -> Seq<TodoV>
    decreases s.len(),
{
    if s.len() == 0 {
        Seq::empty()
    } else {
        sort_insert(k, s[0], sort_by_key(k, s.drop_first()))
    }
}

/// The whole transformation: filter, sort, and optionally reverse.
pub open spec fn apply_list_query_spec(s: Seq<TodoV>, q: QueryV, now: int) -> Seq<TodoV> {
    let sorted = sort_by_key(q.sort, filtered(s, q, now));
    if q.desc {
        sorted.reverse()
    } else {
        sorted
    }
}

/// Is `a` strictly below `b` under the key?
fn key_lt_exec(k: SortKey, a: &Todo, b: &Todo) -> (r: bool)
    ensures
        r == key_lt(k, a@, b@),
{
    match k {
        SortKey::Due => match (&a.due, &b.due) {
            (Some(x), Some(y)) => {
                let xd = x.as_dt();
                let yd = y.as_dt();
                xd.is_before(&yd)
            },
            (Some(_), None) => true,
            (None, _) => false,
        },
        SortKey::Priority => a.priority.rank() < b.priority.rank(),
        SortKey::Created => a.created_at.is_before(&b.created_at),
    }
}

/// Does one task pass every filter of the query?
fn keeps_exec(t: &Todo, q: &ListQuery, now: &Instant) -> (r: bool)
    ensures
        r == keeps(t@, q@, now@.nanos),
{
    match &q.status {
        Some(StatusFilter::Open) => {
            if t.status.is_done() {
                return false;
            }
        },
        Some(StatusFilter::Done) => {
            if !t.status.is_done() {
                return false;
            }
        },
        None => {},
    }
    match &q.project {
        Some(p) => {
            let trimmed = trim(p.as_str());
            if !eq_ignore_case(t.project.as_str(), trimmed.as_str()) {
                return false;
            }
        },
        None => {},
    }
    match &q.tag {
        Some(g) => {
            let trimmed = trim(g.as_str());
            let needle = lower_string(trimmed.as_str());
            if !crate::tags::tags_contain(&t.tags, needle.as_str()) {
                proof {
                    assert(crate::tags::tags_view(t.tags@) == t@.tags);
                }
                return false;
            }
            proof {
                assert(crate::tags::tags_view(t.tags@) == t@.tags);
            }
        },
        None => {},
    }
    match &q.priority {
        Some(pr) => {
            if t.priority != *pr {
                return false;
            }
        },
        None => {},
    }
    if q.overdue && !t.is_overdue(now) {
        return false;
    }
    match &q.search {
        Some(s) => {
            let trimmed = trim(s.as_str());
            if !trimmed.as_str().is_empty() {
                proof {
                    assert(lower_seq(trim_spec(s@)).len() == trim_spec(s@).len());
                }
                let in_title = contains_lower(t.title.as_str(), trimmed.as_str());
                let in_notes = match &t.notes {
                    Some(n) => contains_lower(n.as_str(), trimmed.as_str()),
                    None => false,
                };
                if !in_title && !in_notes {
                    return false;
                }
            } else {
                proof {
                    assert(lower_seq(trim_spec(s@)).len() == 0);
                }
            }
        },
        None => {},
    }
    true
}

/// The ASCII lower-case copy of a string. Every character the result may
/// differ in is ASCII, so the copy is built from the tag alphabet when
/// possible; other characters are kept as they are.
fn lower_string(s: &str) -> (r: String)
    ensures
        r@ == lower_seq(s@),
{
    let n = s.unicode_len();
    let mut out = String::new();
    let mut i: usize = 0;
    while i < n
        invariant
            0 <= i <= n,
            n == s@.len(),
            out@ =~= lower_seq(s@).subrange(0, i as int),
        decreases n - i,
    {
        let c = s.get_char(i);
        let u = c as u32;
        proof {
            assert(lower_seq(s@)[i as int] == crate::text::lower_char(s@[i as int]));
        }
        if 0x41 <= u && u <= 0x5a {
            let alpha = "abcdefghijklmnopqrstuvwxyz";
            proof {
                reveal_strlit("abcdefghijklmnopqrstuvwxyz");
            }
            let j = (u - 0x41) as usize;
            let piece = alpha.substring_char(j, j + 1);
            proof {
                assert(alpha@[j as int] == crate::text::lower_char(c)) by {
                    vstd::utf8::char_u32_cast(alpha@[j as int], alpha@[j as int] as u32);
                    vstd::utf8::char_u32_cast(
                        crate::text::lower_char(c),
                        crate::text::lower_char(c) as u32,
                    );
                }
                assert(piece@ =~= seq![crate::text::lower_char(c)]);
            }
            out.append(piece);
        } else {
            let piece = s.substring_char(i, i + 1);
            proof {
                assert(piece@ =~= seq![c]);
                assert(crate::text::lower_char(c) == c);
            }
            out.append(piece);
        }
        proof {
            assert(out@ =~= lower_seq(s@).subrange(0, i + 1));
        }
        i = i + 1;
    }
    proof {
        assert(lower_seq(s@).subrange(0, n as int) =~= lower_seq(s@));
    }
    out
}

proof fn lemma_sort_insert_at(k: SortKey, x: TodoV, s: Seq<TodoV>, j: int)
    requires
        0 <= j <= s.len(),
        forall|m: int| 0 <= m < j ==> key_lt(k, #[trigger] s[m], x),
        j == s.len() || !key_lt(k, s[j], x),
    ensures
        sort_insert(k, x, s) == s.subrange(0, j) + seq![x] + s.subrange(j, s.len() as int),
    decreases j,
{
    if j == 0 {
        assert(sort_insert(k, x, s) =~= s.subrange(0, 0) + seq![x] + s.subrange(
            0,
            s.len() as int,
        ));
    } else {
        assert(key_lt(k, s[0], x));
        lemma_sort_insert_at(k, x, s.drop_first(), j - 1);
        assert(sort_insert(k, x, s) =~= s.subrange(0, j) + seq![x] + s.subrange(
            j,
            s.len() as int,
        ));
    }
}

/// Insert one task into an already sorted accumulation.
fn sort_insert_exec(k: SortKey, x: Todo, acc: &mut Vec<Todo>)
    ensures
        todos_views(final(acc)@) == sort_insert(k, x@, todos_views(old(acc)@)),
{
    let n = acc.len();
    let mut j: usize = 0;
    let mut stop = false;
    while j < n && !stop
        invariant
            0 <= j <= n,
            n == acc@.len(),
            *acc == *old(acc),
            forall|m: int| 0 <= m < j ==> key_lt(k, #[trigger] todos_views(acc@)[m], x@),
            stop ==> j < n && !key_lt(k, todos_views(acc@)[j as int], x@),
        decreases n - j + if stop {
            0int
        } else {
            1int
        },
    {
        proof {
            assert(todos_views(acc@)[j as int] == acc@[j as int]@);
        }
        if key_lt_exec(k, &acc[j], &x) {
            j = j + 1;
        } else {
            stop = true;
        }
    }
    proof {
        lemma_sort_insert_at(k, x@, todos_views(acc@), j as int);
    }
    acc.insert(j, x);
    proof {
        assert(todos_views(acc@) =~= todos_views(old(acc)@).subrange(0, j as int) + seq![x@]
            + todos_views(old(acc)@).subrange(j as int, n as int));
    }
}

/// Apply a listing request to a task collection: keep the tasks that pass
/// every filter, sort them stably under the query's key, and reverse the
/// whole sequence when descending order was asked for.
pub fn apply_list_query(todos: Vec<Todo>, q: &ListQuery, now: &Instant) -> (r: Vec<Todo>)
    ensures
        todos_views(r@) == apply_list_query_spec(todos_views(todos@), q@, now@.nanos),
{
    let ghost s = todos_views(todos@);
    let n = todos.len();
    let mut kept: Vec<Todo> = Vec::new();
    let mut i: usize = 0;
    proof {
        assert(todos_views(kept@) =~= filtered(s.subrange(0, 0), q@, now@.nanos));
    }
    while i < n
        invariant
            0 <= i <= n,
            n == todos@.len(),
            s == todos_views(todos@),
            todos_views(kept@) == filtered(s.subrange(0, i as int), q@, now@.nanos),
        decreases n - i,
    {
        proof {
            assert(s[i as int] == todos@[i as int]@);
            assert(s.subrange(0, i + 1) =~= s.subrange(0, i as int).push(s[i as int]));
            lemma_filtered_push(s.subrange(0, i as int), s[i as int], q@, now@.nanos);
        }
        if keeps_exec(&todos[i], q, now) {
            let ghost prev = todos_views(kept@);
            kept.push(todos[i].clone());
            proof {
                assert(todos_views(kept@) =~= prev.push(todos@[i as int]@));
            }
        }
        i = i + 1;
    }
    proof {
        assert(s.subrange(0, n as int) =~= s);
    }
    let ghost f = filtered(s, q@, now@.nanos);
    let m = kept.len();
    let mut sorted: Vec<Todo> = Vec::new();
    let mut j: usize = m;
    proof {
        assert(todos_views(sorted@) =~= sort_by_key(q.sort, todos_views(kept@).skip(m as int)));
    }
    while j > 0
        invariant
            0 <= j <= m,
            m == kept@.len(),
            todos_views(kept@) == f,
            todos_views(sorted@) == sort_by_key(q@.sort, f.skip(j as int)),
        decreases j,
    {
        j = j - 1;
        let x = kept[j].clone();
        sort_insert_exec(q.sort, x, &mut sorted);
        proof {
            assert(f.skip(j as int).drop_first() =~= f.skip(j + 1));
            assert(f.skip(j as int)[0] == kept@[j as int]@);
        }
    }
    proof {
        assert(f.skip(0) =~= f);
    }
    if q.desc {
        let len = sorted.len();
        let mut rev: Vec<Todo> = Vec::new();
        let mut p: usize = len;
        while p > 0
            invariant
                0 <= p <= len,
                len == sorted@.len(),
                todos_views(sorted@) == sort_by_key(q@.sort, f),
                rev@.len() == len - p,
                forall|m2: int| 0 <= m2 < len - p ==> #[trigger] todos_views(rev@)[m2]
                    == todos_views(sorted@)[len - 1 - m2],
            decreases p,
        {
            p = p - 1;
            let ghost prev = todos_views(rev@);
            rev.push(sorted[p].clone());
            proof {
                assert(todos_views(rev@) =~= prev.push(sorted@[p as int]@));
            }
        }
        proof {
            assert(todos_views(rev@) =~= todos_views(sorted@).reverse());
        }
        rev
    } else {
        sorted
    }
}

/// No later element is strictly below an earlier one under the key.
pub open spec fn ordered_under(k: SortKey, s: Seq<TodoV>) -> bool {
    forall|i: int, j: int| 0 <= i <= j < s.len() ==> !key_lt(k, #[trigger] s[j], #[trigger] s[i])
}

proof fn lemma_key_lt_neg_trans(k: SortKey, a: TodoV, b: TodoV, c: TodoV)
    ensures
        !key_lt(k, b, a) && !key_lt(k, c, b) ==> !key_lt(k, c, a),
        key_lt(k, a, b) ==> !key_lt(k, b, a),
{
}

proof fn lemma_sort_insert_elements(k: SortKey, x: TodoV, s: Seq<TodoV>)
    ensures
        forall|j: int|
            0 <= j < sort_insert(k, x, s).len() ==> #[trigger] sort_insert(k, x, s)[j] == x
                || s.contains(sort_insert(k, x, s)[j]),
    decreases s.len(),
{
    if s.len() == 0 {
    } else if key_lt(k, s[0], x) {
        lemma_sort_insert_elements(k, x, s.drop_first());
        let r = sort_insert(k, x, s);
        let rt = sort_insert(k, x, s.drop_first());
        assert(r =~= seq![s[0]] + rt);
        assert forall|j: int| 0 <= j < r.len() implies #[trigger] r[j] == x || s.contains(
            r[j],
        ) by {
            if j == 0 {
                assert(s.contains(s[0]));
            } else {
                assert(r[j] == rt[j - 1]);
                if rt[j - 1] != x {
                    let w = choose|w: int| 0 <= w < s.drop_first().len() && s.drop_first()[w]
                        == rt[j - 1];
                    assert(s[w + 1] == rt[j - 1]);
                }
            }
        }
    } else {
        let r = sort_insert(k, x, s);
        assert(r =~= seq![x] + s);
        assert forall|j: int| 0 <= j < r.len() implies #[trigger] r[j] == x || s.contains(
            r[j],
        ) by {
            if j > 0 {
                assert(r[j] == s[j - 1]);
                assert(s.contains(s[j - 1]));
            }
        }
    }
}

proof fn lemma_sort_insert_ordered(k: SortKey, x: TodoV, s: Seq<TodoV>)
    requires
        ordered_under(k, s),
    ensures
        ordered_under(k, sort_insert(k, x, s)),
    decreases s.len(),
{
    if s.len() == 0 {
    } else if key_lt(k, s[0], x) {
        assert(ordered_under(k, s.drop_first())) by {
            assert(forall|i: int|
                0 <= i < s.drop_first().len() ==> #[trigger] s.drop_first()[i] == s[i + 1]);
        }
        lemma_sort_insert_ordered(k, x, s.drop_first());
        lemma_sort_insert_elements(k, x, s.drop_first());
        let r = sort_insert(k, x, s);
        let rt = sort_insert(k, x, s.drop_first());
        assert(r =~= seq![s[0]] + rt);
        assert forall|i: int, j: int| 0 <= i <= j < r.len() implies !key_lt(
            k,
            #[trigger] r[j],
            #[trigger] r[i],
        ) by {
            if i == 0 {
                if j > 0 {
                    assert(r[j] == rt[j - 1]);
                    if rt[j - 1] == x {
                        lemma_key_lt_neg_trans(k, s[0], x, x);
                    } else {
                        let w = choose|w: int| 0 <= w < s.drop_first().len() && s.drop_first()[w]
                            == rt[j - 1];
                        assert(s[w + 1] == rt[j - 1]);
                        assert(!key_lt(k, s[w + 1], s[0]));
                    }
                } else {
                    lemma_key_lt_neg_trans(k, r[0], r[0], r[0]);
                }
            } else {
                assert(r[i] == rt[i - 1] && r[j] == rt[j - 1]);
            }
        }
    } else {
        let r = sort_insert(k, x, s);
        assert(r =~= seq![x] + s);
        assert forall|i: int, j: int| 0 <= i <= j < r.len() implies !key_lt(
            k,
            #[trigger] r[j],
            #[trigger] r[i],
        ) by {
            if i == 0 {
                if j > 0 {
                    assert(r[j] == s[j - 1]);
                    assert(!key_lt(k, s[j - 1], s[0]) || j - 1 == 0);
                    lemma_key_lt_neg_trans(k, x, s[0], s[j - 1]);
                    assert(!key_lt(k, s[0], x));
                } else {
                    lemma_key_lt_neg_trans(k, r[0], r[0], r[0]);
                }
            } else {
                assert(r[i] == s[i - 1] && r[j] == s[j - 1]);
            }
        }
    }
}

/// Sorting under any key yields a sequence that is non-decreasing in
/// that key's ordering. In particular, the priority sort is
/// non-decreasing from the highest to the lowest level, and the due sort
/// in ascending mode places every task without a due instant after every
/// task that has one.
pub proof fn lemma_sort_by_key_ordered(k: SortKey, s: Seq<TodoV>)
    ensures
        ordered_under(k, sort_by_key(k, s)),
        k == SortKey::Priority ==> forall|i: int, j: int|
            0 <= i <= j < sort_by_key(k, s).len() ==> (#[trigger] sort_by_key(k, s)[i]).priority.rank_spec()
                <= (#[trigger] sort_by_key(k, s)[j]).priority.rank_spec(),
        k == SortKey::Due ==> forall|i: int, j: int|
            0 <= i <= j < sort_by_key(k, s).len() && (#[trigger] sort_by_key(k, s)[i]).due
                is None ==> (#[trigger] sort_by_key(k, s)[j]).due is None,
    decreases s.len(),
{
    if s.len() > 0 {
        lemma_sort_by_key_ordered(k, s.drop_first());
        lemma_sort_insert_ordered(k, s[0], sort_by_key(k, s.drop_first()));
    }
    let r = sort_by_key(k, s);
    if k == SortKey::Priority {
        assert forall|i: int, j: int| 0 <= i <= j < r.len() implies (
        #[trigger] r[i]).priority.rank_spec() <= (#[trigger] r[j]).priority.rank_spec() by {
            assert(!key_lt(k, r[j], r[i]));
        }
    }
    if k == SortKey::Due {
        assert forall|i: int, j: int|
            0 <= i <= j < r.len() && (#[trigger] r[i]).due is None implies (#[trigger] r[j]).due
            is None by {
            assert(!key_lt(k, r[j], r[i]));
        }
    }
}

} // verus!
