//! Ambiguous-identifier resolution: free-form user input is resolved to
//! exactly one task identifier against a known task collection. A full
//! canonical identifier is accepted directly, without looking at the
//! collection; anything else must be at least four characters and match
//! exactly one task's short form or canonical-text prefix.

use vstd::prelude::*;

verus! {

use crate::id::{TodoId, canonical_seq, is_uuid_text, uuid_val};
use crate::text::{starts_with_seq, starts_with, str_eq, trim, trim_spec};
use crate::todo::{Todo, TodoV};
use crate::repo::todos_views;

/// Up to this many candidates are reported on an ambiguous input.
pub const AMBIGUOUS_CANDIDATE_CAP: usize = 10;

/// Whether the input picks out one stored record: it equals the short
/// form, or is a prefix of the canonical text.
pub open spec fn matches_input(t: TodoV, input: Seq<char>) -> bool {
    canonical_seq(t.id).subrange(0, 8) == input || starts_with_seq(canonical_seq(t.id), input)
}

/// The tasks the input matches, in their stored order.
pub open spec fn matching(s: Seq<TodoV>, input: Seq<char>) -> Seq<TodoV>
    decreases s.len(),
{
    if s.len() == 0 {
        Seq::empty()
    } else if matches_input(s[0], input) {
        seq![s[0]] + matching(s.drop_first(), input)
    } else {
        matching(s.drop_first(), input)
    }
}

proof fn lemma_matching_push(s: Seq<TodoV>, x: TodoV, input: Seq<char>)
    ensures
        matching(s.push(x), input) == if matches_input(x, input) {
            matching(s, input).push(x)
        } else {
            matching(s, input)
        },
    decreases s.len(),
{
    if s.len() == 0 {
        assert(s.push(x)[0] == x);
        assert(s.push(x).drop_first() =~= Seq::<TodoV>::empty());
        assert(matching(Seq::<TodoV>::empty(), input) == Seq::<TodoV>::empty());
        if matches_input(x, input) {
            assert(matching(s.push(x), input) =~= matching(s, input).push(x));
        }
    } else {
        assert(s.push(x)[0] == s[0]);
        assert(s.push(x).drop_first() =~= s.drop_first().push(x));
        lemma_matching_push(s.drop_first(), x, input);
        if matches_input(s[0], input) && matches_input(x, input) {
            assert(matching(s.push(x), input) =~= matching(s, input).push(x));
        }
    }
}

/// Why an input failed to resolve.
#[derive(Debug, PartialEq, Eq)]
pub enum ResolveError {
    /// The input is no full identifier and shorter than four characters;
    /// the collection was not scanned.
    PrefixTooShort,
    /// No task matches; carries the trimmed input for display.
    NotFound { input: String },
    /// Several tasks match; carries up to ten (short form, title)
    /// candidate pairs for display.
    Ambiguous { candidates: Vec<(String, String)> },
}

/// Resolve free-form input against a task collection. A full canonical
/// identifier is accepted whether or not any task owns it — existence is
/// the caller's concern. Otherwise the trimmed input must be at least
/// four characters, and exactly one task must match it.
pub fn resolve_id_input(todos: &Vec<Todo>, input: &str) -> (r: Result<TodoId, ResolveError>)
    ensures
        (r matches Ok(id) ==> ((is_uuid_text(trim_spec(input@)) && id.spec_value() == uuid_val(
            trim_spec(input@),
        )) || (!is_uuid_text(trim_spec(input@)) && trim_spec(input@).len() >= 4 && matching(
            todos_views(todos@),
            trim_spec(input@),
        ).len() == 1 && id.spec_value() == matching(
            todos_views(todos@),
            trim_spec(input@),
        )[0].id))),
        (r matches Err(ResolveError::PrefixTooShort) ==> !is_uuid_text(trim_spec(input@))
            && trim_spec(input@).len() < 4),
        (r matches Err(ResolveError::NotFound { input: echoed }) ==> !is_uuid_text(
            trim_spec(input@),
        ) && trim_spec(input@).len() >= 4 && matching(
            todos_views(todos@),
            trim_spec(input@),
        ).len() == 0 && echoed@ == trim_spec(input@)),
        (r matches Err(ResolveError::Ambiguous { candidates }) ==> !is_uuid_text(trim_spec(input@))
            && trim_spec(input@).len() >= 4 && matching(
            todos_views(todos@),
            trim_spec(input@),
        ).len() >= 2 && candidates@.len() == (if matching(
            todos_views(todos@),
            trim_spec(input@),
        ).len() < AMBIGUOUS_CANDIDATE_CAP {
            matching(todos_views(todos@), trim_spec(input@)).len() as int
        } else {
            AMBIGUOUS_CANDIDATE_CAP as int
        }) && forall|i: int|
            0 <= i < candidates@.len() ==> ((#[trigger] candidates@[i]).0)@ == canonical_seq(
                matching(todos_views(todos@), trim_spec(input@))[i].id,
            ).subrange(0, 8) && (candidates@[i]).1@ == matching(
                todos_views(todos@),
                trim_spec(input@),
            )[i].title),
{
    let trimmed = trim(input);
    let s = trimmed.as_str();
    match TodoId::parse_uuid(s) {
        Some(id) => {
            return Ok(id);
        },
        None => {},
    }
    let slen = s.unicode_len();
    if slen < 4 {
        return Err(ResolveError::PrefixTooShort);
    }
    let ghost views = todos_views(todos@);
    let n = todos.len();
    let mut found: Vec<Todo> = Vec::new();
    let mut i: usize = 0;
    proof {
        assert(matching(views.subrange(0, 0), s@) =~= Seq::<TodoV>::empty());
    }
    while i < n
        invariant
            0 <= i <= n,
            n == todos@.len(),
            views == todos_views(todos@),
            todos_views(found@) == matching(views.subrange(0, i as int), s@),
        decreases n - i,
    {
        let ghost pre = matching(views.subrange(0, i as int), s@);
        proof {
            assert(views[i as int] == todos@[i as int]@);
            assert(views.subrange(0, i + 1) =~= views.subrange(0, i as int).push(views[i as int]));
            lemma_matching_push(views.subrange(0, i as int), views[i as int], s@);
        }
        let t = &todos[i];
        let short = t.id.short();
        let full = t.id.as_uuid_str();
        if str_eq(short.as_str(), s) || starts_with(full.as_str(), s) {
            proof {
                assert(matches_input(views[i as int], s@));
            }
            let ghost prev = todos_views(found@);
            found.push(t.clone());
            proof {
                assert(todos_views(found@) =~= prev.push(todos@[i as int]@));
            }
        } else {
            proof {
                assert(!matches_input(views[i as int], s@));
            }
        }
        i = i + 1;
    }
    proof {
        assert(views.subrange(0, n as int) =~= views);
    }
    if found.len() == 0 {
        Err(ResolveError::NotFound { input: trimmed })
    } else if found.len() == 1 {
        proof {
            assert(todos_views(found@)[0] == found@[0]@);
        }
        Ok(found[0].id)
    } else {
        let cap = if found.len() < AMBIGUOUS_CANDIDATE_CAP {
            found.len()
        } else {
            AMBIGUOUS_CANDIDATE_CAP
        };
        let mut candidates: Vec<(String, String)> = Vec::new();
        let mut k: usize = 0;
        while k < cap
            invariant
                0 <= k <= cap,
                cap <= found@.len(),
                todos_views(found@) == matching(todos_views(todos@), trim_spec(input@)),
                candidates@.len() == k,
                forall|m: int|
                    0 <= m < k ==> ((#[trigger] candidates@[m]).0)@ == canonical_seq(
                        todos_views(found@)[m].id,
                    ).subrange(0, 8) && (candidates@[m]).1@ == todos_views(found@)[m].title,
            decreases cap - k,
        {
            proof {
                assert(todos_views(found@)[k as int] == found@[k as int]@);
            }
            let short = found[k].id.short();
            let title = found[k].title.as_str().to_owned();
            candidates.push((short, title));
            k = k + 1;
        }
        proof {
            let spec_found = matching(todos_views(todos@), trim_spec(input@));
            assert(spec_found.len() == found@.len());
            assert(candidates@.len() == (if spec_found.len() < AMBIGUOUS_CANDIDATE_CAP {
                spec_found.len() as int
            } else {
                AMBIGUOUS_CANDIDATE_CAP as int
            }));
            assert forall|i: int| 0 <= i < candidates@.len() implies (((
            #[trigger] candidates@[i]).0)@ == canonical_seq(spec_found[i].id).subrange(0, 8)
                && (candidates@[i]).1@ == spec_found[i].title) by {
                assert(todos_views(found@)[i] == spec_found[i]);
            }
        }
        Err(ResolveError::Ambiguous { candidates })
    }
}

} // verus!
