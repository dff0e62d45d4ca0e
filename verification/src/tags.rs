//! Ordered tag collections. A task's tags form a set: no duplicates after
//! normalization, kept sorted lexicographically for stable display. The
//! set is held as a strictly increasing vector of tags.

use vstd::prelude::*;

verus! {

use crate::values::Tag;

/// Strict lexicographic order on character sequences, by code point.
pub open spec fn lex_lt(a: Seq<char>, b: Seq<char>) -> bool
    decreases a.len(),
{
    if b.len() == 0 {
        false
    } else if a.len() == 0 {
        true
    } else if a[0] != b[0] {
        (a[0] as u32) < (b[0] as u32)
    } else {
        lex_lt(a.drop_first(), b.drop_first())
    }
}

/// The texts of a sequence of tags.
pub open spec fn tags_view(ts: Seq<Tag>) -> Seq<Seq<char>> {
    ts.map_values(|t: Tag| t@)
}

/// Strictly increasing, hence duplicate-free.
pub open spec fn tags_sorted(s: Seq<Seq<char>>) -> bool {
    forall|i: int| 0 <= i < s.len() - 1 ==> lex_lt(#[trigger] s[i], s[i + 1])
}

/// Where `x` lands when inserted into `s`, keeping order and dropping a
/// duplicate: before the first element not below `x`.
pub open spec fn insert_tag_spec(x: Seq<char>, s: Seq<Seq<char>>) -> Seq<Seq<char>>
    decreases s.len(),
{
    if s.len() == 0 {
        seq![x]
    } else if lex_lt(s[0], x) {
        seq![s[0]] + insert_tag_spec(x, s.drop_first())
    } else if s[0] == x {
        s
    } else {
        seq![x] + s
    }
}

/// The normalized form of an arbitrary tag list: every element inserted
/// in turn into the sorted duplicate-free result.
pub open spec fn normalize_tags_spec(s: Seq<Seq<char>>) -> Seq<Seq<char>>
    decreases s.len(),
{
    if s.len() == 0 {
        Seq::empty()
    } else {
        insert_tag_spec(s[0], normalize_tags_spec(s.drop_first()))
    }
}

proof fn lemma_lex_skip(a: Seq<char>, b: Seq<char>, i: int)
    requires
        0 <= i <= a.len(),
        i <= b.len(),
        forall|k: int| 0 <= k < i ==> a[k] == b[k],
    ensures
        lex_lt(a, b) == lex_lt(a.skip(i), b.skip(i)),
    decreases i,
{
    if i > 0 {
        assert(a.len() > 0 && b.len() > 0 && a[0] == b[0]);
        lemma_lex_skip(a.drop_first(), b.drop_first(), i - 1);
        assert(a.drop_first().skip(i - 1) =~= a.skip(i));
        assert(b.drop_first().skip(i - 1) =~= b.skip(i));
    } else {
        assert(a.skip(0) =~= a);
        assert(b.skip(0) =~= b);
    }
}

/// Compare two strings in the lexicographic order: 0 when `a` is below
/// `b`, 1 when equal, 2 when above.
pub fn lex_cmp(a: &str, b: &str) -> (r: u8)
    ensures
        r == 0 ==> lex_lt(a@, b@),
        r == 1 ==> a@ == b@,
        r == 2 ==> lex_lt(b@, a@),
        r == 0 || r == 1 || r == 2,
{
    let an = a.unicode_len();
    let bn = b.unicode_len();
    let min = if an < bn {
        an
    } else {
        bn
    };
    let mut i: usize = 0;
    while i < min
        invariant
            0 <= i <= min,
            min == if an < bn {
                an
            } else {
                bn
            },
            an == a@.len(),
            bn == b@.len(),
            forall|k: int| 0 <= k < i ==> a@[k] == b@[k],
        decreases min - i,
    {
        let ca = a.get_char(i);
        let cb = b.get_char(i);
        if ca != cb {
            proof {
                lemma_lex_skip(a@, b@, i as int);
                lemma_lex_skip(b@, a@, i as int);
                assert(a@.skip(i as int)[0] == a@[i as int]);
                assert(b@.skip(i as int)[0] == b@[i as int]);
            }
            if (ca as u32) < (cb as u32) {
                return 0;
            } else {
                proof {
                    assert(ca as u32 != cb as u32);
                }
                return 2;
            }
        }
        i = i + 1;
    }
    proof {
        lemma_lex_skip(a@, b@, i as int);
        lemma_lex_skip(b@, a@, i as int);
    }
    if an == bn {
        proof {
            assert(a@ =~= b@);
        }
        1
    } else if an < bn {
        proof {
            assert(a@.skip(i as int).len() == 0 && b@.skip(i as int).len() > 0);
        }
        0
    } else {
        proof {
            assert(b@.skip(i as int).len() == 0 && a@.skip(i as int).len() > 0);
        }
        2
    }
}

proof fn lemma_insert_at(x: Seq<char>, s: Seq<Seq<char>>, k: int)
    requires
        0 <= k <= s.len(),
        forall|j: int| 0 <= j < k ==> lex_lt(#[trigger] s[j], x),
        k == s.len() || !lex_lt(s[k], x),
    ensures
        insert_tag_spec(x, s) == if k < s.len() && s[k] == x {
            s
        } else {
            s.subrange(0, k) + seq![x] + s.subrange(k, s.len() as int)
        },
    decreases k,
{
    if k == 0 {
        if s.len() == 0 {
            assert(insert_tag_spec(x, s) =~= s.subrange(0, 0) + seq![x] + s.subrange(
                0,
                s.len() as int,
            ));
        } else if s[0] == x {
        } else {
            assert(insert_tag_spec(x, s) =~= s.subrange(0, 0) + seq![x] + s.subrange(
                0,
                s.len() as int,
            ));
        }
    } else {
        assert(lex_lt(s[0], x));
        lemma_insert_at(x, s.drop_first(), k - 1);
        if k < s.len() && s[k] == x {
            assert(s.drop_first()[k - 1] == s[k]);
            assert(insert_tag_spec(x, s) =~= s);
        } else {
            assert(insert_tag_spec(x, s) =~= s.subrange(0, k) + seq![x] + s.subrange(
                k,
                s.len() as int,
            ));
        }
    }
}

/// Insert one tag into a sorted duplicate-free list, keeping it so.
fn insert_tag(out: &mut Vec<Tag>, x: Tag)
    ensures
        tags_view(final(out)@) == insert_tag_spec(x@, tags_view(old(out)@)),
{
    let n = out.len();
    let mut k: usize = 0;
    let mut stop = false;
    while k < n && !stop
        invariant
            0 <= k <= n,
            n == out@.len(),
            *out == *old(out),
            forall|j: int| 0 <= j < k ==> lex_lt(#[trigger] tags_view(out@)[j], x@),
            stop ==> k < n && !lex_lt(tags_view(out@)[k as int], x@),
        decreases n - k + if stop {
            0int
        } else {
            1int
        },
    {
        let c = crate::tags::lex_cmp(out[k].as_str(), x.as_str());
        proof {
            assert(tags_view(out@)[k as int] == out@[k as int]@);
            lemma_lex_irrefl(x@);
            lemma_lex_asym(out@[k as int]@, x@);
        }
        if c == 0 {
            k = k + 1;
        } else {
            stop = true;
        }
    }
    proof {
        lemma_insert_at(x@, tags_view(out@), k as int);
    }
    if k < n && crate::tags::lex_cmp(out[k].as_str(), x.as_str()) == 1 {
        proof {
            assert(tags_view(out@)[k as int] == out@[k as int]@);
            assert(tags_view(out@) =~= insert_tag_spec(x@, tags_view(old(out)@)));
        }
    } else {
        proof {
            assert(k < n ==> tags_view(out@)[k as int] != x@);
        }
        out.insert(k, x);
        proof {
            assert(tags_view(out@) =~= tags_view(old(out)@).subrange(0, k as int) + seq![x@]
                + tags_view(old(out)@).subrange(k as int, n as int));
        }
    }
}

/// The normalized form of an arbitrary tag list: sorted, duplicate-free,
/// holding exactly the texts of the input.
pub fn normalize_tags(input: Vec<Tag>) -> (r: Vec<Tag>)
    ensures
        tags_view(r@) == normalize_tags_spec(tags_view(input@)),
{
    let n = input.len();
    let mut out: Vec<Tag> = Vec::new();
    let mut i: usize = n;
    proof {
        assert(tags_view(out@) =~= normalize_tags_spec(tags_view(input@).skip(n as int)));
    }
    while i > 0
        invariant
            0 <= i <= n,
            n == input@.len(),
            tags_view(out@) == normalize_tags_spec(tags_view(input@).skip(i as int)),
        decreases i,
    {
        i = i - 1;
        let x = input[i].clone();
        insert_tag(&mut out, x);
        proof {
            let v = tags_view(input@);
            assert(v.skip(i as int).drop_first() =~= v.skip(i + 1));
            assert(v.skip(i as int)[0] == input@[i as int]@);
        }
    }
    proof {
        assert(tags_view(input@).skip(0) =~= tags_view(input@));
    }
    out
}

/// Does the list contain a tag with exactly this text?
pub fn tags_contain(tags: &Vec<Tag>, needle: &str) -> (r: bool)
    ensures
        r == tags_view(tags@).contains(needle@),
{
    let n = tags.len();
    let mut i: usize = 0;
    while i < n
        invariant
            0 <= i <= n,
            n == tags@.len(),
            forall|k: int| 0 <= k < i ==> #[trigger] tags_view(tags@)[k] != needle@,
        decreases n - i,
    {
        if crate::text::str_eq(tags[i].as_str(), needle) {
            proof {
                assert(tags_view(tags@)[i as int] == needle@);
            }
            return true;
        }
        proof {
            assert(tags_view(tags@)[i as int] == tags@[i as int]@);
        }
        i = i + 1;
    }
    proof {
        assert(forall|k: int|
            0 <= k < tags_view(tags@).len() ==> #[trigger] tags_view(tags@)[k] != needle@);
    }
    false
}

/// Normalization yields a sorted, duplicate-free list.
pub proof fn lemma_normalize_sorted(s: Seq<Seq<char>>)
    ensures
        tags_sorted(normalize_tags_spec(s)),
    decreases s.len(),
{
    if s.len() > 0 {
        lemma_normalize_sorted(s.drop_first());
        lemma_insert_sorted(s[0], normalize_tags_spec(s.drop_first()));
    }
}

proof fn lemma_insert_sorted(x: Seq<char>, s: Seq<Seq<char>>)
    requires
        tags_sorted(s),
    ensures
        tags_sorted(insert_tag_spec(x, s)),
    decreases s.len(),
{
    lemma_lex_connected(x, s);
    if s.len() == 0 {
    } else if lex_lt(s[0], x) {
        assert(tags_sorted(s.drop_first())) by {
            assert(forall|i: int|
                0 <= i < s.drop_first().len() - 1 ==> #[trigger] s.drop_first()[i] == s[i + 1]
                    && s.drop_first()[i + 1] == s[i + 2]);
        }
        lemma_insert_sorted(x, s.drop_first());
        let r = insert_tag_spec(x, s);
        let rt = insert_tag_spec(x, s.drop_first());
        assert(r =~= seq![s[0]] + rt);
        lemma_insert_head(x, s.drop_first());
        assert forall|i: int| 0 <= i < r.len() - 1 implies lex_lt(#[trigger] r[i], r[i + 1]) by {
            if i == 0 {
                if s.len() == 1 {
                    assert(rt =~= seq![x]);
                } else {
                    assert(rt[0] == s[1] || rt[0] == x);
                }
            } else {
                assert(r[i] == rt[i - 1] && r[i + 1] == rt[i]);
            }
        }
    } else if s[0] == x {
    } else {
        let r = insert_tag_spec(x, s);
        assert(r =~= seq![x] + s);
        assert(lex_lt(x, s[0]));
        assert forall|i: int| 0 <= i < r.len() - 1 implies lex_lt(#[trigger] r[i], r[i + 1]) by {
            if i > 0 {
                assert(r[i] == s[i - 1] && r[i + 1] == s[i]);
            }
        }
    }
}

proof fn lemma_insert_head(x: Seq<char>, s: Seq<Seq<char>>)
    ensures
        s.len() == 0 ==> insert_tag_spec(x, s) =~= seq![x],
        s.len() > 0 ==> insert_tag_spec(x, s)[0] == s[0] || insert_tag_spec(x, s)[0] == x,
{
}

/// The order is connected: two distinct texts compare one way or the
/// other.
proof fn lemma_lex_connected(x: Seq<char>, s: Seq<Seq<char>>)
    ensures
        forall|i: int|
            0 <= i < s.len() ==> lex_lt(#[trigger] s[i], x) || s[i] == x || lex_lt(x, s[i]),
{
    assert forall|i: int| 0 <= i < s.len() implies lex_lt(#[trigger] s[i], x) || s[i] == x
        || lex_lt(x, s[i]) by {
        lemma_lex_trichotomy(s[i], x);
    }
}

proof fn lemma_lex_trichotomy(a: Seq<char>, b: Seq<char>)
    ensures
        lex_lt(a, b) || a == b || lex_lt(b, a),
    decreases a.len(),
{
    if b.len() == 0 {
        if a.len() == 0 {
            assert(a =~= b);
        }
    } else if a.len() == 0 {
    } else if a[0] != b[0] {
        vstd::utf8::char_u32_cast(a[0], a[0] as u32);
        vstd::utf8::char_u32_cast(b[0], b[0] as u32);
        assert(a[0] as u32 != b[0] as u32);
    } else {
        lemma_lex_trichotomy(a.drop_first(), b.drop_first());
        if a.drop_first() == b.drop_first() {
            assert(a.drop_first().len() == a.len() - 1);
            assert(b.drop_first().len() == b.len() - 1);
            assert(a.drop_first().len() == b.drop_first().len());
            assert(a.len() == b.len());
            assert(forall|i: int| 1 <= i < a.len() ==> #[trigger] a[i] == a.drop_first()[i - 1]);
            assert(forall|i: int| 1 <= i < b.len() ==> #[trigger] b[i] == b.drop_first()[i - 1]);
            assert(a =~= b);
        }
    }
}

/// Well-formed tag collection: sorted without duplicates, every element
/// well-formed tag text.
pub open spec fn tags_list_wf(s: Seq<Seq<char>>) -> bool {
    tags_sorted(s) && forall|i: int|
        0 <= i < s.len() ==> crate::values::tag_text_wf(#[trigger] s[i])
}

proof fn lemma_insert_elements(x: Seq<char>, s: Seq<Seq<char>>)
    ensures
        forall|j: int|
            0 <= j < insert_tag_spec(x, s).len() ==> #[trigger] insert_tag_spec(x, s)[j] == x
                || s.contains(insert_tag_spec(x, s)[j]),
    decreases s.len(),
{
    if s.len() == 0 {
    } else if lex_lt(s[0], x) {
        lemma_insert_elements(x, s.drop_first());
        let r = insert_tag_spec(x, s);
        let rt = insert_tag_spec(x, s.drop_first());
        assert forall|j: int| 0 <= j < r.len() implies #[trigger] r[j] == x || s.contains(
            r[j],
        ) by {
            if j == 0 {
                assert(s[0] == r[0]);
                assert(s.contains(s[0]));
            } else {
                assert(r[j] == rt[j - 1]);
                if rt[j - 1] != x {
                    let w = choose|w: int| 0 <= w < s.drop_first().len() && s.drop_first()[w]
                        == rt[j - 1];
                    assert(s[w + 1] == rt[j - 1]);
                }
            }
        }
    } else if s[0] == x {
        assert(forall|j: int| 0 <= j < s.len() ==> s.contains(#[trigger] s[j]));
    } else {
        let r = insert_tag_spec(x, s);
        assert forall|j: int| 0 <= j < r.len() implies #[trigger] r[j] == x || s.contains(
            r[j],
        ) by {
            if j > 0 {
                assert(r[j] == s[j - 1]);
                assert(s.contains(s[j - 1]));
            }
        }
    }
}

proof fn lemma_normalize_elements(s: Seq<Seq<char>>)
    ensures
        forall|j: int|
            0 <= j < normalize_tags_spec(s).len() ==> s.contains(
                #[trigger] normalize_tags_spec(s)[j],
            ),
    decreases s.len(),
{
    if s.len() > 0 {
        lemma_normalize_elements(s.drop_first());
        lemma_insert_elements(s[0], normalize_tags_spec(s.drop_first()));
        let r = normalize_tags_spec(s);
        assert forall|j: int| 0 <= j < r.len() implies s.contains(#[trigger] r[j]) by {
            if r[j] == s[0] {
                assert(s.contains(s[0]));
            } else {
                let w = choose|w: int|
                    0 <= w < s.drop_first().len() && #[trigger] s.drop_first()[w] == r[j];
                assert(s[w + 1] == r[j]);
            }
        }
    }
}

/// Normalizing well-formed tag texts yields a well-formed collection.
pub proof fn lemma_normalize_wf(s: Seq<Seq<char>>)
    requires
        forall|i: int| 0 <= i < s.len() ==> crate::values::tag_text_wf(#[trigger] s[i]),
    ensures
        tags_list_wf(normalize_tags_spec(s)),
{
    lemma_normalize_sorted(s);
    lemma_normalize_elements(s);
    let r = normalize_tags_spec(s);
    assert forall|i: int| 0 <= i < r.len() implies crate::values::tag_text_wf(
        #[trigger] r[i],
    ) by {
        let w = choose|w: int| 0 <= w < s.len() && #[trigger] s[w] == r[i];
    }
}

/// The order is irreflexive.
pub proof fn lemma_lex_irrefl(a: Seq<char>)
    ensures
        !lex_lt(a, a),
    decreases a.len(),
{
    if a.len() > 0 {
        lemma_lex_irrefl(a.drop_first());
    }
}

/// The order is asymmetric.
pub proof fn lemma_lex_asym(a: Seq<char>, b: Seq<char>)
    ensures
        !(lex_lt(a, b) && lex_lt(b, a)),
    decreases a.len(),
{
    if a.len() > 0 && b.len() > 0 {
        if a[0] == b[0] {
            lemma_lex_asym(a.drop_first(), b.drop_first());
        }
    }
}

} // verus!
