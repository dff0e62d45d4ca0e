//! Character-level text helpers shared by the validated value types, the
//! query engine and the identifier resolver: whitespace trimming, ASCII
//! case folding, substring search and prefix tests, each with an exact
//! specification over the string's view.

use vstd::prelude::*;

verus! {

/// A character with the Unicode `White_Space` property, the set that
/// `str::trim` removes from both ends of a string.
pub open spec fn is_space_char(c: char) -> bool {
    let u = c as u32;
    (0x09 <= u && u <= 0x0d) || u == 0x20 || u == 0x85 || u == 0xa0 || u == 0x1680 || (0x2000
        <= u && u <= 0x200a) || u == 0x2028 || u == 0x2029 || u == 0x202f || u == 0x205f || u
        == 0x3000
}

pub fn is_space(c: char) -> (b: bool)
    ensures
        b == is_space_char(c),
{
    let u = c as u32;
    (0x09 <= u && u <= 0x0d) || u == 0x20 || u == 0x85 || u == 0xa0 || u == 0x1680 || (0x2000 <= u
        && u <= 0x200a) || u == 0x2028 || u == 0x2029 || u == 0x202f || u == 0x205f || u == 0x3000
}

/// The sequence with leading white space removed.
pub open spec fn trim_front(s: Seq<char>) -> Seq<char>
    decreases s.len(),
{
    if s.len() > 0 && is_space_char(s[0]) {
        trim_front(s.drop_first())
    } else {
        s
    }
}

/// The sequence with trailing white space removed.
pub open spec fn trim_back(s: Seq<char>) -> Seq<char>
    decreases s.len(),
{
    if s.len() > 0 && is_space_char(s.last()) {
        trim_back(s.drop_last())
    } else {
        s
    }
}

/// The sequence with surrounding white space removed.
pub open spec fn trim_spec(s: Seq<char>) -> Seq<char> {
    trim_back(trim_front(s))
}

proof fn lemma_trim_front_prefix(s: Seq<char>, i: int)
    requires
        0 <= i <= s.len(),
        forall|k: int| 0 <= k < i ==> is_space_char(s[k]),
        i == s.len() || !is_space_char(s[i]),
    ensures
        trim_front(s) == s.subrange(i, s.len() as int),
    decreases i,
{
    if i == 0 {
        if s.len() > 0 && is_space_char(s[0]) {
            assert(false);
        }
        assert(trim_front(s) == s);
        assert(s.subrange(0, s.len() as int) =~= s);
    } else {
        assert(is_space_char(s[0]));
        lemma_trim_front_prefix(s.drop_first(), i - 1);
        assert(s.drop_first().subrange(i - 1, s.drop_first().len() as int) =~= s.subrange(
            i,
            s.len() as int,
        ));
    }
}

proof fn lemma_trim_back_suffix(s: Seq<char>, j: int)
    requires
        0 <= j <= s.len(),
        forall|k: int| j <= k < s.len() ==> is_space_char(s[k]),
        j == 0 || !is_space_char(s[j - 1]),
    ensures
        trim_back(s) == s.subrange(0, j),
    decreases s.len() - j,
{
    if j == s.len() {
        if s.len() > 0 && is_space_char(s.last()) {
            assert(false);
        }
        assert(trim_back(s) == s);
        assert(s.subrange(0, j) =~= s);
    } else {
        assert(is_space_char(s.last()));
        lemma_trim_back_suffix(s.drop_last(), j);
        assert(s.drop_last().subrange(0, j) =~= s.subrange(0, j));
    }
}

proof fn lemma_trim_front_props(s: Seq<char>)
    ensures
        trim_front(s).len() > 0 ==> !is_space_char(trim_front(s)[0]),
    decreases s.len(),
{
    if s.len() > 0 && is_space_char(s[0]) {
        lemma_trim_front_props(s.drop_first());
    }
}

proof fn lemma_trim_back_props(s: Seq<char>)
    ensures
        trim_back(s).len() > 0 ==> !is_space_char(trim_back(s).last()),
        trim_back(s).len() > 0 ==> trim_back(s)[0] == s[0],
    decreases s.len(),
{
    if s.len() > 0 && is_space_char(s.last()) {
        lemma_trim_back_props(s.drop_last());
    }
}

/// A trimmed sequence is empty or starts and ends with a character that
/// is not white space.
pub proof fn lemma_trim_is_trimmed(s: Seq<char>)
    ensures
        trim_spec(s).len() == 0 || (!is_space_char(trim_spec(s)[0]) && !is_space_char(
            trim_spec(s).last(),
        )),
{
    lemma_trim_front_props(s);
    lemma_trim_back_props(trim_front(s));
}

/// A sequence that is empty or starts and ends with a character that is
/// not white space is unchanged by trimming.
pub proof fn lemma_trimmed_id(s: Seq<char>)
    requires
        s.len() == 0 || (!is_space_char(s[0]) && !is_space_char(s.last())),
    ensures
        trim_spec(s) == s,
{
}

/// Copy of `s` with surrounding white space removed.
pub fn trim(s: &str) -> (r: String)
    ensures
        r@ == trim_spec(s@),
{
    let n = s.unicode_len();
    let mut i: usize = 0;
    while i < n && is_space(s.get_char(i))
        invariant
            0 <= i <= n,
            n == s@.len(),
            forall|k: int| 0 <= k < i ==> is_space_char(s@[k]),
        decreases n - i,
    {
        i = i + 1;
    }
    proof {
        lemma_trim_front_prefix(s@, i as int);
    }
    let mut j: usize = n;
    while j > i && is_space(s.get_char(j - 1))
        invariant
            i <= j <= n,
            n == s@.len(),
            forall|k: int| j <= k < n ==> is_space_char(s@[k]),
        decreases j,
    {
        j = j - 1;
    }
    proof {
        let t = s@.subrange(i as int, n as int);
        assert(forall|k: int| j - i <= k < t.len() ==> is_space_char(t[k]));
        assert(j > i ==> t[j - i - 1] == s@[j - 1]);
        lemma_trim_back_suffix(t, j - i);
        assert(t.subrange(0, j - i) =~= s@.subrange(i as int, j as int));
    }
    let out = s.substring_char(i, j);
    out.to_owned()
}

/// ASCII lower-case image of one character; characters outside `A`..`Z`
/// are unchanged.
pub open spec fn lower_char(c: char) -> char {
    if 0x41 <= c as u32 && c as u32 <= 0x5a {
        ((c as u32) + 0x20) as char
    } else {
        c
    }
}

/// ASCII lower-case image of a sequence of characters.
pub open spec fn lower_seq(s: Seq<char>) -> Seq<char> {
    s.map_values(|c: char| lower_char(c))
}

/// The lower-case image of a character as a code point; equality of the
/// results decides case-insensitive equality of two characters.
pub fn lower_code(c: char) -> (u: u32)
    ensures
        u == lower_char(c) as u32,
        forall|d: char| lower_char(c) == lower_char(d) <==> u == lower_char(d) as u32,
{
    let v = c as u32;
    if 0x41 <= v && v <= 0x5a {
        v + 0x20
    } else {
        v
    }
}

/// Case-insensitive (ASCII) equality of two strings.
pub fn eq_ignore_case(a: &str, b: &str) -> (r: bool)
    ensures
        r == (lower_seq(a@) == lower_seq(b@)),
{
    let an = a.unicode_len();
    let bn = b.unicode_len();
    if an != bn {
        proof {
            assert(lower_seq(a@).len() != lower_seq(b@).len());
        }
        return false;
    }
    let mut i: usize = 0;
    while i < an
        invariant
            0 <= i <= an,
            an == a@.len(),
            an == b@.len(),
            forall|k: int| 0 <= k < i ==> lower_seq(a@)[k] == lower_seq(b@)[k],
        decreases an - i,
    {
        if lower_code(a.get_char(i)) != lower_code(b.get_char(i)) {
            proof {
                assert(lower_seq(a@)[i as int] == lower_char(a@[i as int]));
                assert(lower_seq(b@)[i as int] == lower_char(b@[i as int]));
            }
            return false;
        }
        i = i + 1;
    }
    proof {
        assert(lower_seq(a@) =~= lower_seq(b@));
    }
    true
}

/// Exact equality of two strings.
pub fn str_eq(a: &str, b: &str) -> (r: bool)
    ensures
        r == (a@ == b@),
{
    let an = a.unicode_len();
    let bn = b.unicode_len();
    if an != bn {
        return false;
    }
    let mut i: usize = 0;
    while i < an
        invariant
            0 <= i <= an,
            an == a@.len(),
            an == b@.len(),
            forall|k: int| 0 <= k < i ==> a@[k] == b@[k],
        decreases an - i,
    {
        if a.get_char(i) != b.get_char(i) {
            return false;
        }
        i = i + 1;
    }
    proof {
        assert(a@ =~= b@);
    }
    true
}

/// `needle` occurs as a contiguous subsequence of `hay`.
pub open spec fn contains_seq(hay: Seq<char>, needle: Seq<char>) -> bool {
    exists|i: int|
        0 <= i && i + needle.len() <= hay.len() && #[trigger] hay.subrange(
            i,
            i + needle.len() as int,
        ) == needle
}

/// Case-insensitive (ASCII) substring search: does the lower-case image of
/// `hay` contain the lower-case image of `needle`?
pub fn contains_lower(hay: &str, needle: &str) -> (r: bool)
    ensures
        r == contains_seq(lower_seq(hay@), lower_seq(needle@)),
{
    let hn = hay.unicode_len();
    let nn = needle.unicode_len();
    if nn > hn {
        proof {
            assert(lower_seq(hay@).len() == hay@.len());
            assert(lower_seq(needle@).len() == needle@.len());
        }
        return false;
    }
    let mut i: usize = 0;
    while i <= hn - nn
        invariant
            0 <= i <= hn - nn + 1,
            nn <= hn,
            hn == hay@.len(),
            nn == needle@.len(),
            forall|p: int|
                0 <= p < i ==> #[trigger] lower_seq(hay@).subrange(p, p + needle@.len())
                    != lower_seq(needle@),
        decreases hn - nn - i + 1,
    {
        let mut k: usize = 0;
        let mut matched = true;
        while k < nn
            invariant
                0 <= k <= nn,
                0 <= i && i + nn <= hn,
                hn == hay@.len(),
                nn == needle@.len(),
                matched ==> forall|q: int|
                    0 <= q < k ==> lower_seq(hay@)[i + q] == lower_seq(needle@)[q],
                !matched ==> exists|q: int|
                    0 <= q < nn && lower_seq(hay@)[i + q] != #[trigger] lower_seq(needle@)[q],
            decreases nn - k,
        {
            proof {
                assert(lower_seq(hay@)[i + k] == lower_char(hay@[i + k]));
                assert(lower_seq(needle@)[k as int] == lower_char(needle@[k as int]));
            }
            if lower_code(hay.get_char(i + k)) != lower_code(needle.get_char(k)) {
                proof {
                    assert(lower_seq(hay@)[i + k as int] != lower_seq(needle@)[k as int]);
                }
                matched = false;
                k = nn;
            } else {
                k = k + 1;
            }
        }
        if matched {
            proof {
                assert(lower_seq(hay@).subrange(i as int, i + needle@.len()) =~= lower_seq(
                    needle@,
                ));
            }
            return true;
        }
        proof {
            let q = choose|q: int|
                0 <= q < nn && lower_seq(hay@)[i + q] != #[trigger] lower_seq(needle@)[q];
            assert(lower_seq(hay@).subrange(i as int, i + needle@.len())[q] == lower_seq(
                hay@,
            )[i + q]);
            assert(lower_seq(hay@).subrange(i as int, i + needle@.len()) != lower_seq(needle@));
            assert(nn > 0);
        }
        i = i + 1;
    }
    proof {
        assert forall|p: int| 0 <= p && p + lower_seq(needle@).len() <= lower_seq(hay@).len()
            implies #[trigger] lower_seq(hay@).subrange(p, p + lower_seq(needle@).len())
            != lower_seq(needle@) by {
            assert(p < i);
            assert(lower_seq(hay@).subrange(p, p + needle@.len()) != lower_seq(needle@));
        }
    }
    false
}

/// `prefix` is an initial segment of `a`.
pub open spec fn starts_with_seq(a: Seq<char>, prefix: Seq<char>) -> bool {
    prefix.len() <= a.len() && a.subrange(0, prefix.len() as int) == prefix
}

/// Does `a` begin with `prefix`, character for character?
pub fn starts_with(a: &str, prefix: &str) -> (r: bool)
    ensures
        r == starts_with_seq(a@, prefix@),
{
    let an = a.unicode_len();
    let pn = prefix.unicode_len();
    if pn > an {
        return false;
    }
    let mut i: usize = 0;
    while i < pn
        invariant
            0 <= i <= pn,
            pn <= an,
            an == a@.len(),
            pn == prefix@.len(),
            forall|k: int| 0 <= k < i ==> a@[k] == prefix@[k],
        decreases pn - i,
    {
        if a.get_char(i) != prefix.get_char(i) {
            return false;
        }
        i = i + 1;
    }
    proof {
        assert(a@.subrange(0, prefix@.len() as int) =~= prefix@);
    }
    true
}

} // verus!
