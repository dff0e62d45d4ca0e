//! Validated value types: title, notes, project name, tag, priority and
//! due instant. Each type has a single validating constructor (`parse`)
//! that normalizes its input and fails with the exact error kind spec'd
//! for the violation; a constructed value is immutable and well formed.

use vstd::prelude::*;

verus! {

use crate::errors::DomainError;
use crate::instant::{Instant, InstantV, instant_wf, rfc3339_instant};
use crate::text::{
    is_space_char,
    lower_char,
    lower_seq,
    trim,
    trim_spec,
    lemma_trim_is_trimmed,
    lemma_trimmed_id,
    eq_ignore_case,
};

/// Upper bound on the number of characters in a note.
pub const NOTES_MAX_CHARS: usize = 10000;

/// Non-empty text with no surrounding white space.
pub open spec fn nonempty_trimmed(s: Seq<char>) -> bool {
    s.len() > 0 && trim_spec(s) == s
}

/// Well-formed note text: trimmed and within the cap.
pub open spec fn notes_text_wf(s: Seq<char>) -> bool {
    s.len() <= NOTES_MAX_CHARS && trim_spec(s) == s
}

/// A validated task title: non-empty after trimming.
#[derive(Debug, PartialEq, Eq)]
pub struct Title {
    text: String,
}

impl View for Title {
    type V = Seq<char>;

    closed spec fn view(&self) -> Seq<char> {
        self.text@
    }
}

impl Clone for Title {
    fn clone(&self) -> (r: Self)
        ensures
            r@ == self@,
    {
        Title { text: self.text.clone() }
    }
}

impl Title {
    /// A title is non-empty and carries no surrounding white space.
    pub open spec fn wf(&self) -> bool {
        nonempty_trimmed(self@)
    }

    /// Trim the input and accept it when something is left.
    pub fn parse(input: &str) -> (r: Result<Title, DomainError>)
        ensures
            match r {
                Ok(t) => t.wf() && t@ == trim_spec(input@) && trim_spec(input@).len() > 0,
                Err(e) => e == DomainError::EmptyTitle && trim_spec(input@).len() == 0,
            },
    {
        let trimmed = trim(input);
        if trimmed.as_str().is_empty() {
            Err(DomainError::EmptyTitle)
        } else {
            proof {
                lemma_trim_is_trimmed(input@);
                lemma_trimmed_id(trim_spec(input@));
            }
            Ok(Title { text: trimmed })
        }
    }

    /// The title text.
    pub fn as_str(&self) -> (r: &str)
        ensures
            r@ == self@,
    {
        self.text.as_str()
    }
}

/// Validated free-form notes: trimmed and capped in length.
#[derive(Debug, PartialEq, Eq)]
pub struct Notes {
    text: String,
}

impl View for Notes {
    type V = Seq<char>;

    closed spec fn view(&self) -> Seq<char> {
        self.text@
    }
}

impl Clone for Notes {
    fn clone(&self) -> (r: Self)
        ensures
            r@ == self@,
    {
        Notes { text: self.text.clone() }
    }
}

impl Notes {
    /// Notes carry no surrounding white space and at most
    /// [`NOTES_MAX_CHARS`] characters.
    pub open spec fn wf(&self) -> bool {
        notes_text_wf(self@)
    }

    /// Trim the input and accept it when it fits the cap.
    pub fn parse(input: &str) -> (r: Result<Notes, DomainError>)
        ensures
            match r {
                Ok(n) => n.wf() && n@ == trim_spec(input@) && trim_spec(input@).len()
                    <= NOTES_MAX_CHARS,
                Err(e) => e == (DomainError::NotesTooLong { max: NOTES_MAX_CHARS })
                    && trim_spec(input@).len() > NOTES_MAX_CHARS,
            },
    {
        let trimmed = trim(input);
        if trimmed.as_str().unicode_len() > NOTES_MAX_CHARS {
            Err(DomainError::NotesTooLong { max: NOTES_MAX_CHARS })
        } else {
            proof {
                lemma_trim_is_trimmed(input@);
                lemma_trimmed_id(trim_spec(input@));
            }
            Ok(Notes { text: trimmed })
        }
    }

    /// The note text.
    pub fn as_str(&self) -> (r: &str)
        ensures
            r@ == self@,
    {
        self.text.as_str()
    }
}

/// The text of the default project.
pub open spec fn inbox_text() -> Seq<char> {
    seq!['I', 'n', 'b', 'o', 'x']
}

/// A validated project (context) name: non-empty after trimming.
#[derive(Debug, PartialEq, Eq)]
pub struct ProjectName {
    text: String,
}

impl View for ProjectName {
    type V = Seq<char>;

    closed spec fn view(&self) -> Seq<char> {
        self.text@
    }
}

impl Clone for ProjectName {
    fn clone(&self) -> (r: Self)
        ensures
            r@ == self@,
    {
        ProjectName { text: self.text.clone() }
    }
}

impl ProjectName {
    /// A project name is non-empty and carries no surrounding white space.
    pub open spec fn wf(&self) -> bool {
        nonempty_trimmed(self@)
    }

    /// Trim the input and accept it when something is left.
    pub fn parse(input: &str) -> (r: Result<ProjectName, DomainError>)
        ensures
            match r {
                Ok(p) => p.wf() && p@ == trim_spec(input@) && trim_spec(input@).len() > 0,
                Err(e) => e == DomainError::EmptyProjectName && trim_spec(input@).len() == 0,
            },
    {
        let trimmed = trim(input);
        if trimmed.as_str().is_empty() {
            Err(DomainError::EmptyProjectName)
        } else {
            proof {
                lemma_trim_is_trimmed(input@);
                lemma_trimmed_id(trim_spec(input@));
            }
            Ok(ProjectName { text: trimmed })
        }
    }

    /// The well-known default project.
    pub fn inbox() -> (r: ProjectName)
        ensures
            r.wf() && r@ == inbox_text(),
    {
        proof {
            reveal_strlit("Inbox");
            assert("Inbox"@ =~= inbox_text());
            lemma_trimmed_id(inbox_text());
        }
        ProjectName { text: "Inbox".to_owned() }
    }

    /// The project name text.
    pub fn as_str(&self) -> (r: &str)
        ensures
            r@ == self@,
    {
        self.text.as_str()
    }
}

/// A character a normalized tag may hold: `a-z`, `0-9`, `-`, `_`.
pub open spec fn is_tag_char(c: char) -> bool {
    let u = c as u32;
    (0x61 <= u && u <= 0x7a) || (0x30 <= u && u <= 0x39) || u == 0x2d || u == 0x5f
}

/// Well-formed tag text: non-empty, every character a tag character.
pub open spec fn tag_text_wf(s: Seq<char>) -> bool {
    s.len() > 0 && forall|i: int| 0 <= i < s.len() ==> is_tag_char(#[trigger] s[i])
}

/// Every character a normalized tag may hold, in a fixed order.
pub open spec fn tag_alphabet() -> Seq<char> {
    seq![
        'a', 'b', 'c', 'd', 'e', 'f', 'g', 'h', 'i', 'j', 'k', 'l', 'm', 'n', 'o', 'p', 'q',
        'r', 's', 't', 'u', 'v', 'w', 'x', 'y', 'z', '0', '1', '2', '3', '4', '5', '6', '7',
        '8', '9', '-', '_',
    ]
}

proof fn lemma_tag_alphabet_complete(c: char)
    requires
        is_tag_char(c),
    ensures
        exists|j: int| 0 <= j < 38 && #[trigger] tag_alphabet()[j] == c,
{
    let u = c as u32;
    if 0x61 <= u && u <= 0x7a {
        assert(tag_alphabet()[u - 0x61] == c);
    } else if 0x30 <= u && u <= 0x39 {
        assert(tag_alphabet()[26 + u - 0x30] == c);
    } else if u == 0x2d {
        assert(tag_alphabet()[36] == c);
    } else {
        assert(tag_alphabet()[37] == c);
    }
}

/// Well-formed tag text is already normalized: trimming and case folding
/// leave it unchanged.
pub proof fn lemma_tag_text_id(s: Seq<char>)
    requires
        tag_text_wf(s),
    ensures
        trim_spec(s) == s,
        lower_seq(s) == s,
{
    assert(!is_space_char(s[0]));
    assert(!is_space_char(s.last()));
    lemma_trimmed_id(s);
    assert forall|i: int| 0 <= i < s.len() implies lower_seq(s)[i] == s[i] by {
        assert(is_tag_char(s[i]));
        assert(lower_seq(s)[i] == lower_char(s[i]));
    }
    assert(lower_seq(s) =~= s);
}

/// A validated tag: trimmed, case folded to lower case, restricted to
/// `a-z`, `0-9`, `-`, `_`.
#[derive(Debug, PartialEq, Eq)]
pub struct Tag {
    text: String,
}

impl View for Tag {
    type V = Seq<char>;

    closed spec fn view(&self) -> Seq<char> {
        self.text@
    }
}

impl Clone for Tag {
    fn clone(&self) -> (r: Self)
        ensures
            r@ == self@,
    {
        Tag { text: self.text.clone() }
    }
}

impl Tag {
    /// A tag is non-empty and every character is a tag character.
    pub open spec fn wf(&self) -> bool {
        tag_text_wf(self@)
    }

    /// Trim, fold to lower case, and accept only tag characters.
    pub fn parse(input: &str) -> (r: Result<Tag, DomainError>)
        ensures
            match r {
                Ok(t) => t.wf() && t@ == lower_seq(trim_spec(input@)) && trim_spec(input@).len()
                    > 0,
                Err(e) => (e == DomainError::EmptyTag && trim_spec(input@).len() == 0) || (e
                    == DomainError::InvalidTag && trim_spec(input@).len() > 0 && exists|i: int|
                    0 <= i < trim_spec(input@).len() && !is_tag_char(
                        #[trigger] lower_seq(trim_spec(input@))[i],
                    )),
            },
    {
        let trimmed = trim(input);
        let n = trimmed.as_str().unicode_len();
        if n == 0 {
            return Err(DomainError::EmptyTag);
        }
        let alpha = "abcdefghijklmnopqrstuvwxyz0123456789-_";
        proof {
            reveal_strlit("abcdefghijklmnopqrstuvwxyz0123456789-_");
            assert(alpha@ =~= tag_alphabet());
        }
        let mut out = String::new();
        let mut i: usize = 0;
        while i < n
            invariant
                alpha@ =~= tag_alphabet(),
                0 <= i <= n,
                n == trimmed@.len(),
                trimmed@ == trim_spec(input@),
                out@ =~= lower_seq(trimmed@).subrange(0, i as int),
                forall|k: int| 0 <= k < i ==> is_tag_char(#[trigger] lower_seq(trimmed@)[k]),
            decreases n - i,
        {
            let c = trimmed.as_str().get_char(i);
            let lu = crate::text::lower_code(c);
            proof {
                assert(lower_seq(trimmed@)[i as int] == lower_char(trimmed@[i as int]));
            }
            let mut j: usize = 0;
            let mut found = false;
            while j < 38 && !found
                invariant
                    0 <= j <= 38,
                    alpha@ =~= tag_alphabet(),
                    alpha@.len() == 38,
                    lu == lower_char(c) as u32,
                    !found ==> forall|k: int| 0 <= k < j ==> (#[trigger] alpha@[k]) as u32 != lu,
                    found ==> j < 38 && alpha@[j as int] as u32 == lu,
                decreases 38 - j + if found {
                    0int
                } else {
                    1int
                },
            {
                if alpha.get_char(j) as u32 == lu {
                    found = true;
                } else {
                    j = j + 1;
                }
            }
            if !found {
                proof {
                    if is_tag_char(lower_char(c)) {
                        lemma_tag_alphabet_complete(lower_char(c));
                        let w = choose|k: int|
                            0 <= k < 38 && #[trigger] tag_alphabet()[k] == lower_char(c);
                        assert(alpha@[w] as u32 == lu);
                    }
                    assert(!is_tag_char(lower_seq(trimmed@)[i as int]));
                }
                return Err(DomainError::InvalidTag);
            }
            let piece = alpha.substring_char(j, j + 1);
            proof {
                assert(piece@ =~= seq![tag_alphabet()[j as int]]);
                assert(alpha@[j as int] as u32 == lower_char(c) as u32);
                assert(alpha@[j as int] == lower_char(c));
                assert(is_tag_char(tag_alphabet()[j as int]));
            }
            out.append(piece);
            proof {
                assert(out@ =~= lower_seq(trimmed@).subrange(0, i + 1));
            }
            i = i + 1;
        }
        proof {
            assert(lower_seq(trimmed@).subrange(0, n as int) =~= lower_seq(trimmed@));
        }
        Ok(Tag { text: out })
    }

    /// The normalized tag text.
    pub fn as_str(&self) -> (r: &str)
        ensures
            r@ == self@,
    {
        self.text.as_str()
    }
}

/// Urgency of a task; `P1` is the highest, `P4` the lowest.
#[derive(Debug, Clone, Copy, PartialEq, Eq, Hash, PartialOrd, Ord, Structural)]
pub enum Priority {
    P1,
    P2,
    P3,
    P4,
}

/// The display label of each priority level.
pub open spec fn priority_label_text(p: Priority) -> Seq<char> {
    match p {
        Priority::P1 => seq!['P', '1'],
        Priority::P2 => seq!['P', '2'],
        Priority::P3 => seq!['P', '3'],
        Priority::P4 => seq!['P', '4'],
    }
}

/// The priority a text denotes: trimmed and case folded, it must be one
/// of the four labels.
pub open spec fn priority_from_text(s: Seq<char>) -> Option<Priority> {
    let t = lower_seq(trim_spec(s));
    if t == seq!['p', '1'] {
        Some(Priority::P1)
    } else if t == seq!['p', '2'] {
        Some(Priority::P2)
    } else if t == seq!['p', '3'] {
        Some(Priority::P3)
    } else if t == seq!['p', '4'] {
        Some(Priority::P4)
    } else {
        None
    }
}

impl Priority {
    /// Numeric rank of the level: 1 for `P1` through 4 for `P4`.
    pub open spec fn rank_spec(self) -> int {
        match self {
            Priority::P1 => 1,
            Priority::P2 => 2,
            Priority::P3 => 3,
            Priority::P4 => 4,
        }
    }

    /// Numeric rank of the level: 1 for `P1` through 4 for `P4`.
    pub fn rank(&self) -> (r: u8)
        ensures
            r as int == self.rank_spec(),
    {
        match self {
            Priority::P1 => 1,
            Priority::P2 => 2,
            Priority::P3 => 3,
            Priority::P4 => 4,
        }
    }

    /// Parse a label such as `p2` or ` P3 `, case-insensitively.
    pub fn parse(input: &str) -> (r: Result<Priority, DomainError>)
        ensures
            match r {
                Ok(p) => priority_from_text(input@) == Some(p),
                Err(e) => e == DomainError::InvalidPriority && priority_from_text(input@)
                    is None,
            },
    {
        proof {
            reveal_strlit("p1");
            reveal_strlit("p2");
            reveal_strlit("p3");
            reveal_strlit("p4");
            assert(lower_seq("p1"@) =~= seq!['p', '1']);
            assert(lower_seq("p2"@) =~= seq!['p', '2']);
            assert(lower_seq("p3"@) =~= seq!['p', '3']);
            assert(lower_seq("p4"@) =~= seq!['p', '4']);
        }
        let trimmed = trim(input);
        let t = trimmed.as_str();
        if eq_ignore_case(t, "p1") {
            Ok(Priority::P1)
        } else if eq_ignore_case(t, "p2") {
            Ok(Priority::P2)
        } else if eq_ignore_case(t, "p3") {
            Ok(Priority::P3)
        } else if eq_ignore_case(t, "p4") {
            Ok(Priority::P4)
        } else {
            Err(DomainError::InvalidPriority)
        }
    }

    /// Display-friendly label.
    pub fn label(&self) -> (r: &'static str)
        ensures
            r@ == priority_label_text(*self),
    {
        proof {
            reveal_strlit("P1");
            reveal_strlit("P2");
            reveal_strlit("P3");
            reveal_strlit("P4");
        }
        match self {
            Priority::P1 => "P1",
            Priority::P2 => "P2",
            Priority::P3 => "P3",
            Priority::P4 => "P4",
        }
    }
}

impl Default for Priority {
    /// The default level is `P3`.
    fn default() -> (r: Self)
        ensures
            r == Priority::P3,
    {
        Priority::P3
    }
}

/// Reading a priority's label back yields the priority it was written
/// from.
pub proof fn lemma_priority_label_round_trip(p: Priority)
    ensures
        priority_from_text(priority_label_text(p)) == Some(p),
{
    let s = priority_label_text(p);
    assert(!is_space_char(s[0]) && !is_space_char(s.last()));
    lemma_trimmed_id(s);
    match p {
        Priority::P1 => {
            assert(lower_seq(s) =~= seq!['p', '1']);
        },
        Priority::P2 => {
            assert(lower_seq(s) =~= seq!['p', '2']);
        },
        Priority::P3 => {
            assert(lower_seq(s) =~= seq!['p', '3']);
        },
        Priority::P4 => {
            assert(lower_seq(s) =~= seq!['p', '4']);
        },
    }
}

/// A due instant, parsed from RFC 3339 text.
#[derive(Debug, PartialEq, Eq)]
pub struct DueAt {
    at: Instant,
}

impl View for DueAt {
    type V = InstantV;

    closed spec fn view(&self) -> InstantV {
        self.at@
    }
}

impl Clone for DueAt {
    fn clone(&self) -> (r: Self)
        ensures
            r@ == self@,
    {
        DueAt { at: self.at.clone() }
    }
}

impl DueAt {
    /// The stored text denotes the stored nanosecond value.
    pub open spec fn wf(&self) -> bool {
        instant_wf(self@)
    }

    /// Trim the input and accept well-formed RFC 3339 text.
    pub fn parse_rfc3339(input: &str) -> (r: Result<DueAt, DomainError>)
        ensures
            match r {
                Ok(d) => d.wf() && d@.text == trim_spec(input@) && rfc3339_instant(
                    trim_spec(input@),
                ) == Some(d@.nanos),
                Err(e) => e == DomainError::InvalidDueAt && rfc3339_instant(trim_spec(input@))
                    is None,
            },
    {
        let trimmed = trim(input);
        match Instant::parse(trimmed.as_str()) {
            Some(at) => Ok(DueAt { at }),
            None => Err(DomainError::InvalidDueAt),
        }
    }

    /// Wrap an instant as a due time.
    pub fn from_dt(dt: Instant) -> (r: DueAt)
        ensures
            r@ == dt@,
    {
        DueAt { at: dt }
    }

    /// The underlying instant.
    pub fn as_dt(&self) -> (r: Instant)
        ensures
            r@ == self@,
    {
        self.at.clone()
    }

    /// The stored RFC 3339 text form.
    pub fn format_rfc3339(&self) -> (r: String)
        ensures
            r@ == self@.text,
    {
        self.at.text().to_owned()
    }
}

} // verus!
