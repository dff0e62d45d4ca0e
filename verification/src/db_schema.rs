//! The versioned on-disk document: `{"schema_version":1,"todos":[...]}`.
//!
//! The writer emits one canonical text for a task collection; the reader
//! is a strict parser for that grammar (tolerating the common string
//! escapes), dispatches on the document's schema version, and accepts
//! only well-formed tasks. Writing a collection and reading the result
//! back yields the identical collection; [`lemma_document_round_trip`]
//! states and proves exactly that.

use vstd::prelude::*;

verus! {

use crate::id::{canonical_seq, hex_digit_char, hex_val, is_uuid_text, uuid_val};
use crate::instant::{Instant, InstantV, instant_wf, rfc3339_instant};
use crate::tags::tags_sorted;
use crate::todo::{Status, StatusV, TodoV, todo_wf};
use crate::values::{
    Priority,
    nonempty_trimmed,
    notes_text_wf,
    priority_from_text,
    priority_label_text,
    tag_text_wf,
};

/// Schema version the writer emits and the reader understands.
pub const CURRENT_SCHEMA_VERSION: u32 = 1;

// ---------------------------------------------------------------------
// The canonical encoding, character by character.
// ---------------------------------------------------------------------
/// The escape of one character inside a JSON string: quote and backslash
/// get a two-character escape, control characters a `\u00xx` escape, and
/// everything else stands for itself.
pub open spec fn esc_char(c: char) -> Seq<char> {
    if c == '"' {
        seq!['\\', '"']
    } else if c == '\\' {
        seq!['\\', '\\']
    } else if (c as u32) < 0x20 {
        seq![
            '\\',
            'u',
            '0',
            '0',
            hex_digit_char((c as u32 / 16) as int),
            hex_digit_char((c as u32 % 16) as int),
        ]
    } else {
        seq![c]
    }
}

/// The body of a JSON string: every character escaped.
pub open spec fn enc_str_body(t: Seq<char>) -> Seq<char>
    decreases t.len(),
{
    if t.len() == 0 {
        Seq::empty()
    } else {
        esc_char(t[0]) + enc_str_body(t.drop_first())
    }
}

/// A JSON string: the escaped body between quotes.
pub open spec fn enc_string(t: Seq<char>) -> Seq<char> {
    seq!['"'] + enc_str_body(t) + seq!['"']
}

/// `null`, or a JSON string.
pub open spec fn enc_opt_string(t: Option<Seq<char>>) -> Seq<char> {
    match t {
        Some(x) => enc_string(x),
        None => seq!['n', 'u', 'l', 'l'],
    }
}

/// A key between quotes, followed by a colon.
pub open spec fn enc_key(name: Seq<char>) -> Seq<char> {
    seq!['"'] + name + seq!['"', ':']
}

/// The task's status: the `"open"` tag, or a `"done"` tag carrying the
/// completion timestamp.
pub open spec fn enc_status(st: StatusV) -> Seq<char> {
    match st {
        StatusV::Open => seq!['"', 'o', 'p', 'e', 'n', '"'],
        StatusV::Done { completed_at } => seq!['{'] + enc_key(seq!['d', 'o', 'n', 'e'])
            + enc_string(completed_at.text) + seq!['}'],
    }
}

/// The elements of the tag array, comma separated.
pub open spec fn enc_tags_items(ts: Seq<Seq<char>>) -> Seq<char>
    decreases ts.len(),
{
    if ts.len() == 0 {
        Seq::empty()
    } else if ts.len() == 1 {
        enc_string(ts[0])
    } else {
        enc_string(ts[0]) + seq![','] + enc_tags_items(ts.drop_first())
    }
}

/// The tag array.
pub open spec fn enc_tags(ts: Seq<Seq<char>>) -> Seq<char> {
    seq!['['] + enc_tags_items(ts) + seq![']']
}

/// The first fields of one serialized task: identifier, title, status
/// and priority.
#[verifier::opaque]
pub open spec fn enc_todo_head(t: TodoV) -> Seq<char> {
    seq!['{'] + enc_key(seq!['i', 'd']) + enc_string(canonical_seq(t.id)) + seq![','] + enc_key(
        seq!['t', 'i', 't', 'l', 'e'],
    ) + enc_string(t.title) + seq![','] + enc_key(seq!['s', 't', 'a', 't', 'u', 's']) + enc_status(
        t.status,
    ) + seq![','] + enc_key(seq!['p', 'r', 'i', 'o', 'r', 'i', 't', 'y']) + enc_string(
        priority_label_text(t.priority),
    )
}

/// The middle fields of one serialized task: project, tags and due
/// instant.
#[verifier::opaque]
pub open spec fn enc_todo_mid(t: TodoV) -> Seq<char> {
    seq![','] + enc_key(seq!['p', 'r', 'o', 'j', 'e', 'c', 't']) + enc_string(t.project) + seq![
        ',',
    ] + enc_key(seq!['t', 'a', 'g', 's']) + enc_tags(t.tags) + seq![','] + enc_key(
        seq!['d', 'u', 'e'],
    ) + enc_opt_string(
        match t.due {
            Some(d) => Some(d.text),
            None => None,
        },
    )
}

/// The last fields of one serialized task: notes and the two timestamps.
#[verifier::opaque]
pub open spec fn enc_todo_tail(t: TodoV) -> Seq<char> {
    seq![','] + enc_key(seq!['n', 'o', 't', 'e', 's']) + enc_opt_string(t.notes) + seq![',']
        + enc_key(seq!['c', 'r', 'e', 'a', 't', 'e', 'd', '_', 'a', 't']) + enc_string(
        t.created_at.text,
    ) + seq![','] + enc_key(seq!['u', 'p', 'd', 'a', 't', 'e', 'd', '_', 'a', 't']) + enc_string(
        t.updated_at.text,
    ) + seq!['}']
}

/// One serialized task: its fields in a fixed order.
#[verifier::opaque]
pub open spec fn enc_todo(t: TodoV) -> Seq<char> {
    enc_todo_head(t) + enc_todo_mid(t) + enc_todo_tail(t)
}

/// The elements of the task array, comma separated.
pub open spec fn enc_todos_items(ts: Seq<TodoV>) -> Seq<char>
    decreases ts.len(),
{
    if ts.len() == 0 {
        Seq::empty()
    } else if ts.len() == 1 {
        enc_todo(ts[0])
    } else {
        enc_todo(ts[0]) + seq![','] + enc_todos_items(ts.drop_first())
    }
}

/// The key of the version field.
pub open spec fn version_prefix() -> Seq<char> {
    seq![
        '{',
        '"',
        's',
        'c',
        'h',
        'e',
        'm',
        'a',
        '_',
        'v',
        'e',
        'r',
        's',
        'i',
        'o',
        'n',
        '"',
        ':',
    ]
}

/// The key of the task array.
pub open spec fn todos_prefix() -> Seq<char> {
    seq![',', '"', 't', 'o', 'd', 'o', 's', '"', ':', '[']
}

/// The whole canonical document text for a task collection.
pub open spec fn enc_doc(ts: Seq<TodoV>) -> Seq<char> {
    version_prefix() + seq!['1'] + todos_prefix() + enc_todos_items(ts) + seq![']', '}']
}

// ---------------------------------------------------------------------
// The strict reader, as spec functions that consume from the front.
// ---------------------------------------------------------------------
/// An ASCII decimal digit.
pub open spec fn is_digit(c: char) -> bool {
    0x30 <= c as u32 && c as u32 <= 0x39
}

/// Consume an exact literal.
pub open spec fn sp_lit(s: Seq<char>, lit: Seq<char>) -> Option<Seq<char>> {
    if lit.len() <= s.len() && s.subrange(0, lit.len() as int) == lit {
        Some(s.skip(lit.len() as int))
    } else {
        None
    }
}

/// Consume the remainder of a JSON string after the opening quote:
/// characters and escapes up to the closing quote.
pub open spec fn sp_str_body(s: Seq<char>) -> Option<(Seq<char>, Seq<char>)>
    decreases s.len(),
{
    if s.len() == 0 {
        None
    } else if s[0] == '"' {
        Some((Seq::empty(), s.drop_first()))
    } else if s[0] == '\\' {
        if s.len() < 2 {
            None
        } else {
            let e = s[1];
            if e == '"' || e == '\\' || e == '/' {
                match sp_str_body(s.skip(2)) {
                    Some((t, r)) => Some((seq![e] + t, r)),
                    None => None,
                }
            } else if e == 'b' || e == 'f' || e == 'n' || e == 'r' || e == 't' {
                let c = if e == 'b' {
                    8 as char
                } else if e == 'f' {
                    12 as char
                } else if e == 'n' {
                    10 as char
                } else if e == 'r' {
                    13 as char
                } else {
                    9 as char
                };
                match sp_str_body(s.skip(2)) {
                    Some((t, r)) => Some((seq![c] + t, r)),
                    None => None,
                }
            } else if e == 'u' && s.len() >= 6 && hex_val(s[2]) >= 0 && hex_val(s[3]) >= 0
                && hex_val(s[4]) >= 0 && hex_val(s[5]) >= 0 && (hex_val(s[2]) * 4096 + hex_val(
                s[3],
            ) * 256 + hex_val(s[4]) * 16 + hex_val(s[5]) < 0x20) {
                let u = hex_val(s[2]) * 4096 + hex_val(s[3]) * 256 + hex_val(s[4]) * 16 + hex_val(
                    s[5],
                );
                match sp_str_body(s.skip(6)) {
                    Some((t, r)) => Some((seq![u as char] + t, r)),
                    None => None,
                }
            } else {
                None
            }
        }
    } else if (s[0] as u32) >= 0x20 {
        match sp_str_body(s.drop_first()) {
            Some((t, r)) => Some((seq![s[0]] + t, r)),
            None => None,
        }
    } else {
        None
    }
}

/// Consume a JSON string.
pub open spec fn sp_string(s: Seq<char>) -> Option<(Seq<char>, Seq<char>)> {
    if s.len() > 0 && s[0] == '"' {
        sp_str_body(s.drop_first())
    } else {
        None
    }
}

/// Consume the digits of a decimal number, greedily, given the value of
/// the digits already read.
pub open spec fn sp_digits_rest(s: Seq<char>, acc: int) -> (int, Seq<char>)
    decreases s.len(),
{
    if s.len() > 0 && is_digit(s[0]) {
        sp_digits_rest(s.drop_first(), acc * 10 + (s[0] as u32 - 0x30))
    } else {
        (acc, s)
    }
}

/// Consume a decimal number: at least one digit.
pub open spec fn sp_number(s: Seq<char>) -> Option<(int, Seq<char>)> {
    if s.len() > 0 && is_digit(s[0]) {
        Some(sp_digits_rest(s, 0))
    } else {
        None
    }
}

/// Consume a JSON string holding a timestamp the RFC 3339 parser accepts.
pub open spec fn sp_instant(s: Seq<char>) -> Option<(InstantV, Seq<char>)> {
    match sp_string(s) {
        Some((t, r)) => match rfc3339_instant(t) {
            Some(n) => if i128::MIN <= n <= i128::MAX {
                Some((InstantV { text: t, nanos: n }, r))
            } else {
                None
            },
            None => None,
        },
        None => None,
    }
}

/// Consume a status: the `"open"` tag, or a `"done"` tag with the
/// completion timestamp.
pub open spec fn sp_status(s: Seq<char>) -> Option<(StatusV, Seq<char>)> {
    if s.len() > 0 && s[0] == '{' {
        match sp_lit(s, seq!['{'] + enc_key(seq!['d', 'o', 'n', 'e'])) {
            Some(r1) => match sp_instant(r1) {
                Some((at, r2)) => match sp_lit(r2, seq!['}']) {
                    Some(r3) => Some((StatusV::Done { completed_at: at }, r3)),
                    None => None,
                },
                None => None,
            },
            None => None,
        }
    } else {
        match sp_lit(s, seq!['"', 'o', 'p', 'e', 'n', '"']) {
            Some(r) => Some((StatusV::Open, r)),
            None => None,
        }
    }
}

/// Consume the items of a non-empty tag array, each a well-formed tag
/// text, up to and including the closing bracket.
pub open spec fn sp_tags_items(s: Seq<char>) -> Option<(Seq<Seq<char>>, Seq<char>)>
    decreases s.len(),
{
    match sp_string(s) {
        Some((t, r)) => if tag_text_wf(t) && r.len() > 0 && r.len() < s.len() {
            if r[0] == ']' {
                Some((seq![t], r.drop_first()))
            } else if r[0] == ',' {
                match sp_tags_items(r.drop_first()) {
                    Some((ts, r2)) => Some((seq![t] + ts, r2)),
                    None => None,
                }
            } else {
                None
            }
        } else {
            None
        },
        None => None,
    }
}

/// Consume a tag array whose entries are sorted without duplicates.
pub open spec fn sp_tags(s: Seq<char>) -> Option<(Seq<Seq<char>>, Seq<char>)> {
    if s.len() >= 2 && s[0] == '[' && s[1] == ']' {
        Some((Seq::empty(), s.skip(2)))
    } else if s.len() > 0 && s[0] == '[' {
        match sp_tags_items(s.drop_first()) {
            Some((ts, r)) => if tags_sorted(ts) {
                Some((ts, r))
            } else {
                None
            },
            None => None,
        }
    } else {
        None
    }
}

/// Consume `null`, or a JSON string.
pub open spec fn sp_opt_string(s: Seq<char>) -> Option<(Option<Seq<char>>, Seq<char>)> {
    if s.len() > 0 && s[0] == 'n' {
        match sp_lit(s, seq!['n', 'u', 'l', 'l']) {
            Some(r) => Some((None, r)),
            None => None,
        }
    } else {
        match sp_string(s) {
            Some((t, r)) => Some((Some(t), r)),
            None => None,
        }
    }
}

/// Consume `null`, or a JSON string holding a timestamp.
pub open spec fn sp_opt_instant(s: Seq<char>) -> Option<(Option<InstantV>, Seq<char>)> {
    if s.len() > 0 && s[0] == 'n' {
        match sp_lit(s, seq!['n', 'u', 'l', 'l']) {
            Some(r) => Some((None, r)),
            None => None,
        }
    } else {
        match sp_instant(s) {
            Some((at, r)) => Some((Some(at), r)),
            None => None,
        }
    }
}

/// Consume one serialized task and check every record invariant: the
/// identifier canonical, the title and project non-empty and trimmed, the
/// tags sorted well-formed tag texts, the notes within the cap, and the
/// update instant never earlier than the creation instant.
#[verifier::opaque]
pub open spec fn sp_todo(s: Seq<char>) -> Option<(TodoV, Seq<char>)> {
    match sp_lit(s, seq!['{'] + enc_key(seq!['i', 'd'])) {
        Some(r) => match sp_string(r) {
            Some((idt, r)) => if is_uuid_text(idt) {
                match sp_lit(r, seq![','] + enc_key(seq!['t', 'i', 't', 'l', 'e'])) {
                    Some(r) => match sp_string(r) {
                        Some((title, r)) => if nonempty_trimmed(title) {
                            match sp_lit(
                                r,
                                seq![','] + enc_key(seq!['s', 't', 'a', 't', 'u', 's']),
                            ) {
                                Some(r) => match sp_status(r) {
                                    Some((status, r)) => match sp_lit(
                                        r,
                                        seq![','] + enc_key(
                                            seq!['p', 'r', 'i', 'o', 'r', 'i', 't', 'y'],
                                        ),
                                    ) {
                                        Some(r) => match sp_string(r) {
                                            Some((prt, r)) => match priority_from_text(prt) {
                                                Some(priority) => sp_todo_tail(
                                                    r,
                                                    uuid_val(idt),
                                                    title,
                                                    status,
                                                    priority,
                                                ),
                                                None => None,
                                            },
                                            None => None,
                                        },
                                        None => None,
                                    },
                                    None => None,
                                },
                                None => None,
                            }
                        } else {
                            None
                        },
                        None => None,
                    },
                    None => None,
                }
            } else {
                None
            },
            None => None,
        },
        None => None,
    }
}

/// The second half of one serialized task: project, tags, due, notes and
/// the two timestamps.
#[verifier::opaque]
pub open spec fn sp_todo_tail(
    s: Seq<char>,
    id: u128,
    title: Seq<char>,
    status: StatusV,
    priority: Priority,
) -> Option<(TodoV, Seq<char>)> {
    match sp_lit(s, seq![','] + enc_key(seq!['p', 'r', 'o', 'j', 'e', 'c', 't'])) {
        Some(r) => match sp_string(r) {
            Some((project, r)) => if nonempty_trimmed(project) {
                match sp_lit(r, seq![','] + enc_key(seq!['t', 'a', 'g', 's'])) {
                    Some(r) => match sp_tags(r) {
                        Some((tags, r)) => match sp_lit(r, seq![','] + enc_key(seq!['d', 'u', 'e'])) {
                            Some(r) => match sp_opt_instant(r) {
                                Some((due, r)) => match sp_lit(
                                    r,
                                    seq![','] + enc_key(seq!['n', 'o', 't', 'e', 's']),
                                ) {
                                    Some(r) => match sp_opt_string(r) {
                                        Some((notes, r)) => if (match notes {
                                            Some(n) => notes_text_wf(n),
                                            None => true,
                                        }) {
                                            match sp_lit(
                                                r,
                                                seq![','] + enc_key(
                                                    seq![
                                                        'c',
                                                        'r',
                                                        'e',
                                                        'a',
                                                        't',
                                                        'e',
                                                        'd',
                                                        '_',
                                                        'a',
                                                        't',
                                                    ],
                                                ),
                                            ) {
                                                Some(r) => match sp_instant(r) {
                                                    Some((created_at, r)) => match sp_lit(
                                                        r,
                                                        seq![','] + enc_key(
                                                            seq![
                                                                'u',
                                                                'p',
                                                                'd',
                                                                'a',
                                                                't',
                                                                'e',
                                                                'd',
                                                                '_',
                                                                'a',
                                                                't',
                                                            ],
                                                        ),
                                                    ) {
                                                        Some(r) => match sp_instant(r) {
                                                            Some((updated_at, r)) => if updated_at.nanos
                                                                >= created_at.nanos {
                                                                match sp_lit(r, seq!['}']) {
                                                                    Some(r) => Some(
                                                                        (
                                                                            TodoV {
                                                                                id,
                                                                                title,
                                                                                notes,
                                                                                project,
                                                                                tags,
                                                                                status,
                                                                                priority,
                                                                                due,
                                                                                created_at,
                                                                                updated_at,
                                                                            },
                                                                            r,
                                                                        ),
                                                                    ),
                                                                    None => None,
                                                                }
                                                            } else {
                                                                None
                                                            },
                                                            None => None,
                                                        },
                                                        None => None,
                                                    },
                                                    None => None,
                                                },
                                                None => None,
                                            }
                                        } else {
                                            None
                                        },
                                        None => None,
                                    },
                                    None => None,
                                },
                                None => None,
                            },
                            None => None,
                        },
                        None => None,
                    },
                    None => None,
                }
            } else {
                None
            },
            None => None,
        },
        None => None,
    }
}

/// Consume the items of a non-empty task array, up to and including the
/// closing bracket.
pub open spec fn sp_todos_items(s: Seq<char>) -> Option<(Seq<TodoV>, Seq<char>)>
    decreases s.len(),
{
    match sp_todo(s) {
        Some((t, r)) => if r.len() > 0 && r.len() < s.len() {
            if r[0] == ']' {
                Some((seq![t], r.drop_first()))
            } else if r[0] == ',' {
                match sp_todos_items(r.drop_first()) {
                    Some((ts, r2)) => Some((seq![t] + ts, r2)),
                    None => None,
                }
            } else {
                None
            }
        } else {
            None
        },
        None => None,
    }
}

/// The version number of a document, when its head has the canonical
/// version-field shape.
pub open spec fn sp_doc_version(s: Seq<char>) -> Option<int> {
    match sp_lit(s, version_prefix()) {
        Some(r) => match sp_number(r) {
            Some((v, _)) => Some(v),
            None => None,
        },
        None => None,
    }
}

/// The task collection a document denotes: version field holding 1, then
/// the task array, then the closing brace, then nothing.
pub open spec fn sp_doc(s: Seq<char>) -> Option<Seq<TodoV>> {
    match sp_lit(s, version_prefix()) {
        Some(r) => match sp_number(r) {
            Some((v, r)) => if v == 1 {
                match sp_lit(r, todos_prefix()) {
                    Some(r) => if r.len() >= 2 && r[0] == ']' && r[1] == '}' {
                        if r.len() == 2 {
                            Some(Seq::empty())
                        } else {
                            None
                        }
                    } else {
                        match sp_todos_items(r) {
                            Some((ts, r)) => if r == seq!['}'] {
                                Some(ts)
                            } else {
                                None
                            },
                            None => None,
                        }
                    },
                    None => None,
                }
            } else {
                None
            },
            None => None,
        },
        None => None,
    }
}


// ---------------------------------------------------------------------
// The writer.
// ---------------------------------------------------------------------
proof fn lemma_enc_body_push(t: Seq<char>, c: char)
    ensures
        enc_str_body(t.push(c)) == enc_str_body(t) + esc_char(c),
    decreases t.len(),
{
    reveal_with_fuel(enc_str_body, 3);
    if t.len() == 0 {
        assert(t.push(c)[0] == c);
        assert(t.push(c).drop_first() =~= Seq::<char>::empty());
        assert(enc_str_body(t.push(c)) =~= enc_str_body(t) + esc_char(c));
    } else {
        assert(t.push(c)[0] == t[0]);
        assert(t.push(c).drop_first() =~= t.drop_first().push(c));
        lemma_enc_body_push(t.drop_first(), c);
        assert(enc_str_body(t.push(c)) == esc_char(t[0]) + enc_str_body(t.drop_first().push(c)));
        assert(enc_str_body(t.push(c)) == esc_char(t[0]) + (enc_str_body(t.drop_first())
            + esc_char(c)));
        assert(enc_str_body(t) == esc_char(t[0]) + enc_str_body(t.drop_first()));
        assert(esc_char(t[0]) + (enc_str_body(t.drop_first()) + esc_char(c)) =~= (esc_char(t[0])
            + enc_str_body(t.drop_first())) + esc_char(c));
        assert(enc_str_body(t.push(c)) =~= enc_str_body(t) + esc_char(c));
    }
}

/// Append the escaped body of `s`.
fn push_escaped(out: &mut String, s: &str)
    ensures
        final(out)@ == old(out)@ + enc_str_body(s@),
{
    let n = s.unicode_len();
    proof {
        reveal_strlit("0123456789abcdef");
    }
    let hex = "0123456789abcdef";
    let mut i: usize = 0;
    proof {
        assert(out@ =~= old(out)@ + enc_str_body(s@.subrange(0, 0)));
    }
    while i < n
        invariant
            0 <= i <= n,
            n == s@.len(),
            hex@ =~= Seq::new(16, |k: int| hex_digit_char(k)),
            out@ == old(out)@ + enc_str_body(s@.subrange(0, i as int)),
        decreases n - i,
    {
        proof {
            reveal_strlit("\\\"");
            reveal_strlit("\\\\");
            reveal_strlit("\\u00");
            assert(s@.subrange(0, i + 1) =~= s@.subrange(0, i as int).push(s@[i as int]));
            lemma_enc_body_push(s@.subrange(0, i as int), s@[i as int]);
        }
        let c = s.get_char(i);
        let u = c as u32;
        if c == '"' {
            out.append("\\\"");
            proof {
                assert("\\\""@ =~= esc_char(c));
            }
        } else if c == '\\' {
            out.append("\\\\");
            proof {
                assert("\\\\"@ =~= esc_char(c));
            }
        } else if u < 0x20 {
            out.append("\\u00");
            let d1 = (u / 16) as usize;
            let d2 = (u % 16) as usize;
            out.append(hex.substring_char(d1, d1 + 1));
            out.append(hex.substring_char(d2, d2 + 1));
            proof {
                assert(hex@.subrange(d1 as int, d1 + 1) =~= seq![hex_digit_char(d1 as int)]);
                assert(hex@.subrange(d2 as int, d2 + 1) =~= seq![hex_digit_char(d2 as int)]);
                assert("\\u00"@ + seq![hex_digit_char(d1 as int)] + seq![
                    hex_digit_char(d2 as int),
                ] =~= esc_char(c));
            }
        } else {
            out.append(s.substring_char(i, i + 1));
            proof {
                assert(s@.subrange(i as int, i + 1) =~= seq![c]);
                assert(seq![c] =~= esc_char(c));
            }
        }
        proof {
            assert(out@ =~= old(out)@ + enc_str_body(s@.subrange(0, i + 1)));
        }
        i = i + 1;
    }
    proof {
        assert(s@.subrange(0, n as int) =~= s@);
    }
}

/// Append `s` as a JSON string.
fn push_string(out: &mut String, s: &str)
    ensures
        final(out)@ == old(out)@ + enc_string(s@),
{
    proof {
        reveal_strlit("\"");
    }
    out.append("\"");
    push_escaped(out, s);
    out.append("\"");
    proof {
        assert(out@ =~= old(out)@ + enc_string(s@));
    }
}

/// Append the first fields of one serialized task.
fn push_todo_head(out: &mut String, t: &crate::todo::Todo)
    ensures
        final(out)@ == old(out)@ + enc_todo_head(t@),
{
    proof {
        reveal(enc_todo_head);
        reveal_strlit("{\"id\":");
        reveal_strlit(",\"title\":");
        reveal_strlit(",\"status\":");
        reveal_strlit("\"open\"");
        reveal_strlit("{\"done\":");
        reveal_strlit("}");
        reveal_strlit(",\"priority\":");
    }
    out.append("{\"id\":");
    proof {
        assert("{\"id\":"@ =~= seq!['{'] + enc_key(seq!['i', 'd']));
    }
    let idt = t.id.as_uuid_str();
    push_string(out, idt.as_str());
    out.append(",\"title\":");
    proof {
        assert(",\"title\":"@ =~= seq![','] + enc_key(seq!['t', 'i', 't', 'l', 'e']));
    }
    push_string(out, t.title.as_str());
    out.append(",\"status\":");
    proof {
        assert(",\"status\":"@ =~= seq![','] + enc_key(seq!['s', 't', 'a', 't', 'u', 's']));
    }
    match &t.status {
        crate::todo::Status::Open => {
            out.append("\"open\"");
            proof {
                assert("\"open\""@ =~= enc_status(t@.status));
            }
        },
        crate::todo::Status::Done { completed_at } => {
            out.append("{\"done\":");
            push_string(out, completed_at.text());
            out.append("}");
            proof {
                assert("{\"done\":"@ =~= seq!['{'] + enc_key(seq!['d', 'o', 'n', 'e']));
                assert("}"@ =~= seq!['}']);
                assert(seq!['{'] + enc_key(seq!['d', 'o', 'n', 'e']) + enc_string(completed_at@.text)
                    + seq!['}'] =~= enc_status(t@.status));
            }
        },
    }
    out.append(",\"priority\":");
    proof {
        assert(",\"priority\":"@ =~= seq![','] + enc_key(
            seq!['p', 'r', 'i', 'o', 'r', 'i', 't', 'y'],
        ));
    }
    push_string(out, t.priority.label());
    proof {
        assert(out@ =~= old(out)@ + enc_todo_head(t@));
    }
}

/// Append the middle fields of one serialized task.
fn push_todo_mid(out: &mut String, t: &crate::todo::Todo)
    ensures
        final(out)@ == old(out)@ + enc_todo_mid(t@),
{
    proof {
        reveal(enc_todo_mid);
        reveal_strlit(",\"project\":");
        reveal_strlit(",\"tags\":");
        reveal_strlit(",\"due\":");
        reveal_strlit("null");
    }
    out.append(",\"project\":");
    proof {
        assert(",\"project\":"@ =~= seq![','] + enc_key(seq!['p', 'r', 'o', 'j', 'e', 'c', 't']));
    }
    push_string(out, t.project.as_str());
    out.append(",\"tags\":");
    proof {
        assert(",\"tags\":"@ =~= seq![','] + enc_key(seq!['t', 'a', 'g', 's']));
    }
    push_tags(out, &t.tags);
    out.append(",\"due\":");
    proof {
        assert(",\"due\":"@ =~= seq![','] + enc_key(seq!['d', 'u', 'e']));
    }
    match &t.due {
        Some(d) => {
            let dt = d.format_rfc3339();
            push_string(out, dt.as_str());
        },
        None => {
            out.append("null");
            proof {
                assert("null"@ =~= seq!['n', 'u', 'l', 'l']);
            }
        },
    }
    proof {
        assert(out@ =~= old(out)@ + enc_todo_mid(t@));
    }
}

/// Append the last fields of one serialized task.
fn push_todo_tail(out: &mut String, t: &crate::todo::Todo)
    ensures
        final(out)@ == old(out)@ + enc_todo_tail(t@),
{
    proof {
        reveal(enc_todo_tail);
        reveal_strlit(",\"notes\":");
        reveal_strlit(",\"created_at\":");
        reveal_strlit(",\"updated_at\":");
        reveal_strlit("null");
        reveal_strlit("}");
    }
    out.append(",\"notes\":");
    proof {
        assert(",\"notes\":"@ =~= seq![','] + enc_key(seq!['n', 'o', 't', 'e', 's']));
    }
    match &t.notes {
        Some(nn) => {
            push_string(out, nn.as_str());
        },
        None => {
            out.append("null");
            proof {
                assert("null"@ =~= seq!['n', 'u', 'l', 'l']);
            }
        },
    }
    out.append(",\"created_at\":");
    proof {
        assert(",\"created_at\":"@ =~= seq![','] + enc_key(
            seq!['c', 'r', 'e', 'a', 't', 'e', 'd', '_', 'a', 't'],
        ));
    }
    push_string(out, t.created_at.text());
    out.append(",\"updated_at\":");
    proof {
        assert(",\"updated_at\":"@ =~= seq![','] + enc_key(
            seq!['u', 'p', 'd', 'a', 't', 'e', 'd', '_', 'a', 't'],
        ));
    }
    push_string(out, t.updated_at.text());
    out.append("}");
    proof {
        assert("}"@ =~= seq!['}']);
        assert(out@ =~= old(out)@ + enc_todo_tail(t@));
    }
}

/// Append one serialized task.
fn push_todo(out: &mut String, t: &crate::todo::Todo)
    ensures
        final(out)@ == old(out)@ + enc_todo(t@),
{
    push_todo_head(out, t);
    push_todo_mid(out, t);
    push_todo_tail(out, t);
    proof {
        reveal(enc_todo);
        assert(out@ =~= old(out)@ + enc_todo(t@));
    }
}

proof fn lemma_enc_tags_items_push(ts: Seq<Seq<char>>, x: Seq<char>)
    ensures
        enc_tags_items(ts.push(x)) == if ts.len() == 0 {
            enc_string(x)
        } else {
            enc_tags_items(ts) + seq![','] + enc_string(x)
        },
    decreases ts.len(),
{
    if ts.len() == 0 {
        assert(ts.push(x)[0] == x);
        assert(enc_tags_items(ts.push(x)) == enc_string(x));
    } else {
        assert(ts.push(x)[0] == ts[0]);
        assert(ts.push(x).drop_first() =~= ts.drop_first().push(x));
        lemma_enc_tags_items_push(ts.drop_first(), x);
        if ts.len() == 1 {
            assert(ts.drop_first().len() == 0);
            assert(enc_tags_items(ts.push(x)) =~= enc_tags_items(ts) + seq![','] + enc_string(x));
        } else {
            assert(enc_tags_items(ts.push(x)) =~= enc_tags_items(ts) + seq![','] + enc_string(x));
        }
    }
}

/// Append the tag array.
fn push_tags(out: &mut String, tags: &Vec<crate::values::Tag>)
    ensures
        final(out)@ == old(out)@ + enc_tags(crate::tags::tags_view(tags@)),
{
    proof {
        reveal_strlit("[");
        reveal_strlit(",");
        reveal_strlit("]");
    }
    out.append("[");
    let n = tags.len();
    let mut i: usize = 0;
    proof {
        assert("["@ =~= seq!['[']);
        assert(crate::tags::tags_view(tags@).subrange(0, 0) =~= Seq::<Seq<char>>::empty());
        assert(out@ =~= old(out)@ + seq!['['] + enc_tags_items(
            crate::tags::tags_view(tags@).subrange(0, 0),
        ));
    }
    while i < n
        invariant
            0 <= i <= n,
            n == tags@.len(),
            out@ == old(out)@ + seq!['['] + enc_tags_items(
                crate::tags::tags_view(tags@).subrange(0, i as int),
            ),
        decreases n - i,
    {
        proof {
            reveal_strlit(",");
            let tv = crate::tags::tags_view(tags@);
            assert(tv[i as int] == tags@[i as int]@);
            assert(tv.subrange(0, i + 1) =~= tv.subrange(0, i as int).push(tv[i as int]));
            lemma_enc_tags_items_push(tv.subrange(0, i as int), tv[i as int]);
        }
        if i > 0 {
            out.append(",");
            proof {
                assert(","@ =~= seq![',']);
            }
        }
        push_string(out, tags[i].as_str());
        proof {
            assert(out@ =~= old(out)@ + seq!['['] + enc_tags_items(
                crate::tags::tags_view(tags@).subrange(0, i + 1),
            ));
        }
        i = i + 1;
    }
    out.append("]");
    proof {
        assert("]"@ =~= seq![']']);
        assert(crate::tags::tags_view(tags@).subrange(0, n as int) =~= crate::tags::tags_view(
            tags@,
        ));
        assert(out@ =~= old(out)@ + enc_tags(crate::tags::tags_view(tags@)));
    }
}

proof fn lemma_enc_todos_items_push(ts: Seq<TodoV>, x: TodoV)
    ensures
        enc_todos_items(ts.push(x)) == if ts.len() == 0 {
            enc_todo(x)
        } else {
            enc_todos_items(ts) + seq![','] + enc_todo(x)
        },
    decreases ts.len(),
{
    if ts.len() == 0 {
        assert(ts.push(x)[0] == x);
        assert(enc_todos_items(ts.push(x)) == enc_todo(x));
    } else {
        assert(ts.push(x)[0] == ts[0]);
        assert(ts.push(x).drop_first() =~= ts.drop_first().push(x));
        lemma_enc_todos_items_push(ts.drop_first(), x);
        if ts.len() == 1 {
            assert(ts.drop_first().len() == 0);
            assert(enc_todos_items(ts.push(x)) =~= enc_todos_items(ts) + seq![','] + enc_todo(x));
        } else {
            assert(enc_todos_items(ts.push(x)) =~= enc_todos_items(ts) + seq![','] + enc_todo(x));
        }
    }
}

/// Serialize a task collection to the canonical current-version document.
pub fn write_current(todos: &Vec<crate::todo::Todo>) -> (r: String)
    ensures
        r@ == enc_doc(crate::repo::todos_views(todos@)),
{
    proof {
        reveal_strlit("{\"schema_version\":1,\"todos\":[");
        reveal_strlit(",");
        reveal_strlit("]}");
    }
    let mut out = String::new();
    out.append("{\"schema_version\":1,\"todos\":[");
    let ghost head = version_prefix() + seq!['1'] + todos_prefix();
    proof {
        assert("{\"schema_version\":1,\"todos\":["@ =~= head);
    }
    let n = todos.len();
    let mut i: usize = 0;
    proof {
        assert(crate::repo::todos_views(todos@).subrange(0, 0) =~= Seq::<TodoV>::empty());
        assert(out@ =~= head + enc_todos_items(crate::repo::todos_views(todos@).subrange(0, 0)));
    }
    while i < n
        invariant
            0 <= i <= n,
            n == todos@.len(),
            head == version_prefix() + seq!['1'] + todos_prefix(),
            out@ == head + enc_todos_items(crate::repo::todos_views(todos@).subrange(0, i as int)),
        decreases n - i,
    {
        proof {
            reveal_strlit(",");
            let tv = crate::repo::todos_views(todos@);
            assert(tv[i as int] == todos@[i as int]@);
            assert(tv.subrange(0, i + 1) =~= tv.subrange(0, i as int).push(tv[i as int]));
            lemma_enc_todos_items_push(tv.subrange(0, i as int), tv[i as int]);
        }
        if i > 0 {
            out.append(",");
            proof {
                assert(","@ =~= seq![',']);
            }
        }
        push_todo(&mut out, &todos[i]);
        proof {
            assert(out@ =~= head + enc_todos_items(
                crate::repo::todos_views(todos@).subrange(0, i + 1),
            ));
        }
        i = i + 1;
    }
    out.append("]}");
    proof {
        assert("]}"@ =~= seq![']', '}']);
        assert(crate::repo::todos_views(todos@).subrange(0, n as int) =~= crate::repo::todos_views(
            todos@,
        ));
        assert(out@ =~= enc_doc(crate::repo::todos_views(todos@)));
    }
    out
}

// ---------------------------------------------------------------------
// The reader.
// ---------------------------------------------------------------------
/// Prepend already-read characters to a parse result.
pub open spec fn opt_prepend(pre: Seq<char>, o: Option<(Seq<char>, Seq<char>)>) -> Option<
    (Seq<char>, Seq<char>),
> {
    match o {
        Some((t, r)) => Some((pre + t, r)),
        None => None,
    }
}

proof fn lemma_opt_prepend(a: Seq<char>, b: Seq<char>, o: Option<(Seq<char>, Seq<char>)>)
    ensures
        opt_prepend(a, opt_prepend(b, o)) == opt_prepend(a + b, o),
{
    match o {
        Some((t, r)) => {
            assert(a + (b + t) =~= (a + b) + t);
        },
        None => {},
    }
}

/// Value of one hexadecimal digit character, or -1.
fn hex_digit_val(c: char) -> (r: i8)
    ensures
        r as int == hex_val(c),
{
    let u = c as u32;
    if 0x30 <= u && u <= 0x39 {
        (u - 0x30) as i8
    } else if 0x61 <= u && u <= 0x66 {
        (u - 0x61 + 10) as i8
    } else if 0x41 <= u && u <= 0x46 {
        (u - 0x41 + 10) as i8
    } else {
        -1
    }
}

/// Expect an exact literal at position `p`.
fn d_lit(s: &str, p: usize, lit: &str, n: usize) -> (r: Option<usize>)
    requires
        p <= n,
        n == s@.len(),
    ensures
        match r {
            Some(p2) => p <= p2 <= n && sp_lit(s@.skip(p as int), lit@) == Some(
                s@.skip(p2 as int),
            ) && p2 - p == lit@.len(),
            None => sp_lit(s@.skip(p as int), lit@) is None,
        },
{
    let ln = lit.unicode_len();
    if ln > n - p {
        proof {
            assert(s@.skip(p as int).len() < lit@.len());
        }
        return None;
    }
    let mut k: usize = 0;
    while k < ln
        invariant
            0 <= k <= ln,
            p + ln <= n,
            n == s@.len(),
            ln == lit@.len(),
            forall|j: int| 0 <= j < k ==> s@[p + j] == lit@[j],
        decreases ln - k,
    {
        if s.get_char(p + k) != lit.get_char(k) {
            proof {
                assert(s@.skip(p as int)[k as int] == s@[p + k]);
                if lit@.len() <= s@.skip(p as int).len() && s@.skip(p as int).subrange(
                    0,
                    lit@.len() as int,
                ) == lit@ {
                    assert(s@.skip(p as int).subrange(0, lit@.len() as int)[k as int] == s@[p
                        + k]);
                }
            }
            return None;
        }
        k = k + 1;
    }
    proof {
        assert(s@.skip(p as int).subrange(0, ln as int) =~= lit@);
        assert(s@.skip(p as int).skip(ln as int) =~= s@.skip(p + ln));
    }
    Some(p + ln)
}

/// Parse a JSON string at position `p`.
#[verifier::rlimit(100)]
fn d_string(s: &str, p: usize, n: usize) -> (r: Option<(String, usize)>)
    requires
        p <= n,
        n == s@.len(),
    ensures
        match r {
            Some((v, p2)) => p + 2 <= p2 <= n && sp_string(s@.skip(p as int)) == Some(
                (v@, s@.skip(p2 as int)),
            ),
            None => sp_string(s@.skip(p as int)) is None,
        },
{
    if p >= n || s.get_char(p) != '"' {
        proof {
            if p < n {
                assert(s@.skip(p as int)[0] == s@[p as int]);
            }
        }
        return None;
    }
    proof {
        assert(s@.skip(p as int)[0] == s@[p as int]);
        assert(s@.skip(p as int).drop_first() =~= s@.skip(p + 1));
    }
    let ctrl =
        "\u{0}\u{1}\u{2}\u{3}\u{4}\u{5}\u{6}\u{7}\u{8}\u{9}\u{a}\u{b}\u{c}\u{d}\u{e}\u{f}\u{10}\u{11}\u{12}\u{13}\u{14}\u{15}\u{16}\u{17}\u{18}\u{19}\u{1a}\u{1b}\u{1c}\u{1d}\u{1e}\u{1f}";
    proof {
        reveal_strlit(
            "\u{0}\u{1}\u{2}\u{3}\u{4}\u{5}\u{6}\u{7}\u{8}\u{9}\u{a}\u{b}\u{c}\u{d}\u{e}\u{f}\u{10}\u{11}\u{12}\u{13}\u{14}\u{15}\u{16}\u{17}\u{18}\u{19}\u{1a}\u{1b}\u{1c}\u{1d}\u{1e}\u{1f}",
        );
        assert(ctrl@ =~= Seq::new(32, |i: int| i as char));
    }
    let mut out = String::new();
    let mut q: usize = p + 1;
    proof {
        assert(sp_str_body(s@.skip(p + 1)) == opt_prepend(out@, sp_str_body(s@.skip(q as int))));
    }
    while q < n
        invariant
            p + 1 <= q <= n,
            n == s@.len(),
            p < n,
            s@[p as int] == '"',
            ctrl@ =~= Seq::new(32, |i: int| i as char),
            sp_str_body(s@.skip(p + 1)) == opt_prepend(out@, sp_str_body(s@.skip(q as int))),
        decreases n - q,
    {
        proof {
            assert(s@.skip(p as int)[0] == s@[p as int]);
            assert(s@.skip(p as int).drop_first() =~= s@.skip(p + 1));
        }
        let ghost rem = s@.skip(q as int);
        proof {
            assert(rem[0] == s@[q as int]);
            assert(rem.drop_first() =~= s@.skip(q + 1));
        }
        let c = s.get_char(q);
        if c == '"' {
            proof {
                assert(sp_str_body(rem) == Some((Seq::<char>::empty(), s@.skip(q + 1))));
                assert(out@ + Seq::<char>::empty() =~= out@);
                assert(sp_str_body(s@.skip(p + 1)) == Some((out@, s@.skip(q + 1))));
            }
            return Some((out, q + 1));
        } else if c == '\\' {
            if q + 1 >= n {
                proof {
                    assert(rem.len() < 2);
                    assert(sp_str_body(rem) is None);
                }
                return None;
            }
            proof {
                assert(rem[1] == s@[q + 1]);
                assert(rem.skip(2) =~= s@.skip(q + 2));
            }
            let e = s.get_char(q + 1);
            if e == '"' || e == '\\' || e == '/' {
                let ghost prev = out@;
                if e == '"' {
                    proof {
                        reveal_strlit("\"");
                    }
                    out.append("\"");
                    proof {
                        assert("\""@ =~= seq![e]);
                    }
                } else if e == '\\' {
                    proof {
                        reveal_strlit("\\");
                    }
                    out.append("\\");
                    proof {
                        assert("\\"@ =~= seq![e]);
                    }
                } else {
                    proof {
                        reveal_strlit("/");
                    }
                    out.append("/");
                    proof {
                        assert("/"@ =~= seq![e]);
                    }
                }
                proof {
                    assert(out@ == prev + seq![e]);
                    assert(sp_str_body(rem) == opt_prepend(seq![e], sp_str_body(s@.skip(q + 2))));
                    lemma_opt_prepend(prev, seq![e], sp_str_body(s@.skip(q + 2)));
                }
                q = q + 2;
            } else if e == 'b' || e == 'f' || e == 'n' || e == 'r' || e == 't' {
                let code: usize = if e == 'b' {
                    8
                } else if e == 'f' {
                    12
                } else if e == 'n' {
                    10
                } else if e == 'r' {
                    13
                } else {
                    9
                };
                let ghost prev = out@;
                let ghost cc = (code as u32) as char;
                let piece = ctrl.substring_char(code, code + 1);
                proof {
                    assert(ctrl@[code as int] == cc);
                    assert(piece@ =~= seq![cc]);
                }
                out.append(piece);
                proof {
                    assert(out@ == prev + seq![cc]);
                    assert(sp_str_body(rem) == opt_prepend(seq![cc], sp_str_body(s@.skip(q + 2))));
                    lemma_opt_prepend(prev, seq![cc], sp_str_body(s@.skip(q + 2)));
                }
                q = q + 2;
            } else if e == 'u' {
                if n - q < 6 {
                    proof {
                        assert(rem.len() < 6);
                        assert(sp_str_body(rem) is None);
                    }
                    return None;
                }
                proof {
                    assert(rem[2] == s@[q + 2]);
                    assert(rem[3] == s@[q + 3]);
                    assert(rem[4] == s@[q + 4]);
                    assert(rem[5] == s@[q + 5]);
                    assert(rem.skip(6) =~= s@.skip(q + 6));
                }
                let h0 = hex_digit_val(s.get_char(q + 2));
                let h1 = hex_digit_val(s.get_char(q + 3));
                let h2 = hex_digit_val(s.get_char(q + 4));
                let h3 = hex_digit_val(s.get_char(q + 5));
                if h0 < 0 || h1 < 0 || h2 < 0 || h3 < 0 {
                    proof {
                        assert(sp_str_body(rem) is None);
                    }
                    return None;
                }
                let u: u32 = (h0 as u32) * 4096 + (h1 as u32) * 256 + (h2 as u32) * 16 + (
                h3 as u32);
                if u >= 0x20 {
                    proof {
                        assert(sp_str_body(rem) is None);
                    }
                    return None;
                }
                let ghost prev = out@;
                let ghost cc = u as char;
                let piece = ctrl.substring_char(u as usize, u as usize + 1);
                proof {
                    assert(ctrl@[u as int] == cc);
                    assert(piece@ =~= seq![cc]);
                }
                out.append(piece);
                proof {
                    assert(out@ == prev + seq![cc]);
                    assert(sp_str_body(rem) == opt_prepend(seq![cc], sp_str_body(s@.skip(q + 6))));
                    lemma_opt_prepend(prev, seq![cc], sp_str_body(s@.skip(q + 6)));
                }
                q = q + 6;
            } else {
                proof {
                    assert(sp_str_body(rem) is None);
                }
                return None;
            }
        } else if (c as u32) >= 0x20 {
            let ghost prev = out@;
            let piece = s.substring_char(q, q + 1);
            proof {
                assert(piece@ =~= seq![c]);
            }
            out.append(piece);
            proof {
                assert(out@ == prev + seq![c]);
                assert(sp_str_body(rem) == opt_prepend(seq![c], sp_str_body(s@.skip(q + 1))));
                lemma_opt_prepend(prev, seq![c], sp_str_body(s@.skip(q + 1)));
            }
            q = q + 1;
        } else {
            proof {
                assert(sp_str_body(rem) is None);
            }
            return None;
        }
    }
    proof {
        assert(s@.skip(q as int).len() == 0);
        assert(sp_str_body(s@.skip(q as int)) is None);
    }
    None
}

/// Is this an ASCII decimal digit?
fn is_digit_char(c: char) -> (r: bool)
    ensures
        r == is_digit(c),
{
    let u = c as u32;
    0x30 <= u && u <= 0x39
}

/// Parse the version number at position `p`; a value too large for the
/// carrier is reported without its digits.
fn d_version_number(s: &str, p: usize, n: usize) -> (r: Option<(Option<u64>, usize)>)
    requires
        p <= n,
        n == s@.len(),
    ensures
        match r {
            Some((Some(v), p2)) => p <= p2 <= n && sp_number(s@.skip(p as int)) == Some(
                (v as int, s@.skip(p2 as int)),
            ),
            Some((None, p2)) => p <= p2 <= n && (sp_number(s@.skip(p as int)) matches Some(
                (w, rest2),
            ) && w > u64::MAX && rest2 == s@.skip(p2 as int)),
            None => sp_number(s@.skip(p as int)) is None,
        },
{
    if p >= n {
        return None;
    }
    let c0 = s.get_char(p);
    let u0 = c0 as u32;
    proof {
        assert(s@.skip(p as int)[0] == s@[p as int]);
    }
    if !(0x30 <= u0 && u0 <= 0x39) {
        return None;
    }
    let mut acc: u64 = 0;
    let mut gacc = Ghost(0int);
    let mut big = false;
    let mut q: usize = p;
    proof {
        assert(sp_digits_rest(s@.skip(p as int), 0) == sp_digits_rest(s@.skip(q as int), gacc@));
    }
    while q < n && is_digit_char(s.get_char(q))
        invariant
            p <= q <= n,
            n == s@.len(),
            sp_digits_rest(s@.skip(p as int), 0) == sp_digits_rest(s@.skip(q as int), gacc@),
            !big ==> acc as int == gacc@,
            big ==> gacc@ > u64::MAX,
            gacc@ >= 0,
        decreases n - q,
    {
        let ghost rem = s@.skip(q as int);
        proof {
            assert(rem[0] == s@[q as int]);
            assert(rem.drop_first() =~= s@.skip(q + 1));
        }
        let cq = s.get_char(q);
        let d = (cq as u32 - 0x30) as u64;
        proof {
            assert(sp_digits_rest(rem, gacc@) == sp_digits_rest(s@.skip(q + 1), gacc@ * 10 + (
            cq as u32 - 0x30)));
        }
        if !big {
            if acc > (u64::MAX - d) / 10 {
                big = true;
                proof {
                    let x = (u64::MAX - d) / 10;
                    assert(10 * x + ((u64::MAX - d) % 10) == u64::MAX - d);
                    assert((u64::MAX - d) % 10 < 10);
                    assert(acc >= x + 1);
                    assert(10 * acc >= 10 * x + 10) by (nonlinear_arith)
                        requires
                            acc >= x + 1,
                    ;
                    assert(10 * (acc as int) + d > u64::MAX);
                    assert(gacc@ * 10 + d > u64::MAX);
                }
            } else {
                assert(10 * acc <= u64::MAX - d) by {
                    assert(acc <= (u64::MAX - d) / 10);
                    assert(10 * ((u64::MAX - d) / 10) <= u64::MAX - d);
                    assert(10 * acc <= 10 * ((u64::MAX - d) / 10)) by (nonlinear_arith)
                        requires
                            acc <= (u64::MAX - d) / 10,
                    ;
                };
                acc = acc * 10 + d;
            }
        } else {
            proof {
                assert(gacc@ * 10 >= gacc@) by (nonlinear_arith)
                    requires
                        gacc@ >= 0,
                ;
            }
        }
        proof {
            gacc@ = gacc@ * 10 + (cq as u32 - 0x30);
        }
        q = q + 1;
    }
    proof {
        let rem = s@.skip(q as int);
        if q < n {
            assert(rem[0] == s@[q as int]);
        }
        assert(sp_digits_rest(rem, gacc@) == (gacc@, rem));
        assert(sp_number(s@.skip(p as int)) == Some((gacc@, s@.skip(q as int))));
    }
    if big {
        Some((None, q))
    } else {
        Some((Some(acc), q))
    }
}

/// Parse a timestamp string at position `p`.
fn d_instant(s: &str, p: usize, n: usize) -> (r: Option<(Instant, usize)>)
    requires
        p <= n,
        n == s@.len(),
    ensures
        match r {
            Some((v, p2)) => p <= p2 <= n && instant_wf(v@) && sp_instant(s@.skip(p as int))
                == Some((v@, s@.skip(p2 as int))),
            None => sp_instant(s@.skip(p as int)) is None,
        },
{
    match d_string(s, p, n) {
        Some((txt, p2)) => match Instant::parse(txt.as_str()) {
            Some(at) => Some((at, p2)),
            None => None,
        },
        None => None,
    }
}

/// Parse `null` or a timestamp string at position `p`.
fn d_opt_instant(s: &str, p: usize, n: usize) -> (r: Option<(Option<Instant>, usize)>)
    requires
        p <= n,
        n == s@.len(),
    ensures
        match r {
            Some((v, p2)) => p <= p2 <= n && sp_opt_instant(s@.skip(p as int)) == Some(
                (
                    match v {
                        Some(at) => Some(at@),
                        None => None,
                    },
                    s@.skip(p2 as int),
                ),
            ) && (v matches Some(at) ==> instant_wf(at@)),
            None => sp_opt_instant(s@.skip(p as int)) is None,
        },
{
    proof {
        if p < n {
            assert(s@.skip(p as int)[0] == s@[p as int]);
        }
    }
    if p < n && s.get_char(p) == 'n' {
        proof {
            reveal_strlit("null");
        }
        match d_lit(s, p, "null", n) {
            Some(p2) => {
                proof {
                    assert("null"@ =~= seq!['n', 'u', 'l', 'l']);
                }
                Some((None, p2))
            },
            None => {
                proof {
                    assert("null"@ =~= seq!['n', 'u', 'l', 'l']);
                }
                None
            },
        }
    } else {
        match d_instant(s, p, n) {
            Some((at, p2)) => Some((Some(at), p2)),
            None => {
                proof {
                    if p < n && s@[p as int] == 'n' {
                        assert(false);
                    }
                }
                None
            },
        }
    }
}

/// Parse a status at position `p`.
fn d_status(s: &str, p: usize, n: usize) -> (r: Option<(Status, usize)>)
    requires
        p <= n,
        n == s@.len(),
    ensures
        match r {
            Some((v, p2)) => p <= p2 <= n && sp_status(s@.skip(p as int)) == Some(
                (v@, s@.skip(p2 as int)),
            ) && (v matches Status::Done { completed_at } ==> instant_wf(completed_at@)),
            None => sp_status(s@.skip(p as int)) is None,
        },
{
    proof {
        if p < n {
            assert(s@.skip(p as int)[0] == s@[p as int]);
        }
        reveal_strlit("{\"done\":");
        reveal_strlit("}");
        reveal_strlit("\"open\"");
        assert("{\"done\":"@ =~= seq!['{'] + enc_key(seq!['d', 'o', 'n', 'e']));
        assert("}"@ =~= seq!['}']);
        assert("\"open\""@ =~= seq!['"', 'o', 'p', 'e', 'n', '"']);
    }
    if p < n && s.get_char(p) == '{' {
        match d_lit(s, p, "{\"done\":", n) {
            Some(p1) => match d_instant(s, p1, n) {
                Some((at, p2)) => match d_lit(s, p2, "}", n) {
                    Some(p3) => Some((Status::Done { completed_at: at }, p3)),
                    None => None,
                },
                None => None,
            },
            None => None,
        }
    } else {
        match d_lit(s, p, "\"open\"", n) {
            Some(p2) => Some((Status::Open, p2)),
            None => None,
        }
    }
}

/// Parse `null` or a JSON string at position `p`.
fn d_opt_string(s: &str, p: usize, n: usize) -> (r: Option<(Option<String>, usize)>)
    requires
        p <= n,
        n == s@.len(),
    ensures
        match r {
            Some((v, p2)) => p <= p2 <= n && sp_opt_string(s@.skip(p as int)) == Some(
                (
                    match v {
                        Some(ref t) => Some(t@),
                        None => None,
                    },
                    s@.skip(p2 as int),
                ),
            ),
            None => sp_opt_string(s@.skip(p as int)) is None,
        },
{
    proof {
        if p < n {
            assert(s@.skip(p as int)[0] == s@[p as int]);
        }
        reveal_strlit("null");
        assert("null"@ =~= seq!['n', 'u', 'l', 'l']);
    }
    if p < n && s.get_char(p) == 'n' {
        match d_lit(s, p, "null", n) {
            Some(p2) => Some((None, p2)),
            None => None,
        }
    } else {
        match d_string(s, p, n) {
            Some((t, p2)) => Some((Some(t), p2)),
            None => {
                proof {
                    if p < n && s@[p as int] == 'n' {
                        assert(false);
                    }
                }
                None
            },
        }
    }
}

/// Prepend already-read tag texts to a tag-array parse result.
pub open spec fn opt_prepend_tags(
    pre: Seq<Seq<char>>,
    o: Option<(Seq<Seq<char>>, Seq<char>)>,
) -> Option<(Seq<Seq<char>>, Seq<char>)> {
    match o {
        Some((ts, r)) => Some((pre + ts, r)),
        None => None,
    }
}

/// Parse a tag array at position `p`.
#[verifier::rlimit(100)]
fn d_tags(s: &str, p: usize, n: usize) -> (r: Option<(Vec<crate::values::Tag>, usize)>)
    requires
        p <= n,
        n == s@.len(),
    ensures
        match r {
            Some((v, p2)) => p <= p2 <= n && sp_tags(s@.skip(p as int)) == Some(
                (crate::tags::tags_view(v@), s@.skip(p2 as int)),
            ) && crate::tags::tags_list_wf(crate::tags::tags_view(v@)),
            None => sp_tags(s@.skip(p as int)) is None,
        },
{
    proof {
        if p < n {
            assert(s@.skip(p as int)[0] == s@[p as int]);
        }
        if p + 1 < n {
            assert(s@.skip(p as int)[1] == s@[p + 1]);
        }
    }
    if p >= n || s.get_char(p) != '[' {
        return None;
    }
    if p + 1 < n && s.get_char(p + 1) == ']' {
        let out: Vec<crate::values::Tag> = Vec::new();
        proof {
            assert(s@.skip(p as int).skip(2) =~= s@.skip(p + 2));
            assert(crate::tags::tags_view(out@) =~= Seq::<Seq<char>>::empty());
        }
        return Some((out, p + 2));
    }
    proof {
        assert(s@.skip(p as int).drop_first() =~= s@.skip(p + 1));
    }
    let mut out: Vec<crate::values::Tag> = Vec::new();
    let mut q: usize = p + 1;
    proof {
        assert(sp_tags_items(s@.skip(p + 1)) == opt_prepend_tags(
            crate::tags::tags_view(out@),
            sp_tags_items(s@.skip(q as int)),
        ));
    }
    loop
        invariant
            p + 1 <= q <= n,
            n == s@.len(),
            p < n,
            s@[p as int] == '[',
            !(p + 1 < n && s@[p + 1] == ']'),
            sp_tags_items(s@.skip(p + 1)) == opt_prepend_tags(
                crate::tags::tags_view(out@),
                sp_tags_items(s@.skip(q as int)),
            ),
            forall|k: int|
                0 <= k < out@.len() ==> crate::values::tag_text_wf(
                    (#[trigger] out@[k])@,
                ),
        decreases n - q,
    {
        proof {
            assert(s@.skip(p as int)[0] == s@[p as int]);
            assert(s@.skip(p as int).drop_first() =~= s@.skip(p + 1));
            if s@.skip(p as int).len() >= 2 {
                assert(s@.skip(p as int)[1] == s@[p + 1]);
            }
        }
        let ghost rem = s@.skip(q as int);
        let txt_opt = d_string(s, q, n);
        if txt_opt.is_none() {
            proof {
                assert(sp_tags_items(rem) is None);
            }
            return None;
        }
        let (txt, q2) = txt_opt.unwrap();
        let parsed = crate::values::Tag::parse(txt.as_str());
        let tag = match parsed {
            Ok(t) => t,
            Err(_) => {
                proof {
                    if tag_text_wf(txt@) {
                        crate::values::lemma_tag_text_id(txt@);
                    }
                    assert(!tag_text_wf(txt@));
                    assert(sp_tags_items(rem) is None);
                }
                return None;
            },
        };
        if !crate::text::str_eq(tag.as_str(), txt.as_str()) {
            proof {
                if tag_text_wf(txt@) {
                    crate::values::lemma_tag_text_id(txt@);
                }
                assert(!tag_text_wf(txt@));
                assert(sp_tags_items(rem) is None);
            }
            return None;
        }
        proof {
            assert(tag@ == txt@);
            assert(tag_text_wf(txt@));
        }
        if q2 >= n {
            proof {
                assert(s@.skip(q2 as int).len() == 0);
                assert(sp_tags_items(rem) is None);
            }
            return None;
        }
        proof {
            assert(s@.skip(q2 as int)[0] == s@[q2 as int]);
            assert(s@.skip(q2 as int).drop_first() =~= s@.skip(q2 + 1));
            assert(s@.skip(q2 as int).len() < rem.len());
        }
        let c2 = s.get_char(q2);
        if c2 == ']' {
            let ghost prev = crate::tags::tags_view(out@);
            out.push(tag);
            proof {
                assert(crate::tags::tags_view(out@) =~= prev.push(txt@));
                assert(sp_tags_items(rem) == Some((seq![txt@], s@.skip(q2 + 1))));
                assert(prev + seq![txt@] =~= prev.push(txt@));
                assert(sp_tags_items(s@.skip(p + 1)) == Some(
                    (crate::tags::tags_view(out@), s@.skip(q2 + 1)),
                ));
            }
            // check sortedness, mirroring the spec's final condition
            let m = out.len();
            let mut k: usize = 0;
            while k < m - 1
                invariant
                    0 <= k <= m,
                    m == out@.len(),
                    m >= 1,
                    n == s@.len(),
                    p < n,
                    q2 + 1 <= n,
                    s@[p as int] == '[',
                    !(p + 1 < n && s@[p + 1] == ']'),
                    sp_tags_items(s@.skip(p + 1)) == Some(
                        (crate::tags::tags_view(out@), s@.skip(q2 + 1)),
                    ),
                    forall|j: int|
                        0 <= j < k ==> crate::tags::lex_lt(
                            #[trigger] crate::tags::tags_view(out@)[j],
                            crate::tags::tags_view(out@)[j + 1],
                        ),
                decreases m - k,
            {
                proof {
                    assert(crate::tags::tags_view(out@)[k as int] == out@[k as int]@);
                    assert(crate::tags::tags_view(out@)[k + 1] == out@[k + 1]@);
                }
                if crate::tags::lex_cmp(out[k].as_str(), out[k + 1].as_str()) != 0 {
                    proof {
                        assert(!crate::tags::lex_lt(
                            crate::tags::tags_view(out@)[k as int],
                            crate::tags::tags_view(out@)[k + 1],
                        )) by {
                            crate::tags::lemma_lex_irrefl(out@[k as int]@);
                            crate::tags::lemma_lex_asym(out@[k as int]@, out@[k + 1]@);
                        }
                        assert(!tags_sorted(crate::tags::tags_view(out@)));
                        assert(s@.skip(p as int)[0] == s@[p as int]);
                        assert(s@.skip(p as int).drop_first() =~= s@.skip(p + 1));
                        if s@.skip(p as int).len() >= 2 {
                            assert(s@.skip(p as int)[1] == s@[p + 1]);
                        }
                        assert(sp_tags(s@.skip(p as int)) is None);
                    }
                    return None;
                }
                k = k + 1;
            }
            proof {
                assert(tags_sorted(crate::tags::tags_view(out@)));
                assert(crate::tags::tags_list_wf(crate::tags::tags_view(out@))) by {
                    assert(forall|j: int|
                        0 <= j < crate::tags::tags_view(out@).len()
                            ==> crate::values::tag_text_wf(
                            #[trigger] crate::tags::tags_view(out@)[j],
                        ));
                }
            }
            return Some((out, q2 + 1));
        } else if c2 == ',' {
            let ghost prev = crate::tags::tags_view(out@);
            out.push(tag);
            proof {
                assert(crate::tags::tags_view(out@) =~= prev.push(txt@));
                assert(sp_tags_items(rem) == opt_prepend_tags(
                    seq![txt@],
                    sp_tags_items(s@.skip(q2 + 1)),
                ));
                lemma_opt_prepend_tags(prev, seq![txt@], sp_tags_items(s@.skip(q2 + 1)));
                assert(prev + seq![txt@] =~= prev.push(txt@));
            }
            q = q2 + 1;
        } else {
            proof {
                assert(sp_tags_items(rem) is None);
            }
            return None;
        }
    }
}

proof fn lemma_opt_prepend_tags(
    a: Seq<Seq<char>>,
    b: Seq<Seq<char>>,
    o: Option<(Seq<Seq<char>>, Seq<char>)>,
)
    ensures
        opt_prepend_tags(a, opt_prepend_tags(b, o)) == opt_prepend_tags(a + b, o),
{
    match o {
        Some((ts, r)) => {
            assert(a + (b + ts) =~= (a + b) + ts);
        },
        None => {},
    }
}

/// Parse the second half of one serialized task at position `p`, given
/// the already-parsed first fields.
#[verifier::rlimit(100)]
fn d_todo_tail(
    s: &str,
    p: usize,
    n: usize,
    id: crate::id::TodoId,
    title: crate::values::Title,
    status: Status,
    priority: Priority,
) -> (r: Option<(crate::todo::Todo, usize)>)
    requires
        p <= n,
        n == s@.len(),
        title.wf(),
        match status {
            Status::Done { ref completed_at } => instant_wf(completed_at@),
            Status::Open => true,
        },
    ensures
        match r {
            Some((todo, p2)) => p <= p2 <= n && sp_todo_tail(
                s@.skip(p as int),
                id.spec_value(),
                title@,
                status@,
                priority,
            ) == Some((todo@, s@.skip(p2 as int))) && todo.wf(),
            None => sp_todo_tail(s@.skip(p as int), id.spec_value(), title@, status@, priority)
                is None,
        },
{
    proof {
        reveal(sp_todo_tail);
        reveal_strlit(",\"project\":");
        reveal_strlit(",\"tags\":");
        reveal_strlit(",\"due\":");
        reveal_strlit(",\"notes\":");
        reveal_strlit(",\"created_at\":");
        reveal_strlit(",\"updated_at\":");
        reveal_strlit("}");
        assert(",\"project\":"@ =~= seq![','] + enc_key(seq!['p', 'r', 'o', 'j', 'e', 'c', 't']));
        assert(",\"tags\":"@ =~= seq![','] + enc_key(seq!['t', 'a', 'g', 's']));
        assert(",\"due\":"@ =~= seq![','] + enc_key(seq!['d', 'u', 'e']));
        assert(",\"notes\":"@ =~= seq![','] + enc_key(seq!['n', 'o', 't', 'e', 's']));
        assert(",\"created_at\":"@ =~= seq![','] + enc_key(
            seq!['c', 'r', 'e', 'a', 't', 'e', 'd', '_', 'a', 't'],
        ));
        assert(",\"updated_at\":"@ =~= seq![','] + enc_key(
            seq!['u', 'p', 'd', 'a', 't', 'e', 'd', '_', 'a', 't'],
        ));
        assert("}"@ =~= seq!['}']);
    }
    let p1 = match d_lit(s, p, ",\"project\":", n) {
        Some(x) => x,
        None => {
            return None;
        },
    };
    let (ptxt, p2) = match d_string(s, p1, n) {
        Some(x) => x,
        None => {
            return None;
        },
    };
    let project = match crate::values::ProjectName::parse(ptxt.as_str()) {
        Ok(v) => v,
        Err(_) => {
            return None;
        },
    };
    if !crate::text::str_eq(project.as_str(), ptxt.as_str()) {
        proof {
            assert(!nonempty_trimmed(ptxt@));
        }
        return None;
    }
    proof {
        assert(project@ == ptxt@ && nonempty_trimmed(ptxt@));
    }
    let p3 = match d_lit(s, p2, ",\"tags\":", n) {
        Some(x) => x,
        None => {
            return None;
        },
    };
    let (tags, p4) = match d_tags(s, p3, n) {
        Some(x) => x,
        None => {
            return None;
        },
    };
    let p5 = match d_lit(s, p4, ",\"due\":", n) {
        Some(x) => x,
        None => {
            return None;
        },
    };
    let (due_opt, p6) = match d_opt_instant(s, p5, n) {
        Some(x) => x,
        None => {
            return None;
        },
    };
    let due = match due_opt {
        Some(at) => Some(crate::values::DueAt::from_dt(at)),
        None => None,
    };
    let p7 = match d_lit(s, p6, ",\"notes\":", n) {
        Some(x) => x,
        None => {
            return None;
        },
    };
    let (notes_opt, p8) = match d_opt_string(s, p7, n) {
        Some(x) => x,
        None => {
            return None;
        },
    };
    let notes = match notes_opt {
        Some(ntxt) => {
            let nv = match crate::values::Notes::parse(ntxt.as_str()) {
                Ok(v) => v,
                Err(_) => {
                    return None;
                },
            };
            if !crate::text::str_eq(nv.as_str(), ntxt.as_str()) {
                proof {
                    assert(!notes_text_wf(ntxt@));
                }
                return None;
            }
            proof {
                assert(nv@ == ntxt@ && notes_text_wf(ntxt@));
            }
            Some(nv)
        },
        None => None,
    };
    let p9 = match d_lit(s, p8, ",\"created_at\":", n) {
        Some(x) => x,
        None => {
            return None;
        },
    };
    let (created_at, p10) = match d_instant(s, p9, n) {
        Some(x) => x,
        None => {
            return None;
        },
    };
    let p11 = match d_lit(s, p10, ",\"updated_at\":", n) {
        Some(x) => x,
        None => {
            return None;
        },
    };
    let (updated_at, p12) = match d_instant(s, p11, n) {
        Some(x) => x,
        None => {
            return None;
        },
    };
    if updated_at.unix_nanos() < created_at.unix_nanos() {
        return None;
    }
    let p13 = match d_lit(s, p12, "}", n) {
        Some(x) => x,
        None => {
            return None;
        },
    };
    let todo = crate::todo::Todo {
        id,
        title,
        notes,
        project,
        tags,
        status,
        priority,
        due,
        created_at,
        updated_at,
    };
    Some((todo, p13))
}

/// Parse one serialized task at position `p`.
#[verifier::rlimit(100)]
fn d_todo(s: &str, p: usize, n: usize) -> (r: Option<(crate::todo::Todo, usize)>)
    requires
        p <= n,
        n == s@.len(),
    ensures
        match r {
            Some((todo, p2)) => p < p2 <= n && sp_todo(s@.skip(p as int)) == Some(
                (todo@, s@.skip(p2 as int)),
            ) && todo.wf(),
            None => sp_todo(s@.skip(p as int)) is None,
        },
{
    proof {
        reveal(sp_todo);
        reveal_strlit("{\"id\":");
        reveal_strlit(",\"title\":");
        reveal_strlit(",\"status\":");
        reveal_strlit(",\"priority\":");
        assert("{\"id\":"@ =~= seq!['{'] + enc_key(seq!['i', 'd']));
        assert(",\"title\":"@ =~= seq![','] + enc_key(seq!['t', 'i', 't', 'l', 'e']));
        assert(",\"status\":"@ =~= seq![','] + enc_key(seq!['s', 't', 'a', 't', 'u', 's']));
        assert(",\"priority\":"@ =~= seq![','] + enc_key(
            seq!['p', 'r', 'i', 'o', 'r', 'i', 't', 'y'],
        ));
    }
    let p1 = match d_lit(s, p, "{\"id\":", n) {
        Some(x) => x,
        None => {
            return None;
        },
    };
    let (idt, p2) = match d_string(s, p1, n) {
        Some(x) => x,
        None => {
            return None;
        },
    };
    let id = match crate::id::TodoId::parse_uuid(idt.as_str()) {
        Some(v) => v,
        None => {
            return None;
        },
    };
    let p3 = match d_lit(s, p2, ",\"title\":", n) {
        Some(x) => x,
        None => {
            return None;
        },
    };
    let (ttxt, p4) = match d_string(s, p3, n) {
        Some(x) => x,
        None => {
            return None;
        },
    };
    let title = match crate::values::Title::parse(ttxt.as_str()) {
        Ok(v) => v,
        Err(_) => {
            return None;
        },
    };
    if !crate::text::str_eq(title.as_str(), ttxt.as_str()) {
        proof {
            assert(!nonempty_trimmed(ttxt@));
        }
        return None;
    }
    proof {
        assert(title@ == ttxt@ && nonempty_trimmed(ttxt@));
    }
    let p5 = match d_lit(s, p4, ",\"status\":", n) {
        Some(x) => x,
        None => {
            return None;
        },
    };
    let (status, p6) = match d_status(s, p5, n) {
        Some(x) => x,
        None => {
            return None;
        },
    };
    let p7 = match d_lit(s, p6, ",\"priority\":", n) {
        Some(x) => x,
        None => {
            return None;
        },
    };
    let (prtxt, p8) = match d_string(s, p7, n) {
        Some(x) => x,
        None => {
            return None;
        },
    };
    let priority = match crate::values::Priority::parse(prtxt.as_str()) {
        Ok(v) => v,
        Err(_) => {
            return None;
        },
    };
    match d_todo_tail(s, p8, n, id, title, status, priority) {
        Some((todo, p9)) => Some((todo, p9)),
        None => None,
    }
}

/// Prepend already-read tasks to a task-array parse result.
pub open spec fn opt_prepend_todos(pre: Seq<TodoV>, o: Option<(Seq<TodoV>, Seq<char>)>) -> Option<
    (Seq<TodoV>, Seq<char>),
> {
    match o {
        Some((ts, r)) => Some((pre + ts, r)),
        None => None,
    }
}

proof fn lemma_opt_prepend_todos(a: Seq<TodoV>, b: Seq<TodoV>, o: Option<(Seq<TodoV>, Seq<char>)>)
    ensures
        opt_prepend_todos(a, opt_prepend_todos(b, o)) == opt_prepend_todos(a + b, o),
{
    match o {
        Some((ts, r)) => {
            assert(a + (b + ts) =~= (a + b) + ts);
        },
        None => {},
    }
}

/// Parse the items of a non-empty task array at position `p`.
#[verifier::rlimit(100)]
fn d_todos_items(s: &str, p: usize, n: usize) -> (r: Option<(Vec<crate::todo::Todo>, usize)>)
    requires
        p <= n,
        n == s@.len(),
    ensures
        match r {
            Some((v, p2)) => p <= p2 <= n && sp_todos_items(s@.skip(p as int)) == Some(
                (crate::repo::todos_views(v@), s@.skip(p2 as int)),
            ) && crate::repo::all_wf(crate::repo::todos_views(v@)),
            None => sp_todos_items(s@.skip(p as int)) is None,
        },
{
    let mut out: Vec<crate::todo::Todo> = Vec::new();
    let mut q: usize = p;
    proof {
        assert(sp_todos_items(s@.skip(p as int)) == opt_prepend_todos(
            crate::repo::todos_views(out@),
            sp_todos_items(s@.skip(q as int)),
        ));
    }
    loop
        invariant
            p <= q <= n,
            n == s@.len(),
            sp_todos_items(s@.skip(p as int)) == opt_prepend_todos(
                crate::repo::todos_views(out@),
                sp_todos_items(s@.skip(q as int)),
            ),
            crate::repo::all_wf(crate::repo::todos_views(out@)),
        decreases n - q,
    {
        let ghost rem = s@.skip(q as int);
        let item = d_todo(s, q, n);
        if item.is_none() {
            proof {
                assert(sp_todos_items(rem) is None);
            }
            return None;
        }
        let (todo, q2) = item.unwrap();
        if q2 >= n {
            proof {
                assert(s@.skip(q2 as int).len() == 0);
                assert(sp_todos_items(rem) is None);
            }
            return None;
        }
        proof {
            assert(s@.skip(q2 as int)[0] == s@[q2 as int]);
            assert(s@.skip(q2 as int).drop_first() =~= s@.skip(q2 + 1));
            assert(s@.skip(q2 as int).len() < rem.len());
        }
        let c2 = s.get_char(q2);
        if c2 == ']' {
            let ghost prev = crate::repo::todos_views(out@);
            out.push(todo);
            proof {
                assert(crate::repo::todos_views(out@) =~= prev.push(todo@));
                assert(sp_todos_items(rem) == Some((seq![todo@], s@.skip(q2 + 1))));
                assert(prev + seq![todo@] =~= prev.push(todo@));
                assert(sp_todos_items(s@.skip(p as int)) == Some(
                    (crate::repo::todos_views(out@), s@.skip(q2 + 1)),
                ));
                assert(crate::repo::all_wf(crate::repo::todos_views(out@)));
            }
            return Some((out, q2 + 1));
        } else if c2 == ',' {
            let ghost prev = crate::repo::todos_views(out@);
            out.push(todo);
            proof {
                assert(crate::repo::todos_views(out@) =~= prev.push(todo@));
                assert(sp_todos_items(rem) == opt_prepend_todos(
                    seq![todo@],
                    sp_todos_items(s@.skip(q2 + 1)),
                ));
                lemma_opt_prepend_todos(prev, seq![todo@], sp_todos_items(s@.skip(q2 + 1)));
                assert(prev + seq![todo@] =~= prev.push(todo@));
                assert(crate::repo::all_wf(crate::repo::todos_views(out@)));
            }
            q = q2 + 1;
        } else {
            proof {
                assert(sp_todos_items(rem) is None);
            }
            return None;
        }
    }
}

/// Why a document could not be loaded.
#[derive(Debug, Clone, Copy, PartialEq, Eq, Structural)]
pub enum StoreError {
    /// The text is not a canonical current-version document.
    Malformed,
    /// The document names a schema version this reader does not know.
    UnsupportedSchemaVersion { version: u64 },
}

impl StoreError {
    /// A human-readable description of the failure.
    pub fn message(&self) -> String
    {
        match self {
            StoreError::Malformed => "failed parsing db JSON".to_owned(),
            StoreError::UnsupportedSchemaVersion { version: _ } =>
                "unsupported schema_version (supported: 1)".to_owned(),
        }
    }
}

/// Load any supported document version and return the task collection it
/// holds: the version field is read first and dispatched on; only
/// version 1 is recognized, and an unrecognized version is reported as
/// such, never silently coerced.
#[verifier::rlimit(100)]
pub fn load_any(text: &str) -> (r: Result<Vec<crate::todo::Todo>, StoreError>)
    ensures
        (r matches Ok(ts) ==> sp_doc(text@) == Some(crate::repo::todos_views(ts@))
            && crate::repo::all_wf(crate::repo::todos_views(ts@))),
        (sp_doc(text@) is Some ==> r is Ok),
        (r matches Err(e) ==> sp_doc(text@) is None),
        (r matches Err(StoreError::UnsupportedSchemaVersion { version }) ==> sp_doc_version(text@)
            == Some(version as int) && version != 1),
        (forall|v: int|
            (sp_doc_version(text@) == Some(v) && v != 1 && 0 <= v <= u64::MAX) ==> (r matches Err(
                e,
            ) && e == (StoreError::UnsupportedSchemaVersion { version: v as u64 }))),
{
    let n = text.unicode_len();
    proof {
        reveal_strlit("{\"schema_version\":");
        reveal_strlit(",\"todos\":[");
        assert("{\"schema_version\":"@ =~= version_prefix());
        assert(",\"todos\":["@ =~= todos_prefix());
        assert(text@.skip(0) =~= text@);
    }
    let p1 = match d_lit(text, 0, "{\"schema_version\":", n) {
        Some(x) => x,
        None => {
            return Err(StoreError::Malformed);
        },
    };
    let (vnum, p2) = match d_version_number(text, p1, n) {
        Some(x) => x,
        None => {
            return Err(StoreError::Malformed);
        },
    };
    let v = match vnum {
        Some(v) => v,
        None => {
            return Err(StoreError::Malformed);
        },
    };
    if v != 1 {
        return Err(StoreError::UnsupportedSchemaVersion { version: v });
    }
    let p3 = match d_lit(text, p2, ",\"todos\":[", n) {
        Some(x) => x,
        None => {
            return Err(StoreError::Malformed);
        },
    };
    proof {
        if p3 < n {
            assert(text@.skip(p3 as int)[0] == text@[p3 as int]);
        }
        if p3 + 1 < n {
            assert(text@.skip(p3 as int)[1] == text@[p3 + 1]);
        }
    }
    if p3 < n && n - p3 >= 2 && text.get_char(p3) == ']' && text.get_char(p3 + 1) == '}' {
        if n - p3 == 2 {
            let out: Vec<crate::todo::Todo> = Vec::new();
            proof {
                assert(crate::repo::todos_views(out@) =~= Seq::<TodoV>::empty());
                assert(sp_doc(text@) == Some(Seq::<TodoV>::empty()));
            }
            return Ok(out);
        } else {
            return Err(StoreError::Malformed);
        }
    }
    let (out, p4) = match d_todos_items(text, p3, n) {
        Some(x) => x,
        None => {
            return Err(StoreError::Malformed);
        },
    };
    proof {
        if p4 < n {
            assert(text@.skip(p4 as int)[0] == text@[p4 as int]);
        }
    }
    if p4 < n && p4 + 1 == n && text.get_char(p4) == '}' {
        proof {
            assert(text@.skip(p4 as int) =~= seq!['}']);
        }
        Ok(out)
    } else {
        proof {
            assert(text@.skip(p4 as int) != seq!['}']) by {
                if p4 >= n {
                    assert(text@.skip(p4 as int).len() == 0);
                } else if p4 + 1 < n {
                    assert(text@.skip(p4 as int).len() > 1);
                } else {
                    assert(text@.skip(p4 as int)[0] != '}');
                }
            }
        }
        Err(StoreError::Malformed)
    }
}

/// The current on-disk document shape: a version tag and the tasks.
pub struct DbFileV1 {
    pub schema_version: u32,
    pub todos: Vec<crate::todo::Todo>,
}

impl DbFileV1 {
    /// An empty current-version document.
    pub fn empty() -> (r: Self)
        ensures
            r.schema_version == CURRENT_SCHEMA_VERSION,
            r.todos@.len() == 0,
    {
        DbFileV1 { schema_version: CURRENT_SCHEMA_VERSION, todos: Vec::new() }
    }
}

// ---------------------------------------------------------------------
// Reading back what the writer wrote.
// ---------------------------------------------------------------------
proof fn lemma_rt_lit(lit: Seq<char>, rest: Seq<char>)
    ensures
        sp_lit(lit + rest, lit) == Some(rest),
{
    let s = lit + rest;
    assert(s.subrange(0, lit.len() as int) =~= lit);
    assert(s.skip(lit.len() as int) =~= rest);
}

proof fn lemma_rt_str_body(t: Seq<char>, rest: Seq<char>)
    ensures
        sp_str_body(enc_str_body(t) + seq!['"'] + rest) == Some((t, rest)),
    decreases t.len(),
{
    reveal_with_fuel(sp_str_body, 2);
    reveal_with_fuel(enc_str_body, 2);
    let s = enc_str_body(t) + seq!['"'] + rest;
    if t.len() == 0 {
        assert(s =~= seq!['"'] + rest);
        assert(s[0] == '"');
        assert(s.drop_first() =~= rest);
    } else {
        let c = t[0];
        let t2 = t.drop_first();
        lemma_rt_str_body(t2, rest);
        let b = enc_str_body(t2) + seq!['"'] + rest;
        assert(enc_str_body(t) == esc_char(c) + enc_str_body(t2));
        assert(s =~= esc_char(c) + b);
        if c == '"' {
            assert(esc_char(c) =~= seq!['\\', '"']);
            assert(s[0] == '\\' && s[1] == '"');
            assert(s.len() >= 2);
            assert(s.skip(2) =~= b);
            assert(sp_str_body(s) == Some((seq![c] + t2, rest)));
            assert(seq![c] + t2 =~= t);
        } else if c == '\\' {
            assert(esc_char(c) =~= seq!['\\', '\\']);
            assert(s[0] == '\\' && s[1] == '\\');
            assert(s.skip(2) =~= b);
            assert(sp_str_body(s) == Some((seq![c] + t2, rest)));
            assert(seq![c] + t2 =~= t);
        } else if (c as u32) < 0x20 {
            let hi = (c as u32 / 16) as int;
            let lo = (c as u32 % 16) as int;
            assert(esc_char(c) =~= seq![
                '\\',
                'u',
                '0',
                '0',
                hex_digit_char(hi),
                hex_digit_char(lo),
            ]);
            assert(s[0] == '\\' && s[1] == 'u');
            assert(s[2] == '0' && s[3] == '0');
            assert(s[4] == hex_digit_char(hi) && s[5] == hex_digit_char(lo));
            assert(s.len() >= 6);
            assert(hex_val('0') == 0);
            assert(0 <= hi < 16 && 0 <= lo < 16);
            assert(hex_val(hex_digit_char(hi)) == hi);
            assert(hex_val(hex_digit_char(lo)) == lo);
            let u = hex_val(s[2]) * 4096 + hex_val(s[3]) * 256 + hex_val(s[4]) * 16 + hex_val(
                s[5],
            );
            assert(u == hi * 16 + lo);
            assert(u == c as u32) by {
                assert(16 * ((c as u32) / 16) + ((c as u32) % 16) == c as u32);
            }
            assert(u < 0x20);
            assert(s.skip(6) =~= b);
            vstd::utf8::char_u32_cast(c, c as u32);
            assert((u as char) == c);
            assert(sp_str_body(s) == Some((seq![c] + t2, rest)));
            assert(seq![c] + t2 =~= t);
        } else {
            assert(esc_char(c) =~= seq![c]);
            assert(s[0] == c);
            assert(c != '"' && c != '\\' && (c as u32) >= 0x20);
            assert(s.drop_first() =~= b);
            assert(sp_str_body(s) == Some((seq![c] + t2, rest)));
            assert(seq![c] + t2 =~= t);
        }
    }
}

proof fn lemma_rt_string(t: Seq<char>, rest: Seq<char>)
    ensures
        sp_string(enc_string(t) + rest) == Some((t, rest)),
{
    let s = enc_string(t) + rest;
    assert(s[0] == '"');
    assert(s.len() > 0);
    assert(s.drop_first() =~= enc_str_body(t) + seq!['"'] + rest);
    lemma_rt_str_body(t, rest);
}

proof fn lemma_rt_instant(v: InstantV, rest: Seq<char>)
    requires
        instant_wf(v),
    ensures
        sp_instant(enc_string(v.text) + rest) == Some((v, rest)),
{
    lemma_rt_string(v.text, rest);
    assert(rfc3339_instant(v.text) == Some(v.nanos));
}

proof fn lemma_rt_opt_string(t: Option<Seq<char>>, rest: Seq<char>)
    ensures
        sp_opt_string(enc_opt_string(t) + rest) == Some((t, rest)),
{
    match t {
        Some(x) => {
            let s = enc_string(x) + rest;
            assert(s[0] == '"');
            assert(s[0] != 'n');
            lemma_rt_string(x, rest);
        },
        None => {
            let s = seq!['n', 'u', 'l', 'l'] + rest;
            assert(s[0] == 'n');
            lemma_rt_lit(seq!['n', 'u', 'l', 'l'], rest);
        },
    }
}

proof fn lemma_rt_opt_instant(d: Option<InstantV>, rest: Seq<char>)
    requires
        match d {
            Some(v) => instant_wf(v),
            None => true,
        },
    ensures
        sp_opt_instant(
            enc_opt_string(
                match d {
                    Some(v) => Some(v.text),
                    None => None,
                },
            ) + rest,
        ) == Some((d, rest)),
{
    match d {
        Some(v) => {
            let s = enc_string(v.text) + rest;
            assert(s[0] == '"');
            assert(s[0] != 'n');
            lemma_rt_instant(v, rest);
        },
        None => {
            let s = seq!['n', 'u', 'l', 'l'] + rest;
            assert(s[0] == 'n');
            lemma_rt_lit(seq!['n', 'u', 'l', 'l'], rest);
        },
    }
}

proof fn lemma_rt_status(st: StatusV, rest: Seq<char>)
    requires
        match st {
            StatusV::Done { completed_at } => instant_wf(completed_at),
            StatusV::Open => true,
        },
    ensures
        sp_status(enc_status(st) + rest) == Some((st, rest)),
{
    match st {
        StatusV::Open => {
            let s = enc_status(st) + rest;
            assert(s[0] == '"');
            assert(s =~= seq!['"', 'o', 'p', 'e', 'n', '"'] + rest);
            lemma_rt_lit(seq!['"', 'o', 'p', 'e', 'n', '"'], rest);
        },
        StatusV::Done { completed_at } => {
            let head = seq!['{'] + enc_key(seq!['d', 'o', 'n', 'e']);
            let s = enc_status(st) + rest;
            assert(s[0] == '{');
            assert(s =~= head + (enc_string(completed_at.text) + (seq!['}'] + rest)));
            lemma_rt_lit(head, enc_string(completed_at.text) + (seq!['}'] + rest));
            lemma_rt_instant(completed_at, seq!['}'] + rest);
            lemma_rt_lit(seq!['}'], rest);
        },
    }
}

proof fn lemma_rt_tags_items(ts: Seq<Seq<char>>, rest: Seq<char>)
    requires
        ts.len() >= 1,
        forall|i: int| 0 <= i < ts.len() ==> tag_text_wf(#[trigger] ts[i]),
    ensures
        sp_tags_items(enc_tags_items(ts) + seq![']'] + rest) == Some((ts, rest)),
    decreases ts.len(),
{
    let s = enc_tags_items(ts) + seq![']'] + rest;
    if ts.len() == 1 {
        assert(s =~= enc_string(ts[0]) + (seq![']'] + rest));
        lemma_rt_string(ts[0], seq![']'] + rest);
        let r = seq![']'] + rest;
        assert(r[0] == ']');
        assert(r.len() > 0);
        assert(r.len() < s.len()) by {
            assert(enc_string(ts[0]).len() >= 2);
        }
        assert(r.drop_first() =~= rest);
        assert(tag_text_wf(ts[0]));
        assert(seq![ts[0]] =~= ts);
    } else {
        let t2 = ts.drop_first();
        assert(forall|i: int| 0 <= i < t2.len() ==> #[trigger] t2[i] == ts[i + 1]);
        lemma_rt_tags_items(t2, rest);
        let tail = enc_tags_items(t2) + seq![']'] + rest;
        assert(s =~= enc_string(ts[0]) + (seq![','] + tail));
        lemma_rt_string(ts[0], seq![','] + tail);
        let r = seq![','] + tail;
        assert(r[0] == ',');
        assert(r.len() > 0);
        assert(r.len() < s.len()) by {
            assert(enc_string(ts[0]).len() >= 2);
        }
        assert(r.drop_first() =~= tail);
        assert(tag_text_wf(ts[0]));
        assert(sp_tags_items(s) == Some((seq![ts[0]] + t2, rest)));
        assert(seq![ts[0]] + t2 =~= ts);
    }
}

proof fn lemma_rt_tags(ts: Seq<Seq<char>>, rest: Seq<char>)
    requires
        crate::tags::tags_list_wf(ts),
    ensures
        sp_tags(enc_tags(ts) + rest) == Some((ts, rest)),
{
    let s = enc_tags(ts) + rest;
    if ts.len() == 0 {
        assert(s =~= seq!['[', ']'] + rest);
        assert(s[0] == '[' && s[1] == ']');
        assert(s.len() >= 2);
        assert(s.skip(2) =~= rest);
        assert(Seq::<Seq<char>>::empty() =~= ts);
    } else {
        assert(s[0] == '[');
        assert(s[1] == enc_tags_items(ts)[0]) by {
            assert(enc_tags_items(ts).len() > 0) by {
                assert(enc_string(ts[0]).len() >= 2);
            }
        }
        assert(enc_tags_items(ts)[0] == '"') by {
            assert(enc_string(ts[0])[0] == '"');
        }
        assert(!(s.len() >= 2 && s[0] == '[' && s[1] == ']'));
        assert(s.drop_first() =~= enc_tags_items(ts) + seq![']'] + rest);
        lemma_rt_tags_items(ts, rest);
        assert(tags_sorted(ts));
    }
}

/// The canonical encoding of a well-formed task parses back to exactly
/// that task.
#[verifier::rlimit(100)]
proof fn lemma_rt_todo(t: TodoV, rest: Seq<char>)
    requires
        todo_wf(t),
    ensures
        sp_todo(enc_todo(t) + rest) == Some((t, rest)),
{
    reveal(sp_todo);
    reveal(enc_todo);
    reveal(enc_todo_head);
    reveal(enc_todo_mid);
    reveal(enc_todo_tail);
    let s = enc_todo(t) + rest;
    let r_mid = enc_todo_mid(t) + (enc_todo_tail(t) + rest);
    // head: id, title, status, priority
    let lit_id = seq!['{'] + enc_key(seq!['i', 'd']);
    let lit_title = seq![','] + enc_key(seq!['t', 'i', 't', 'l', 'e']);
    let lit_status = seq![','] + enc_key(seq!['s', 't', 'a', 't', 'u', 's']);
    let lit_priority = seq![','] + enc_key(seq!['p', 'r', 'i', 'o', 'r', 'i', 't', 'y']);
    let idt = canonical_seq(t.id);
    let a4 = enc_string(priority_label_text(t.priority)) + r_mid;
    let a3 = enc_status(t.status) + (lit_priority + a4);
    let a2 = enc_string(t.title) + (lit_status + a3);
    let a1 = enc_string(idt) + (lit_title + a2);
    assert(s =~= lit_id + a1);
    lemma_rt_lit(lit_id, a1);
    lemma_rt_string(idt, lit_title + a2);
    crate::id::lemma_canonical_round_trip(t.id);
    lemma_rt_lit(lit_title, a2);
    lemma_rt_string(t.title, lit_status + a3);
    lemma_rt_lit(lit_status, a3);
    lemma_rt_status(t.status, lit_priority + a4);
    lemma_rt_lit(lit_priority, a4);
    lemma_rt_string(priority_label_text(t.priority), r_mid);
    crate::values::lemma_priority_label_round_trip(t.priority);
    assert(sp_todo(s) == sp_todo_tail(r_mid, uuid_val(idt), t.title, t.status, t.priority));
    assert(uuid_val(idt) == t.id);
    lemma_rt_todo_tail(t, rest);
}

/// The canonical encoding of the second half of a well-formed task
/// parses back to exactly that task.
#[verifier::rlimit(100)]
proof fn lemma_rt_todo_tail(t: TodoV, rest: Seq<char>)
    requires
        todo_wf(t),
    ensures
        sp_todo_tail(
            enc_todo_mid(t) + (enc_todo_tail(t) + rest),
            t.id,
            t.title,
            t.status,
            t.priority,
        ) == Some((t, rest)),
{
    reveal(sp_todo_tail);
    reveal(enc_todo_mid);
    reveal(enc_todo_tail);
    let s = enc_todo_mid(t) + (enc_todo_tail(t) + rest);
    let lit_project = seq![','] + enc_key(seq!['p', 'r', 'o', 'j', 'e', 'c', 't']);
    let lit_tags = seq![','] + enc_key(seq!['t', 'a', 'g', 's']);
    let lit_due = seq![','] + enc_key(seq!['d', 'u', 'e']);
    let lit_notes = seq![','] + enc_key(seq!['n', 'o', 't', 'e', 's']);
    let lit_created = seq![','] + enc_key(seq!['c', 'r', 'e', 'a', 't', 'e', 'd', '_', 'a', 't']);
    let lit_updated = seq![','] + enc_key(seq!['u', 'p', 'd', 'a', 't', 'e', 'd', '_', 'a', 't']);
    let due_enc = enc_opt_string(
        match t.due {
            Some(d) => Some(d.text),
            None => None,
        },
    );
    let b7 = enc_string(t.updated_at.text) + (seq!['}'] + rest);
    let b6 = enc_string(t.created_at.text) + (lit_updated + b7);
    let b5 = enc_opt_string(t.notes) + (lit_created + b6);
    let b4 = due_enc + (lit_notes + b5);
    let b3 = enc_tags(t.tags) + (lit_due + b4);
    let b2 = enc_string(t.project) + (lit_tags + b3);
    assert(s =~= lit_project + b2);
    lemma_rt_lit(lit_project, b2);
    lemma_rt_string(t.project, lit_tags + b3);
    lemma_rt_lit(lit_tags, b3);
    lemma_rt_tags(t.tags, lit_due + b4);
    lemma_rt_lit(lit_due, b4);
    lemma_rt_opt_instant(t.due, lit_notes + b5);
    lemma_rt_lit(lit_notes, b5);
    lemma_rt_opt_string(t.notes, lit_created + b6);
    match t.notes {
        Some(nx) => {
            assert(notes_text_wf(nx));
        },
        None => {},
    }
    lemma_rt_lit(lit_created, b6);
    lemma_rt_instant(t.created_at, lit_updated + b7);
    lemma_rt_lit(lit_updated, b7);
    lemma_rt_instant(t.updated_at, seq!['}'] + rest);
    lemma_rt_lit(seq!['}'], rest);
    assert(sp_todo_tail(s, t.id, t.title, t.status, t.priority) == Some(
        (
            TodoV {
                id: t.id,
                title: t.title,
                notes: t.notes,
                project: t.project,
                tags: t.tags,
                status: t.status,
                priority: t.priority,
                due: t.due,
                created_at: t.created_at,
                updated_at: t.updated_at,
            },
            rest,
        ),
    ));
    assert(TodoV {
        id: t.id,
        title: t.title,
        notes: t.notes,
        project: t.project,
        tags: t.tags,
        status: t.status,
        priority: t.priority,
        due: t.due,
        created_at: t.created_at,
        updated_at: t.updated_at,
    } == t);
}

proof fn lemma_enc_todo_first(t: TodoV)
    ensures
        enc_todo(t).len() >= 1,
        enc_todo(t)[0] == '{',
{
    reveal(enc_todo);
    reveal(enc_todo_head);
    assert(enc_todo_head(t)[0] == '{');
    assert(enc_todo_head(t).len() >= 1);
}

#[verifier::rlimit(100)]
proof fn lemma_rt_todos_items(ts: Seq<TodoV>, rest: Seq<char>)
    requires
        ts.len() >= 1,
        crate::repo::all_wf(ts),
    ensures
        sp_todos_items(enc_todos_items(ts) + seq![']'] + rest) == Some((ts, rest)),
    decreases ts.len(),
{
    let s = enc_todos_items(ts) + seq![']'] + rest;
    assert(todo_wf(ts[0]));
    if ts.len() == 1 {
        assert(s =~= enc_todo(ts[0]) + (seq![']'] + rest));
        lemma_rt_todo(ts[0], seq![']'] + rest);
        let r = seq![']'] + rest;
        assert(r[0] == ']');
        assert(r.len() > 0);
        assert(r.len() < s.len()) by {
            lemma_enc_todo_first(ts[0]);
        }
        assert(r.drop_first() =~= rest);
        assert(seq![ts[0]] =~= ts);
    } else {
        let t2 = ts.drop_first();
        assert(crate::repo::all_wf(t2)) by {
            assert(forall|i: int| 0 <= i < t2.len() ==> #[trigger] t2[i] == ts[i + 1]);
        }
        lemma_rt_todos_items(t2, rest);
        let tail = enc_todos_items(t2) + seq![']'] + rest;
        assert(s =~= enc_todo(ts[0]) + (seq![','] + tail));
        lemma_rt_todo(ts[0], seq![','] + tail);
        let r = seq![','] + tail;
        assert(r[0] == ',');
        assert(r.len() > 0);
        assert(r.len() < s.len()) by {
            lemma_enc_todo_first(ts[0]);
        }
        assert(r.drop_first() =~= tail);
        assert(sp_todos_items(s) == Some((seq![ts[0]] + t2, rest)));
        assert(seq![ts[0]] + t2 =~= ts);
    }
}

/// Writing a well-formed task collection and reading the document back
/// yields the identical collection, field for field: the reader inverts
/// the writer.
#[verifier::rlimit(100)]
pub proof fn lemma_document_round_trip(ts: Seq<TodoV>)
    requires
        crate::repo::all_wf(ts),
    ensures
        sp_doc(enc_doc(ts)) == Some(ts),
{
    let s = enc_doc(ts);
    let after_ver = seq!['1'] + (todos_prefix() + (enc_todos_items(ts) + seq![']', '}']));
    assert(s =~= version_prefix() + after_ver);
    lemma_rt_lit(version_prefix(), after_ver);
    let after_num = todos_prefix() + (enc_todos_items(ts) + seq![']', '}']);
    assert(after_ver[0] == '1');
    assert(is_digit('1'));
    assert(after_ver.drop_first() =~= after_num);
    assert(after_num[0] == ',');
    assert(!is_digit(','));
    assert(sp_digits_rest(after_ver, 0) == sp_digits_rest(after_num, 1));
    assert(sp_digits_rest(after_num, 1) == (1int, after_num));
    assert(sp_number(after_ver) == Some((1int, after_num)));
    let after_lit2 = enc_todos_items(ts) + seq![']', '}'];
    lemma_rt_lit(todos_prefix(), after_lit2);
    if ts.len() == 0 {
        assert(after_lit2 =~= seq![']', '}']);
        assert(after_lit2.len() == 2 && after_lit2[0] == ']' && after_lit2[1] == '}');
        assert(sp_doc(s) == Some(Seq::<TodoV>::empty()));
        assert(Seq::<TodoV>::empty() =~= ts);
    } else {
        assert(todo_wf(ts[0]));
        assert(after_lit2[0] == '{') by {
            lemma_enc_todo_first(ts[0]);
            assert(enc_todos_items(ts)[0] == enc_todo(ts[0])[0]);
        }
        assert(!(after_lit2.len() >= 2 && after_lit2[0] == ']' && after_lit2[1] == '}'));
        assert(after_lit2 =~= enc_todos_items(ts) + seq![']'] + seq!['}']);
        lemma_rt_todos_items(ts, seq!['}']);
        assert(sp_todos_items(after_lit2) == Some((ts, seq!['}'])));
        assert(sp_doc(s) == Some(ts));
    }
}

} // verus!
