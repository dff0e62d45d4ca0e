//! Task identifiers: a 128-bit value with a canonical hyphenated
//! hexadecimal text form, a fixed-length short form for display, and a
//! strict parser for the canonical form. Fresh identifiers are drawn at
//! random through the `uuid` crate; the text forms are computed here.

use vstd::prelude::*;

verus! {

/// Relies on `uuid::Uuid::new_v4` and `as_u128`: a fresh random 128-bit
/// identifier; nothing is promised of its value.
#[verifier::external_body]
fn fresh_random_u128() -> u128 {
    uuid::Uuid::new_v4().as_u128()
}

/// Positions of the separators inside the canonical 36-character text.
pub open spec fn is_hyphen_pos(i: int) -> bool {
    i == 8 || i == 13 || i == 18 || i == 23
}

/// Nibble index (0 is the most significant) written at text position `i`.
pub open spec fn digit_index(i: int) -> int {
    if i < 8 {
        i
    } else if i < 13 {
        i - 1
    } else if i < 18 {
        i - 2
    } else if i < 23 {
        i - 3
    } else {
        i - 4
    }
}

/// Nibble `k` of `v`, counting from the most significant.
pub open spec fn nibble_of(v: u128, k: int) -> u128 {
    (v >> ((124 - 4 * k) as u128)) & 0xf
}

/// Lower-case hexadecimal digit for a value in `0..16`.
pub open spec fn hex_digit_char(n: int) -> char {
    if n < 10 {
        (0x30 + n) as char
    } else {
        (0x57 + n) as char
    }
}

/// Value of a hexadecimal digit character, upper or lower case; `-1` for
/// any other character.
pub open spec fn hex_val(c: char) -> int {
    let u = c as u32;
    if 0x30 <= u && u <= 0x39 {
        u - 0x30
    } else if 0x61 <= u && u <= 0x66 {
        u - 0x61 + 10
    } else if 0x41 <= u && u <= 0x46 {
        u - 0x41 + 10
    } else {
        -1
    }
}

/// The canonical text of `v`: 32 lower-case hexadecimal digits in four
/// groups separated by hyphens, most significant digit first.
pub open spec fn canonical_seq(v: u128) -> Seq<char> {
    Seq::new(
        36,
        |i: int|
            if is_hyphen_pos(i) {
                '-'
            } else {
                hex_digit_char(nibble_of(v, digit_index(i)) as int)
            },
    )
}

/// The text is exactly a canonical identifier up to letter case: 36
/// characters, hyphens at the separator positions, hexadecimal digits
/// elsewhere.
pub open spec fn is_uuid_text(s: Seq<char>) -> bool {
    s.len() == 36 && forall|i: int|
        0 <= i < 36 ==> if is_hyphen_pos(i) {
            s[i] == '-'
        } else {
            hex_val(#[trigger] s[i]) >= 0
        }
}

/// Value of the first `i` characters of a canonical text: the hexadecimal
/// digits read so far, most significant first.
pub open spec fn uuid_val_prefix(s: Seq<char>, i: int) -> u128
    decreases i,
{
    if i <= 0 {
        0
    } else if is_hyphen_pos(i - 1) {
        uuid_val_prefix(s, i - 1)
    } else {
        (uuid_val_prefix(s, i - 1) << 4) | (hex_val(s[i - 1]) as u128 & 0xf)
    }
}

/// The value a full canonical text denotes.
pub open spec fn uuid_val(s: Seq<char>) -> u128 {
    uuid_val_prefix(s, 36)
}

/// Identifier of a task. Equality is by value; the canonical text form
/// and its first eight digits (the short form) serve display and lookup.
#[derive(Debug, Clone, Copy, PartialEq, Eq, Hash, Structural)]
pub struct TodoId {
    value: u128,
}

impl TodoId {
    /// A fresh random identifier.
    pub fn new() -> Self {
        TodoId { value: fresh_random_u128() }
    }

    /// The identifier's 128-bit value.
    pub closed spec fn spec_value(self) -> u128 {
        self.value
    }

    /// Construct from a known 128-bit value.
    pub fn from_value(value: u128) -> (r: Self)
        ensures
            r.spec_value() == value,
    {
        TodoId { value }
    }

    /// The canonical hyphenated hexadecimal text.
    pub fn as_uuid_str(&self) -> (r: String)
        ensures
            r@ == canonical_seq(self.spec_value()),
    {
        let v = self.value;
        let mut out = String::new();
        proof {
            reveal_strlit("0123456789abcdef");
            reveal_strlit("-");
        }
        let hex = "0123456789abcdef";
        let mut i: usize = 0;
        while i < 36
            invariant
                0 <= i <= 36,
                out@ =~= canonical_seq(v).subrange(0, i as int),
                hex@ =~= Seq::new(16, |k: int| hex_digit_char(k)),
            decreases 36 - i,
        {
            proof {
                reveal_strlit("0123456789abcdef");
                reveal_strlit("-");
            }
            if i == 8 || i == 13 || i == 18 || i == 23 {
                proof {
                    assert(canonical_seq(v)[i as int] == '-');
                }
                out.append("-");
                proof {
                    assert(out@.last() == '-');
                }
            } else {
                let k: usize = if i < 8 {
                    i
                } else if i < 13 {
                    i - 1
                } else if i < 18 {
                    i - 2
                } else if i < 23 {
                    i - 3
                } else {
                    i - 4
                };
                let sh: u128 = 124 - 4 * (k as u128);
                assert((v >> sh) & 0xf < 16) by (bit_vector);
                let d: usize = ((v >> sh) & 0xf) as usize;
                proof {
                    assert(k as int == digit_index(i as int));
                    assert(sh == (124 - 4 * digit_index(i as int)) as u128);
                    assert(d as u128 == nibble_of(v, digit_index(i as int)));
                    assert(canonical_seq(v)[i as int] == hex_digit_char(d as int));
                }
                out.append(hex.substring_char(d, d + 1));
                proof {
                    assert(hex@.subrange(d as int, d + 1)[0] == hex_digit_char(d as int));
                }
            }
            proof {
                assert(out@ =~= canonical_seq(v).subrange(0, i + 1));
            }
            i = i + 1;
        }
        proof {
            assert(canonical_seq(v).subrange(0, 36) =~= canonical_seq(v));
        }
        out
    }

    /// The short, human-friendly form: the first 8 characters of the
    /// canonical text.
    pub fn short(&self) -> (r: String)
        ensures
            r@ == canonical_seq(self.spec_value()).subrange(0, 8),
    {
        let full = self.as_uuid_str();
        let piece = full.as_str().substring_char(0, 8);
        piece.to_owned()
    }

    /// Parse a full canonical identifier, accepting upper- or lower-case
    /// hexadecimal digits; anything else is rejected.
    pub fn parse_uuid(s: &str) -> (r: Option<TodoId>)
        ensures
            match r {
                Some(id) => is_uuid_text(s@) && id.spec_value() == uuid_val(s@),
                None => !is_uuid_text(s@),
            },
    {
        let n = s.unicode_len();
        if n != 36 {
            return None;
        }
        let mut acc: u128 = 0;
        let mut i: usize = 0;
        while i < 36
            invariant
                0 <= i <= 36,
                n == s@.len() == 36,
                acc == uuid_val_prefix(s@, i as int),
                forall|j: int|
                    0 <= j < i ==> if is_hyphen_pos(j) {
                        s@[j] == '-'
                    } else {
                        hex_val(#[trigger] s@[j]) >= 0
                    },
            decreases 36 - i,
        {
            let c = s.get_char(i);
            if i == 8 || i == 13 || i == 18 || i == 23 {
                if c != '-' {
                    return None;
                }
            } else {
                let u = c as u32;
                let d: u32 = if 0x30 <= u && u <= 0x39 {
                    u - 0x30
                } else if 0x61 <= u && u <= 0x66 {
                    u - 0x61 + 10
                } else if 0x41 <= u && u <= 0x46 {
                    u - 0x41 + 10
                } else {
                    return None;
                };
                assert(d == hex_val(s@[i as int]));
                acc = (acc << 4u128) | (d as u128 & 0xf);
            }
            i = i + 1;
        }
        Some(TodoId { value: acc })
    }
}

/// Two identifiers are the same exactly when their values are.
pub proof fn lemma_id_value_determines(a: TodoId, b: TodoId)
    ensures
        (a == b) <==> (a.spec_value() == b.spec_value()),
{
}

/// Reading the canonical text back yields the identifier it was written
/// from: the canonical form is valid identifier text and denotes `v`.
pub proof fn lemma_canonical_round_trip(v: u128)
    ensures
        is_uuid_text(canonical_seq(v)),
        uuid_val(canonical_seq(v)) == v,
{
    let s = canonical_seq(v);
    assert forall|i: int| 0 <= i < 36 && !is_hyphen_pos(i) implies hex_val(#[trigger] s[i])
        == nibble_of(v, digit_index(i)) by {
        let sh: u128 = (124 - 4 * digit_index(i)) as u128;
        let nb = nibble_of(v, digit_index(i));
        assert((v >> sh) & 0xf < 16) by (bit_vector);
        assert(nb == (v >> sh) & 0xf);
        assert(hex_val(hex_digit_char(nb as int)) == nb as int);
    }
    assert forall|i: int| 0 <= i <= 36 implies uuid_val_prefix(s, i) == prefix_model(
        v,
        digit_index_count(i),
    ) by {
        lemma_prefix_model(v, s, i);
    }
    assert(uuid_val_prefix(s, 36) == prefix_model(v, 32));
    assert(prefix_model(v, 32) == v) by (bit_vector);
}

/// The value of the first `k` nibbles of `v`: `v` shifted so that only
/// those nibbles remain.
pub open spec fn prefix_model(v: u128, k: int) -> u128 {
    if k <= 0 {
        0
    } else {
        v >> ((4 * (32 - k)) as u128)
    }
}

/// Number of digit (non-hyphen) positions among the first `i` positions.
pub open spec fn digit_index_count(i: int) -> int {
    if i <= 8 {
        i
    } else if i <= 13 {
        i - 1
    } else if i <= 18 {
        i - 2
    } else if i <= 23 {
        i - 3
    } else {
        i - 4
    }
}

proof fn lemma_prefix_model(v: u128, s: Seq<char>, i: int)
    requires
        s == canonical_seq(v),
        0 <= i <= 36,
        forall|j: int|
            0 <= j < 36 && !is_hyphen_pos(j) ==> hex_val(#[trigger] s[j]) == nibble_of(
                v,
                digit_index(j),
            ),
    ensures
        uuid_val_prefix(s, i) == prefix_model(v, digit_index_count(i)),
    decreases i,
{
    if i > 0 {
        lemma_prefix_model(v, s, i - 1);
        if !is_hyphen_pos(i - 1) {
            let k = digit_index(i - 1);
            let prev = prefix_model(v, k);
            assert(uuid_val_prefix(s, i) == (prev << 4) | (nibble_of(v, k) as u128 & 0xf));
            if k == 0 {
                assert((0u128 << 4) | (((v >> 124u128) & 0xf) & 0xf) == (v >> 124u128))
                    by (bit_vector);
                assert((124 - 4 * k) as u128 == 124u128);
                assert((4 * (32 - (k + 1))) as u128 == 124u128);
            } else {
                let sh: u128 = (4 * (32 - k)) as u128;
                let sh4: u128 = (4 * (32 - k - 1)) as u128;
                assert(((v >> sh) << 4) | (((v >> sh4) & 0xf) & 0xf) == (v >> sh4)) by (bit_vector)
                    requires
                        sh4 <= 120 && sh == sh4 + 4,
                ;
                assert((124 - 4 * k) as u128 == sh4);
            }
        }
    }
}

} // verus!
