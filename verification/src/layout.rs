//! The layout representation, its invariants, and the 94-character
//! text form.
//!
//! A layout is stored as 190 bytes.  Positions 0..=94 map a character
//! (ASCII code minus 32) to its action; positions 95..=189 map an
//! action back to its character.  Action 0 is the space bar, actions
//! 1..=47 are the plain keys and actions 48..=94 are the same keys
//! with shift held.

use vstd::prelude::*;
use vstd::set_lib::{lemma_int_range, lemma_subset_equality, set_int_range};

verus! {

/// The two halves of the byte array are mutually inverse permutations
/// of 0..95, and the space character (index 0) sits on the space
/// action (0).
pub open spec fn bijective_layout(l: Seq<u8>) -> bool {
    &&& l.len() == 190
    &&& l[0] == 0
    &&& l[95] == 0
    &&& forall|c: int| 0 <= c < 95 ==> #[trigger] l[c] < 95
    &&& forall|c: int| 0 <= c < 95 ==> l[95 + #[trigger] l[c]] == c
    &&& forall|a: int| 0 <= a < 95 ==> #[trigger] l[95 + a] < 95
    &&& forall|a: int| 0 <= a < 95 ==> l[#[trigger] l[95 + a] as int] == a
}

/// Lowercase letters sit on plain actions, uppercase letters on
/// shifted actions.  (Character index 65 is 'a', index 33 is 'A'.)
pub open spec fn case_aligned(l: Seq<u8>) -> bool {
    &&& forall|c: int| 65 <= c < 91 ==> #[trigger] l[c] <= 47
    &&& forall|c: int| 33 <= c < 59 ==> #[trigger] l[c] > 47
}

/// The full checked layout invariant.
pub open spec fn valid_layout(l: Seq<u8>) -> bool {
    bijective_layout(l) && case_aligned(l)
}

/// Each letter's uppercase form sits on the shifted half of the key
/// that carries its lowercase form.
pub open spec fn letter_pairs_aligned(l: Seq<u8>) -> bool {
    forall|c: int| 65 <= c < 91 ==> #[trigger] l[c - 32] == l[c] + 47
}

/// Some character sits on action `k`.
pub open spec fn action_taken(l: Seq<u8>, k: int) -> bool {
    exists|c: int| 0 <= c < 95 && #[trigger] l[c] == k
}

/// Some action carries the character with index `k`.
pub open spec fn char_present(l: Seq<u8>, k: int) -> bool {
    exists|a: int| 0 <= a < 95 && #[trigger] l[95 + a] == k
}

/// The two halves of a well-formed layout are permutations of 0..95:
/// each half takes every value below 95, and no value twice.
pub proof fn lemma_layout_halves_permute(l: Seq<u8>)
    requires
        bijective_layout(l),
    ensures
        forall|c1: int, c2: int|
            0 <= c1 < 95 && 0 <= c2 < 95 && #[trigger] l[c1] == #[trigger] l[c2] ==> c1 == c2,
        forall|a1: int, a2: int|
            0 <= a1 < 95 && 0 <= a2 < 95 && #[trigger] l[95 + a1] == #[trigger] l[95 + a2] ==> a1
                == a2,
        forall|k: int| 0 <= k < 95 ==> #[trigger] action_taken(l, k),
        forall|k: int| 0 <= k < 95 ==> #[trigger] char_present(l, k),
{
    assert forall|c1: int, c2: int|
        0 <= c1 < 95 && 0 <= c2 < 95 && #[trigger] l[c1] == #[trigger] l[c2] implies c1 == c2 by {
        assert(l[95 + l[c1]] == c1);
        assert(l[95 + l[c2]] == c2);
    }
    assert forall|a1: int, a2: int|
        0 <= a1 < 95 && 0 <= a2 < 95 && #[trigger] l[95 + a1] == #[trigger] l[95 + a2] implies a1
        == a2 by {
        assert(l[l[95 + a1] as int] == a1);
        assert(l[l[95 + a2] as int] == a2);
    }
    assert forall|k: int| 0 <= k < 95 implies #[trigger] action_taken(l, k) by {
        assert(l[l[95 + k] as int] == k);
    }
    assert forall|k: int| 0 <= k < 95 implies #[trigger] char_present(l, k) by {
        assert(l[95 + l[k]] == k);
    }
}

/// Why a piece of text is not a layout.
#[derive(Clone, Copy, PartialEq, Eq, Structural, Debug)]
pub enum LayoutError {
    /// The text form holds this many non-whitespace characters
    /// instead of 94.
    WrongLength(usize),
    /// A character outside '!'..='~'.
    InvalidChar(char),
    /// A character that occurs twice.
    DuplicateChar(char),
    /// A lowercase letter on a shifted action.
    MisplacedLowercase(char),
    /// An uppercase letter on a plain action.
    MisplacedUppercase(char),
    /// A stored layout that is not 190 bytes long.
    WrongArrayLength(usize),
    /// A stored layout that does not put space on the space action.
    SpaceNotPinned,
    /// A stored layout with an entry outside 0..=94 at this position.
    EntryOutOfRange(usize),
    /// A stored layout whose halves are not mutually inverse at this
    /// position.
    NotInverse(usize),
}

/// The whitespace that the layout text form ignores.
pub open spec fn is_layout_ws(c: char) -> bool {
    c == ' ' || c == '\n' || c == '\r' || c == '\t'
}

/// The input text with its whitespace removed, in order.
pub open spec fn strip_ws(s: Seq<char>) -> Seq<char>
    decreases s.len(),
{
    if s.len() == 0 {
        Seq::empty()
    } else {
        strip_ws(s.drop_last()) + if is_layout_ws(s.last()) {
            Seq::empty()
        } else {
            seq![s.last()]
        }
    }
}

/// Some position among the first `n` of `t` holds the character with
/// index `c` (ASCII code `c + 32`).
pub open spec fn placed(t: Seq<char>, n: int, c: int) -> bool {
    exists|j: int| 0 <= j < n && (#[trigger] t[j]) as int - 32 == c
}

/// The first problem, if any, at position `i` of a whitespace-free
/// layout string: the character must be in '!'..='~', letters must sit
/// on the half of the string that matches their case (position `i`
/// places a character on action `i + 1`), and no character may repeat.
pub open spec fn position_error(t: Seq<char>, i: int) -> Option<LayoutError> {
    let c = t[i];
    let code = c as int;
    if !(33 <= code && code <= 126) {
        Some(LayoutError::InvalidChar(c))
    } else if 97 <= code && code <= 122 && i >= 47 {
        Some(LayoutError::MisplacedLowercase(c))
    } else if 65 <= code && code <= 90 && i < 47 {
        Some(LayoutError::MisplacedUppercase(c))
    } else if exists|j: int| 0 <= j < i && t[j] == c {
        Some(LayoutError::DuplicateChar(c))
    } else {
        None
    }
}

/// The first position error at or after position `i`, scanning left to
/// right.
pub open spec fn first_error_from(t: Seq<char>, i: int) -> Option<LayoutError>
    decreases t.len() - i,
{
    if i < 0 || i >= t.len() {
        None
    } else if position_error(t, i) is Some {
        position_error(t, i)
    } else {
        first_error_from(t, i + 1)
    }
}

/// A whitespace-free string is a layout exactly when it has 94
/// characters and no position error.
pub open spec fn layout_string_ok(t: Seq<char>) -> bool {
    t.len() == 94 && first_error_from(t, 0) is None
}

/// The layout built from the whitespace-free string `t`: the character
/// at position `i` sits on action `i + 1`, and the first half is the
/// inverse of that placement.
pub open spec fn parsed_from(l: Seq<u8>, t: Seq<char>) -> bool {
    &&& t.len() == 94
    &&& valid_layout(l)
    &&& forall|i: int| 0 <= i < 94 ==> #[trigger] l[96 + i] as int == t[i] as int - 32
}

/// The 94-byte text form of a layout: the character of each action, in
/// action order.
pub open spec fn serialized(l: Seq<u8>) -> Seq<u8> {
    Seq::new(94, |i: int| (l[96 + i] as int + 32) as u8)
}

/// Parsing and then serializing returns exactly the non-whitespace
/// bytes of the input.
pub proof fn lemma_parse_serialize_round_trip(l: Seq<u8>, t: Seq<char>)
    requires
        parsed_from(l, t),
    ensures
        serialized(l) =~= Seq::new(94, |i: int| t[i] as u8),
{
    assert forall|i: int| 0 <= i < 94 implies serialized(l)[i] == (t[i] as u8) by {
        assert(l[96 + i] as int == t[i] as int - 32);
        assert(l[95 + (1 + i)] < 95);
    }
}

fn strip_whitespace(s: &str) -> (r: Vec<char>)
    ensures
        r@ == strip_ws(s@),
{
    let n = s.unicode_len();
    let mut r: Vec<char> = Vec::new();
    let mut i: usize = 0;
    while i < n
        invariant
            i <= n,
            n == s@.len(),
            r@ == strip_ws(s@.subrange(0, i as int)),
        decreases n - i,
    {
        let c = s.get_char(i);
        if !(c == ' ' || c == '\n' || c == '\r' || c == '\t') {
            r.push(c);
        }
        i = i + 1;
        proof {
            let p = s@.subrange(0, i as int);
            assert(p.drop_last() =~= s@.subrange(0, i - 1));
            assert(p.last() == s@[i - 1]);
        }
    }
    proof {
        assert(s@.subrange(0, n as int) =~= s@);
    }
    r
}

/// A character's `u32` cast is exactly its code point, which is a
/// Unicode scalar value.
proof fn lemma_char_code(c: char)
    ensures
        (c as u32) as int == c as int,
        0 <= c as int <= 0x10FFFF,
{
    vstd::utf8::char_is_scalar(c);
    vstd::utf8::char_u32_cast(c, c as u32);
}

/// Two characters with the same code point are the same character.
proof fn lemma_char_eq(a: char, b: char)
    requires
        a as int == b as int,
    ensures
        a == b,
{
    lemma_char_code(a);
    lemma_char_code(b);
    vstd::utf8::char_u32_cast(a, a as u32);
    vstd::utf8::char_u32_cast(b, b as u32);
    assert(a as u32 == b as u32);
}

/// If the first `i` positions are clean, the overall scan result is
/// the scan result from `i` on.
proof fn lemma_first_error_skip(t: Seq<char>, i: int)
    requires
        0 <= i <= t.len(),
        forall|j: int| 0 <= j < i ==> #[trigger] position_error(t, j) is None,
    ensures
        first_error_from(t, 0) == first_error_from(t, i),
    decreases i,
{
    if i > 0 {
        lemma_first_error_skip(t, i - 1);
    }
}

/// 94 distinct characters drawn from the 94-character alphabet
/// '!'..='~' cover the whole alphabet.
proof fn lemma_distinct_covers(t: Seq<char>)
    requires
        t.len() == 94,
        forall|i: int| 0 <= i < 94 ==> 33 <= #[trigger] t[i] as int <= 126,
        forall|i: int, j: int| 0 <= i < j < 94 ==> t[i] != t[j],
    ensures
        forall|c: int| 1 <= c < 95 ==> #[trigger] placed(t, 94, c),
{
    let codes = Seq::new(94, |i: int| t[i] as int - 32);
    assert(codes.no_duplicates()) by {
        assert forall|i: int, j: int| 0 <= i < j < 94 implies codes[i] != codes[j] by {
            assert(t[i] != t[j]);
            if t[i] as int == t[j] as int {
                lemma_char_eq(t[i], t[j]);
            }
        }
    }
    codes.unique_seq_to_set();
    let image = codes.to_set();
    let range = set_int_range(1, 95);
    lemma_int_range(1, 95);
    assert(image.subset_of(range)) by {
        assert forall|c: int| image.contains(c) implies range.contains(c) by {
            assert(codes.contains(c));
            let i = choose|i: int| 0 <= i < codes.len() && codes[i] == c;
            assert(33 <= t[i] as int <= 126);
        }
    }
    lemma_subset_equality(image, range);
    assert forall|c: int| 1 <= c < 95 implies #[trigger] placed(t, 94, c) by {
        assert(range.contains(c));
        assert(image.contains(c));
        assert(codes.contains(c));
        let i = choose|i: int| 0 <= i < codes.len() && codes[i] == c;
        assert(0 <= i < 94 && t[i] as int - 32 == c);
    }
}

/// Build the 190-byte layout from a whitespace-free 94-character
/// string, reporting the leftmost violation if there is one.
fn build_layout(t: &Vec<char>) -> (r: Result<Vec<u8>, LayoutError>)
    requires
        t@.len() == 94,
    ensures
        match r {
            Ok(l) => parsed_from(l@, t@) && layout_string_ok(t@),
            Err(e) => first_error_from(t@, 0) == Some(e),
        },
{
    let mut l: Vec<u8> = Vec::new();
    let mut k: usize = 0;
    while k < 190
        invariant
            l@.len() == k,
            k <= 190,
            forall|j: int| 0 <= j < k ==> l@[j] == 0,
        decreases 190 - k,
    {
        l.push(0);
        k = k + 1;
    }
    let mut i: usize = 0;
    while i < 94
        invariant
            t@.len() == 94,
            i <= 94,
            l@.len() == 190,
            l@[0] == 0,
            l@[95] == 0,
            forall|j: int| 0 <= j < i ==> #[trigger] position_error(t@, j) is None,
            forall|j: int| 0 <= j < i ==> #[trigger] l@[96 + j] as int == t@[j] as int - 32,
            forall|j: int| i <= j < 94 ==> #[trigger] l@[96 + j] == 0,
            forall|j: int| 0 <= j < i ==> #[trigger] l@[t@[j] as int - 32] as int == j + 1,
            forall|c: int|
                1 <= c < 95 && !(#[trigger] placed(t@, i as int, c)) ==> l@[c] == 0,
        decreases 94 - i,
    {
        let c = t[i];
        let code = c as u32;
        proof {
            lemma_char_code(c);
        }
        if code < 33 || code > 126 {
            proof {
                lemma_first_error_skip(t@, i as int);
            }
            return Err(LayoutError::InvalidChar(c));
        }
        if 97 <= code && code <= 122 && i >= 47 {
            proof {
                lemma_first_error_skip(t@, i as int);
            }
            return Err(LayoutError::MisplacedLowercase(c));
        }
        if 65 <= code && code <= 90 && i < 47 {
            proof {
                lemma_first_error_skip(t@, i as int);
            }
            return Err(LayoutError::MisplacedUppercase(c));
        }
        let ci = (code - 32) as u8;
        assert(code as int == c as int);
        assert(1 <= ci as int == c as int - 32 < 95);
        if l[ci as usize] != 0 {
            proof {
                assert(placed(t@, i as int, ci as int));
                let j = choose|j: int| 0 <= j < i && (#[trigger] t@[j]) as int - 32 == ci as int;
                assert(t@[j] as int == c as int);
                lemma_char_eq(t@[j], c);
                assert(t@[j] == c);
                lemma_first_error_skip(t@, i as int);
            }
            return Err(LayoutError::DuplicateChar(c));
        }
        proof {
            if exists|j: int| 0 <= j < i && t@[j] == c {
                let j = choose|j: int| 0 <= j < i && t@[j] == c;
                assert(t@[j] as int - 32 == ci as int);
                assert(placed(t@, i as int, ci as int));
                assert(l@[ci as int] as int == j + 1);
            }
            assert(position_error(t@, i as int) is None);
        }
        let ghost l0 = l@;
        l[ci as usize] = (i + 1) as u8;
        let ghost l1 = l@;
        l[96 + i] = ci;
        proof {
            assert(l1 == l0.update(ci as int, (i + 1) as u8));
            assert(l@ == l1.update(96 + i as int, ci));
            assert(l@[96 + i as int] == ci);
            assert(l@[ci as int] as int == i + 1);
            assert(t@[i as int] as int - 32 == ci as int);
            assert forall|j: int|
                0 <= j <= i as int implies #[trigger] l@[t@[j] as int - 32] as int == j + 1 by {
                let idx = t@[j] as int - 32;
                if j < i as int {
                    assert(position_error(t@, j) is None);
                    assert(33 <= t@[j] as int <= 126);
                    assert(l0[idx] as int == j + 1);
                    assert(idx != ci as int);
                    assert(idx != 96 + i as int);
                    assert(l@[idx] == l1[idx]);
                    assert(l1[idx] == l0[idx]);
                } else {
                    assert(idx == ci as int);
                    assert(l@[ci as int] as int == i + 1);
                }
            }
            assert forall|c2: int|
                1 <= c2 < 95 && !(#[trigger] placed(t@, i + 1, c2)) implies l@[c2] == 0 by {
                assert(!placed(t@, i as int, c2));
                assert(c2 != ci as int) by {
                    assert(placed(t@, i + 1, ci as int));
                }
            }
        }
        i = i + 1;
    }
    proof {
        lemma_first_error_skip(t@, 94);
        assert(first_error_from(t@, 0) is None);
        assert forall|i: int| 0 <= i < 94 implies 33 <= #[trigger] t@[i] as int <= 126 by {
            assert(position_error(t@, i) is None);
        }
        assert forall|i: int, j: int| 0 <= i < j < 94 implies t@[i] != t@[j] by {
            assert(position_error(t@, j) is None);
        }
        lemma_distinct_covers(t@);
        assert forall|c: int| 0 <= c < 95 implies #[trigger] l@[c] < 95 && l@[95 + l@[c]] == c by {
            if c == 0 {
                assert(l@[0] == 0);
            } else {
                assert(placed(t@, 94, c));
                let i = choose|i: int| 0 <= i < 94 && t@[i] as int - 32 == c;
                assert(l@[c] as int == i + 1);
                assert(l@[96 + i] as int == c);
            }
        }
        assert forall|a: int| 0 <= a < 95 implies #[trigger] l@[95 + a] < 95 && l@[l@[95 + a] as int]
            == a by {
            if a == 0 {
                assert(l@[95] == 0);
            } else {
                assert(l@[96 + (a - 1)] as int == t@[a - 1] as int - 32);
                assert(position_error(t@, a - 1) is None);
                assert(l@[t@[a - 1] as int - 32] as int == a);
            }
        }
        assert forall|c: int| 65 <= c < 91 implies #[trigger] l@[c] <= 47 by {
            assert(placed(t@, 94, c));
            let i = choose|i: int| 0 <= i < 94 && t@[i] as int - 32 == c;
            assert(position_error(t@, i) is None);
            assert(97 <= t@[i] as int <= 122);
            assert(i < 47);
            assert(l@[c] as int == i + 1);
        }
        assert forall|c: int| 33 <= c < 59 implies #[trigger] l@[c] > 47 by {
            assert(placed(t@, 94, c));
            let i = choose|i: int| 0 <= i < 94 && t@[i] as int - 32 == c;
            assert(position_error(t@, i) is None);
            assert(65 <= t@[i] as int <= 90);
            assert(i >= 47);
            assert(l@[c] as int == i + 1);
        }
    }
    Ok(l)
}

/// Parse the layout text form: whitespace is ignored, and the i-th
/// remaining character (0-based) is placed on action i + 1.  Succeeds
/// exactly on inputs whose whitespace-free form is a 94-character
/// layout string, and returns the leftmost violation otherwise.
pub fn layout_from_string(s: &str) -> (r: Result<Vec<u8>, LayoutError>)
    ensures
        match r {
            Ok(l) => parsed_from(l@, strip_ws(s@)) && layout_string_ok(strip_ws(s@)),
            Err(e) => if strip_ws(s@).len() != 94 {
                e == LayoutError::WrongLength(strip_ws(s@).len() as usize)
            } else {
                first_error_from(strip_ws(s@), 0) == Some(e)
            },
        },
        r is Ok <==> layout_string_ok(strip_ws(s@)),
{
    let t = strip_whitespace(s);
    if t.len() != 94 {
        return Err(LayoutError::WrongLength(t.len()));
    }
    build_layout(&t)
}

/// Validate a layout string in the whitespace-free form used by the
/// diagram files: exactly 94 characters, each placed directly.
/// Succeeds exactly on 94-character layout strings and reports the
/// leftmost violation otherwise.
pub fn assert_valid_layout_string(s: &str) -> (r: Result<(), LayoutError>)
    ensures
        r is Ok <==> layout_string_ok(s@),
        match r {
            Ok(()) => true,
            Err(e) => if s@.len() != 94 {
                e == LayoutError::WrongLength(s@.len() as usize)
            } else {
                first_error_from(s@, 0) == Some(e)
            },
        },
{
    let n = s.unicode_len();
    let mut t: Vec<char> = Vec::new();
    let mut i: usize = 0;
    while i < n
        invariant
            i <= n,
            n == s@.len(),
            t@ == s@.subrange(0, i as int),
        decreases n - i,
    {
        t.push(s.get_char(i));
        proof {
            assert(t@ =~= s@.subrange(0, i + 1));
        }
        i = i + 1;
    }
    proof {
        assert(t@ =~= s@);
    }
    if t.len() != 94 {
        return Err(LayoutError::WrongLength(t.len()));
    }
    match build_layout(&t) {
        Ok(_) => Ok(()),
        Err(e) => Err(e),
    }
}

/// Serialize a layout back to its 94-byte text form (the character of
/// each action, in action order, with no separators).
pub fn layout_to_bytes(l: &Vec<u8>) -> (r: Vec<u8>)
    requires
        bijective_layout(l@),
    ensures
        r@ == serialized(l@),
{
    let mut r: Vec<u8> = Vec::new();
    let mut a: usize = 1;
    while a < 95
        invariant
            1 <= a <= 95,
            l@.len() == 190,
            forall|k: int| 0 <= k < 95 ==> #[trigger] l@[95 + k] < 95,
            r@.len() == a - 1,
            forall|j: int| 0 <= j < a - 1 ==> #[trigger] r@[j] == serialized(l@)[j],
        decreases 95 - a,
    {
        r.push(l[95 + a] + 32);
        a = a + 1;
    }
    proof {
        assert(r@ =~= serialized(l@));
    }
    r
}

/// The first broken forward entry at or after character `c`: each
/// entry must name an action below 95 whose inverse names the
/// character back.
pub open spec fn forward_check_error(l: Seq<u8>, c: int) -> Option<LayoutError>
    decreases 95 - c,
{
    if c < 0 || c >= 95 {
        None
    } else if l[c] >= 95 {
        Some(LayoutError::EntryOutOfRange(c as usize))
    } else if l[95 + l[c]] != c {
        Some(LayoutError::NotInverse(c as usize))
    } else {
        forward_check_error(l, c + 1)
    }
}

/// The first broken inverse entry at or after action `a`.
pub open spec fn inverse_check_error(l: Seq<u8>, a: int) -> Option<LayoutError>
    decreases 95 - a,
{
    if a < 0 || a >= 95 {
        None
    } else if l[95 + a] >= 95 {
        Some(LayoutError::EntryOutOfRange((95 + a) as usize))
    } else if l[l[95 + a] as int] != a {
        Some(LayoutError::NotInverse((95 + a) as usize))
    } else {
        inverse_check_error(l, a + 1)
    }
}

/// The first lowercase letter on a shifted action, at or after
/// character `c`.
pub open spec fn lowercase_check_error(l: Seq<u8>, c: int) -> Option<LayoutError>
    decreases 91 - c,
{
    if c < 65 || c >= 91 {
        None
    } else if l[c] > 47 {
        Some(LayoutError::MisplacedLowercase(((c + 32) as u8) as char))
    } else {
        lowercase_check_error(l, c + 1)
    }
}

/// The first uppercase letter on a plain action, at or after
/// character `c`.
pub open spec fn uppercase_check_error(l: Seq<u8>, c: int) -> Option<LayoutError>
    decreases 59 - c,
{
    if c < 33 || c >= 59 {
        None
    } else if l[c] <= 47 {
        Some(LayoutError::MisplacedUppercase(((c + 32) as u8) as char))
    } else {
        uppercase_check_error(l, c + 1)
    }
}

/// The first violated clause of the layout invariant, in check
/// order: the array shape, the space pins, the forward half, the
/// inverse half, then the case placement of the letters.
pub open spec fn layout_check_error(l: Seq<u8>) -> Option<LayoutError> {
    if l.len() != 190 {
        Some(LayoutError::WrongArrayLength(l.len() as usize))
    } else if l[0] != 0 || l[95] != 0 {
        Some(LayoutError::SpaceNotPinned)
    } else if forward_check_error(l, 0) is Some {
        forward_check_error(l, 0)
    } else if inverse_check_error(l, 0) is Some {
        inverse_check_error(l, 0)
    } else if lowercase_check_error(l, 65) is Some {
        lowercase_check_error(l, 65)
    } else {
        uppercase_check_error(l, 33)
    }
}

/// If the first `c` forward entries are sound, the overall forward
/// scan is the scan from `c` on.
proof fn lemma_forward_check_skip(l: Seq<u8>, c: int)
    requires
        0 <= c <= 95,
        forall|j: int| 0 <= j < c ==> #[trigger] l[j] < 95 && l[95 + l[j]] == j,
    ensures
        forward_check_error(l, 0) == forward_check_error(l, c),
    decreases c,
{
    if c > 0 {
        lemma_forward_check_skip(l, c - 1);
    }
}

/// If the first `a` inverse entries are sound, the overall inverse
/// scan is the scan from `a` on.
proof fn lemma_inverse_check_skip(l: Seq<u8>, a: int)
    requires
        0 <= a <= 95,
        forall|k: int| 0 <= k < a ==> #[trigger] l[95 + k] < 95 && l[l[95 + k] as int] == k,
    ensures
        inverse_check_error(l, 0) == inverse_check_error(l, a),
    decreases a,
{
    if a > 0 {
        lemma_inverse_check_skip(l, a - 1);
    }
}

/// If the lowercase letters below `c` are well placed, the overall
/// lowercase scan is the scan from `c` on.
proof fn lemma_lowercase_check_skip(l: Seq<u8>, c: int)
    requires
        65 <= c <= 91,
        forall|j: int| 65 <= j < c ==> #[trigger] l[j] <= 47,
    ensures
        lowercase_check_error(l, 65) == lowercase_check_error(l, c),
    decreases c,
{
    if c > 65 {
        lemma_lowercase_check_skip(l, c - 1);
    }
}

/// If the uppercase letters below `c` are well placed, the overall
/// uppercase scan is the scan from `c` on.
proof fn lemma_uppercase_check_skip(l: Seq<u8>, c: int)
    requires
        33 <= c <= 59,
        forall|j: int| 33 <= j < c ==> #[trigger] l[j] > 47,
    ensures
        uppercase_check_error(l, 33) == uppercase_check_error(l, c),
    decreases c,
{
    if c > 33 {
        lemma_uppercase_check_skip(l, c - 1);
    }
}

/// Check every clause of the layout invariant in order, reporting
/// exactly the first that fails.  Returns `Ok` exactly on valid
/// layouts.
pub fn assert_valid_layout(l: &Vec<u8>) -> (r: Result<(), LayoutError>)
    ensures
        r is Ok <==> valid_layout(l@),
        match r {
            Ok(()) => layout_check_error(l@) is None,
            Err(e) => layout_check_error(l@) == Some(e),
        },
{
    if l.len() != 190 {
        return Err(LayoutError::WrongArrayLength(l.len()));
    }
    if l[0] != 0 || l[95] != 0 {
        return Err(LayoutError::SpaceNotPinned);
    }
    let mut c: usize = 0;
    while c < 95
        invariant
            c <= 95,
            l@.len() == 190,
            l@[0] == 0,
            l@[95] == 0,
            forall|j: int| 0 <= j < c ==> #[trigger] l@[j] < 95 && l@[95 + l@[j]] == j,
        decreases 95 - c,
    {
        if l[c] >= 95 {
            proof {
                lemma_forward_check_skip(l@, c as int);
            }
            return Err(LayoutError::EntryOutOfRange(c));
        }
        if l[95 + l[c] as usize] as usize != c {
            proof {
                lemma_forward_check_skip(l@, c as int);
            }
            return Err(LayoutError::NotInverse(c));
        }
        c = c + 1;
    }
    proof {
        lemma_forward_check_skip(l@, 95);
    }
    let mut a: usize = 0;
    while a < 95
        invariant
            a <= 95,
            l@.len() == 190,
            l@[0] == 0,
            l@[95] == 0,
            forall|j: int| 0 <= j < 95 ==> #[trigger] l@[j] < 95 && l@[95 + l@[j]] == j,
            forall|k: int| 0 <= k < a ==> #[trigger] l@[95 + k] < 95 && l@[l@[95 + k] as int] == k,
        decreases 95 - a,
    {
        if l[95 + a] >= 95 {
            proof {
                lemma_forward_check_skip(l@, 95);
                lemma_inverse_check_skip(l@, a as int);
            }
            return Err(LayoutError::EntryOutOfRange(95 + a));
        }
        if l[l[95 + a] as usize] as usize != a {
            proof {
                lemma_forward_check_skip(l@, 95);
                lemma_inverse_check_skip(l@, a as int);
            }
            return Err(LayoutError::NotInverse(95 + a));
        }
        a = a + 1;
    }
    proof {
        lemma_inverse_check_skip(l@, 95);
    }
    let mut c: usize = 65;
    while c < 91
        invariant
            65 <= c <= 91,
            l@.len() == 190,
            l@[0] == 0,
            l@[95] == 0,
            forall|j: int| 0 <= j < 95 ==> #[trigger] l@[j] < 95 && l@[95 + l@[j]] == j,
            forall|k: int| 0 <= k < 95 ==> #[trigger] l@[95 + k] < 95 && l@[l@[95 + k] as int] == k,
            forall|j: int| 65 <= j < c ==> #[trigger] l@[j] <= 47,
        decreases 91 - c,
    {
        if l[c] > 47 {
            proof {
                lemma_forward_check_skip(l@, 95);
                lemma_inverse_check_skip(l@, 95);
                lemma_lowercase_check_skip(l@, c as int);
            }
            return Err(LayoutError::MisplacedLowercase(((c + 32) as u8) as char));
        }
        c = c + 1;
    }
    proof {
        lemma_lowercase_check_skip(l@, 91);
    }
    let mut c: usize = 33;
    while c < 59
        invariant
            33 <= c <= 59,
            l@.len() == 190,
            l@[0] == 0,
            l@[95] == 0,
            forall|j: int| 0 <= j < 95 ==> #[trigger] l@[j] < 95 && l@[95 + l@[j]] == j,
            forall|k: int| 0 <= k < 95 ==> #[trigger] l@[95 + k] < 95 && l@[l@[95 + k] as int] == k,
            forall|j: int| 65 <= j < 91 ==> #[trigger] l@[j] <= 47,
            forall|j: int| 33 <= j < c ==> #[trigger] l@[j] > 47,
        decreases 59 - c,
    {
        if l[c] <= 47 {
            proof {
                lemma_forward_check_skip(l@, 95);
                lemma_inverse_check_skip(l@, 95);
                lemma_lowercase_check_skip(l@, 91);
                lemma_uppercase_check_skip(l@, c as int);
            }
            return Err(LayoutError::MisplacedUppercase(((c + 32) as u8) as char));
        }
        c = c + 1;
    }
    proof {
        lemma_forward_check_skip(l@, 95);
        lemma_inverse_check_skip(l@, 95);
        lemma_lowercase_check_skip(l@, 91);
        lemma_uppercase_check_skip(l@, 59);
    }
    Ok(())
}

/// The characters that corpus and layout files may contain: printable
/// ASCII plus tab, line feed and carriage return.
pub open spec fn allowed_char(c: char) -> bool {
    (32 <= c as int && c as int <= 126) || c as int == 10 || c as int == 13 || c as int == 9
}

/// How many line feeds occur before position `end`.
pub open spec fn newline_count(s: Seq<char>, end: int) -> int
    decreases end,
{
    if end <= 0 {
        0
    } else {
        newline_count(s, end - 1) + if s[end - 1] as int == 10 {
            1int
        } else {
            0int
        }
    }
}

/// Check that the text stays within the allowed ASCII subset.  On the
/// first character outside it, report that character and its
/// one-based line number.
pub fn check_valid_ascii_subset(s: &str) -> (r: Result<(), (char, usize)>)
    ensures
        r is Ok <==> (forall|i: int| 0 <= i < s@.len() ==> allowed_char(#[trigger] s@[i])),
        match r {
            Ok(()) => true,
            Err((c, line)) => exists|i: int|
                0 <= i < s@.len() && #[trigger] s@[i] == c && !allowed_char(c) && (forall|j: int|
                    0 <= j < i ==> allowed_char(#[trigger] s@[j])) && line == newline_count(s@, i)
                    + 1,
        },
{
    let n = s.unicode_len();
    let mut i: usize = 0;
    while i < n
        invariant
            i <= n,
            n == s@.len(),
            forall|j: int| 0 <= j < i ==> allowed_char(#[trigger] s@[j]),
        decreases n - i,
    {
        let c = s.get_char(i);
        proof {
            lemma_char_code(c);
        }
        let code = c as u32;
        if !((32 <= code && code <= 126) || code == 10 || code == 13 || code == 9) {
            let mut line: usize = 1;
            let mut j: usize = 0;
            while j < i
                invariant
                    j <= i,
                    i < n,
                    n == s@.len(),
                    line == newline_count(s@, j as int) + 1,
                    line <= j + 1,
                decreases i - j,
            {
                let cj = s.get_char(j);
                proof {
                    lemma_char_code(cj);
                    if cj as int == 10 {
                        lemma_char_eq(cj, '\n');
                    }
                }
                if cj == '\n' {
                    line = line + 1;
                }
                j = j + 1;
            }
            return Err((c, line));
        }
        i = i + 1;
    }
    Ok(())
}

/// Report whether every letter pair shares a single key.
pub fn letter_pairs_aligned_check(l: &Vec<u8>) -> (r: bool)
    requires
        l@.len() == 190,
    ensures
        r == letter_pairs_aligned(l@),
{
    let mut c: usize = 65;
    let mut ok = true;
    while c < 91
        invariant
            65 <= c <= 91,
            l@.len() == 190,
            ok == forall|j: int| 65 <= j < c ==> #[trigger] l@[j - 32] == l@[j] + 47,
        decreases 91 - c,
    {
        if l[c - 32] as usize != l[c] as usize + 47 {
            ok = false;
        }
        c = c + 1;
    }
    ok
}

/// The QWERTY layout in text form.
pub fn qwerty_string() -> &'static str {
    "
 `1234567890-=
  qwertyuiop[]\\
   asdfghjkl;'
    zxcvbnm,./
 ~!@#$%^&*()_+
  QWERTYUIOP{}|
   ASDFGHJKL:\"
    ZXCVBNM<>?"
}

/// The Dvorak layout in text form.
pub fn dvorak_string() -> &'static str {
    "
`1234567890[]
  ',.pyfgcrl/=\\
   aoeuidhtns-
    ;qjkxbmwvz
~!@#$%^&*(){}
  \"<>PYFGCRL?+|
   AOEUIDHTNS_
    :QJKXBMWVZ"
}

/// The Colemak layout in text form.
pub fn colemak_string() -> &'static str {
    "
`1234567890-=
  qwfpgjluy;[]\\
   arstdhneio'
    zxcvbkm,./
~!@#$%^&*()_+
  QWFPGJLUY:{}|
   ARSTDHNEIO\"
    ZXCVBKM<>?"
}

/// The Workman layout in text form.
pub fn workman_string() -> &'static str {
    "
`1234567890-=
  qdrwbjfup;[]\\
   ashtgyneoi'
    zxmcvkl,./
~!@#$%^&*()_+
  QDRWBJFUP:{}|
   ASHTGYNEOI\"
    ZXMCVKL<>?"
}

/// An early hand-made layout, in text form.
pub fn proto_1_string() -> &'static str {
    "
|12345%~67890
  vyd,'+jmlu_(*
   atheb=csnoi
    pkgwqxrf.z
`^&/}<#@!:{]$
  VYD?\">JMLU-;\\
   ATHEB[CSNOI
    PKGWQXRF)Z"
}

/// The White layout in text form.
pub fn white_string() -> &'static str {
    "
#12345@$67890
  vyd,'_jmlu()=
   atheb-csnoi
    pkgwqxrf.z
`!<>/|~%\\*[]^
  VYD;\"&JMLU{}?
   ATHEB+CSNOI
    PKGWQXRF:Z"
}

/// The layout the search starts from when no checkpoint exists.
pub fn initial_layout_string() -> &'static str {
    white_string()
}

} // verus!
