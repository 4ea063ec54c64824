//! The constrained swap neighborhood.
//!
//! The search mutates a layout only through swaps of one of three
//! classes: exchanging two non-letter symbols, exchanging two of the
//! eight home keys, or exchanging two letter keys.  Every class
//! preserves the layout invariants; key swaps move both the plain and
//! the shifted symbol of each key, so letter pairs stay together.

use vstd::prelude::*;
use vstd::multiset::Multiset;
use crate::layout::{bijective_layout, case_aligned, letter_pairs_aligned, valid_layout};

verus! {

/// The contents of two positions exchanged.
pub open spec fn exchanged(l: Seq<u8>, i: int, j: int) -> Seq<u8> {
    l.update(i, l[j]).update(j, l[i])
}

/// The layout after the symbols `s1` and `s2` trade their actions:
/// both halves of the bijection are updated.
pub open spec fn symbol_swapped(l: Seq<u8>, s1: u8, s2: u8) -> Seq<u8> {
    let k1 = l[s1 as int];
    let k2 = l[s2 as int];
    exchanged(exchanged(l, s1 as int, s2 as int), 95 + k1 as int, 95 + k2 as int)
}

/// The layout after the keys `k1` and `k2` trade both their plain and
/// their shifted symbols.
pub open spec fn key_swapped(l: Seq<u8>, k1: u8, k2: u8) -> Seq<u8> {
    let s1 = l[95 + k1 as int];
    let s2 = l[95 + k2 as int];
    let ss1 = l[142 + k1 as int];
    let ss2 = l[142 + k2 as int];
    exchanged(
        exchanged(
            exchanged(exchanged(l, 95 + k1 as int, 95 + k2 as int), s1 as int, s2 as int),
            142 + k1 as int,
            142 + k2 as int,
        ),
        ss1 as int,
        ss2 as int,
    )
}

/// Character indices of letters: 'A'..='Z' are 33..=58, 'a'..='z' are
/// 65..=90.
pub open spec fn is_letter_index(s: u8) -> bool {
    (33 <= s < 59) || (65 <= s < 91)
}

/// Pointwise description of a symbol swap on a well-formed layout:
/// when the symbols differ it changes exactly the four bytes naming
/// the two symbols' actions and the two actions' symbols, and no
/// other.
pub proof fn lemma_symbol_swap_shape(l: Seq<u8>, s1: u8, s2: u8)
    requires
        bijective_layout(l),
        1 <= s1 < 95,
        1 <= s2 < 95,
    ensures
        ({
            let m = symbol_swapped(l, s1, s2);
            let k1 = l[s1 as int];
            let k2 = l[s2 as int];
            &&& m.len() == 190
            &&& 1 <= k1 < 95
            &&& 1 <= k2 < 95
            &&& m[s1 as int] == k2
            &&& m[s2 as int] == k1
            &&& m[95 + k1 as int] == s2
            &&& m[95 + k2 as int] == s1
            &&& forall|x: int|
                0 <= x < 190 && x != s1 && x != s2 && x != 95 + k1 && x != 95 + k2
                    ==> m[x] == l[x]
        }),
{
    let k1 = l[s1 as int];
    let k2 = l[s2 as int];
    assert(l[95 + k1 as int] == s1);
    assert(l[95 + k2 as int] == s2);
    assert(k1 != 0) by {
        if k1 == 0 {
            assert(l[95] == 0);
        }
    }
    assert(k2 != 0) by {
        if k2 == 0 {
            assert(l[95] == 0);
        }
    }
}

/// A symbol swap keeps the layout bijective; when the swapped symbols
/// are not letters it also keeps the case and letter-pair invariants.
pub proof fn lemma_symbol_swap_valid(l: Seq<u8>, s1: u8, s2: u8)
    requires
        bijective_layout(l),
        1 <= s1 < 95,
        1 <= s2 < 95,
    ensures
        bijective_layout(symbol_swapped(l, s1, s2)),
        case_aligned(l) && !is_letter_index(s1) && !is_letter_index(s2) ==> case_aligned(
            symbol_swapped(l, s1, s2),
        ),
        letter_pairs_aligned(l) && !is_letter_index(s1) && !is_letter_index(s2)
            ==> letter_pairs_aligned(symbol_swapped(l, s1, s2)),
{
    lemma_symbol_swap_shape(l, s1, s2);
    let m = symbol_swapped(l, s1, s2);
    let k1 = l[s1 as int];
    let k2 = l[s2 as int];
    assert forall|c: int| 0 <= c < 95 implies #[trigger] m[c] < 95 && m[95 + m[c]] == c by {
        if c == s1 {
        } else if c == s2 {
        } else {
            assert(m[c] == l[c]);
            assert(l[c] != k1 && l[c] != k2) by {
                if l[c] == k1 {
                    assert(l[95 + l[c]] == c);
                }
                if l[c] == k2 {
                    assert(l[95 + l[c]] == c);
                }
            }
        }
    }
    assert forall|a: int| 0 <= a < 95 implies #[trigger] m[95 + a] < 95 && m[m[95 + a] as int]
        == a by {
        if a == k1 {
        } else if a == k2 {
        } else {
            assert(m[95 + a] == l[95 + a]);
            assert(l[95 + a] != s1 && l[95 + a] != s2) by {
                if l[95 + a] == s1 {
                    assert(l[l[95 + a] as int] == a);
                }
                if l[95 + a] == s2 {
                    assert(l[l[95 + a] as int] == a);
                }
            }
        }
    }
    if case_aligned(l) && !is_letter_index(s1) && !is_letter_index(s2) {
        assert forall|c: int| 65 <= c < 91 implies #[trigger] m[c] <= 47 by {
            assert(m[c] == l[c]);
        }
        assert forall|c: int| 33 <= c < 59 implies #[trigger] m[c] > 47 by {
            assert(m[c] == l[c]);
        }
    }
    if letter_pairs_aligned(l) && !is_letter_index(s1) && !is_letter_index(s2) {
        assert forall|c: int| 65 <= c < 91 implies #[trigger] m[c - 32] == m[c] + 47 by {
            assert(m[c] == l[c]);
            assert(m[c - 32] == l[c - 32]);
        }
    }
}

/// Applying the same symbol swap twice restores the layout exactly.
pub proof fn lemma_symbol_swap_involution(l: Seq<u8>, s1: u8, s2: u8)
    requires
        bijective_layout(l),
        1 <= s1 < 95,
        1 <= s2 < 95,
    ensures
        symbol_swapped(symbol_swapped(l, s1, s2), s1, s2) == l,
{
    lemma_symbol_swap_shape(l, s1, s2);
    lemma_symbol_swap_valid(l, s1, s2);
    let m = symbol_swapped(l, s1, s2);
    lemma_symbol_swap_shape(m, s1, s2);
    let mm = symbol_swapped(m, s1, s2);
    let k1 = l[s1 as int];
    let k2 = l[s2 as int];
    assert forall|x: int| 0 <= x < 190 implies mm[x] == l[x] by {
        if x == s1 {
        } else if x == s2 {
        } else if x == 95 + k1 {
        } else if x == 95 + k2 {
        } else {
            assert(m[x] == l[x]);
        }
    }
    assert(mm =~= l);
}

/// Pointwise description of a key swap on a well-formed layout: when
/// the keys differ it changes exactly the eight bytes naming the two
/// keys' plain and shifted symbols and those four symbols' actions,
/// and no other.
pub proof fn lemma_key_swap_shape(l: Seq<u8>, k1: u8, k2: u8)
    requires
        bijective_layout(l),
        1 <= k1 < 48,
        1 <= k2 < 48,
    ensures
        ({
            let m = key_swapped(l, k1, k2);
            let s1 = l[95 + k1 as int];
            let s2 = l[95 + k2 as int];
            let ss1 = l[142 + k1 as int];
            let ss2 = l[142 + k2 as int];
            &&& m.len() == 190
            &&& 1 <= s1 < 95 && 1 <= s2 < 95 && 1 <= ss1 < 95 && 1 <= ss2 < 95
            &&& l[s1 as int] == k1 && l[s2 as int] == k2
            &&& l[ss1 as int] == 47 + k1 && l[ss2 as int] == 47 + k2
            &&& m[95 + k1 as int] == s2
            &&& m[95 + k2 as int] == s1
            &&& m[142 + k1 as int] == ss2
            &&& m[142 + k2 as int] == ss1
            &&& m[s1 as int] == k2
            &&& m[s2 as int] == k1
            &&& m[ss1 as int] == 47 + k2
            &&& m[ss2 as int] == 47 + k1
            &&& forall|x: int|
                0 <= x < 190 && x != s1 && x != s2 && x != ss1 && x != ss2 && x != 95 + k1 && x != 95
                    + k2 && x != 142 + k1 && x != 142 + k2 ==> m[x] == l[x]
        }),
{
    let s1 = l[95 + k1 as int];
    let s2 = l[95 + k2 as int];
    let ss1 = l[142 + k1 as int];
    let ss2 = l[142 + k2 as int];
    assert(l[s1 as int] == k1) by {
        assert(l[l[95 + k1 as int] as int] == k1 as int);
    }
    assert(l[s2 as int] == k2) by {
        assert(l[l[95 + k2 as int] as int] == k2 as int);
    }
    assert(l[ss1 as int] == 47 + k1) by {
        assert(l[l[95 + (47 + k1) as int] as int] == 47 + k1 as int);
    }
    assert(l[ss2 as int] == 47 + k2) by {
        assert(l[l[95 + (47 + k2) as int] as int] == 47 + k2 as int);
    }
    assert(s1 != 0) by {
        if s1 == 0 {
            assert(l[0] == 0);
        }
    }
    assert(s2 != 0) by {
        if s2 == 0 {
            assert(l[0] == 0);
        }
    }
    assert(ss1 != 0) by {
        if ss1 == 0 {
            assert(l[0] == 0);
        }
    }
    assert(ss2 != 0) by {
        if ss2 == 0 {
            assert(l[0] == 0);
        }
    }
    if k1 != k2 {
        assert(s1 != s2);
        assert(ss1 != ss2);
    }
    assert(s1 != ss1 && s1 != ss2 && s2 != ss1 && s2 != ss2);
    assert(ss1 < 95 && ss2 < 95) by {
        let a1 = 47 + k1 as int;
        let a2 = 47 + k2 as int;
        assert(l[95 + a1] < 95);
        assert(l[95 + a2] < 95);
        assert(95 + a1 == 142 + k1 as int);
        assert(95 + a2 == 142 + k2 as int);
    }
    let m1 = exchanged(l, 95 + k1 as int, 95 + k2 as int);
    let m2 = exchanged(m1, s1 as int, s2 as int);
    let m3 = exchanged(m2, 142 + k1 as int, 142 + k2 as int);
    let m = exchanged(m3, ss1 as int, ss2 as int);
    assert(m == key_swapped(l, k1, k2));
    assert(m1[95 + k1 as int] == s2 && m1[95 + k2 as int] == s1);
    assert(forall|x: int| 0 <= x < 190 && x != 95 + k1 && x != 95 + k2 ==> m1[x] == l[x]);
    assert(m2[s1 as int] == k2 && m2[s2 as int] == k1);
    assert(forall|x: int| 0 <= x < 190 && x != s1 && x != s2 ==> m2[x] == m1[x]);
    assert(m3[142 + k1 as int] == ss2 && m3[142 + k2 as int] == ss1);
    assert(forall|x: int| 0 <= x < 190 && x != 142 + k1 && x != 142 + k2 ==> m3[x] == m2[x]);
    assert(m[ss1 as int] == 47 + k2 && m[ss2 as int] == 47 + k1);
    assert(forall|x: int| 0 <= x < 190 && x != ss1 && x != ss2 ==> m[x] == m3[x]);
    assert(m[95 + k1 as int] == s2);
    assert(m[95 + k2 as int] == s1);
    assert(m[142 + k1 as int] == ss2);
    assert(m[142 + k2 as int] == ss1);
    assert(m[s1 as int] == k2);
    assert(m[s2 as int] == k1);
}

/// A key swap keeps the layout bijective and case-aligned, and keeps
/// letter pairs together.
pub proof fn lemma_key_swap_valid(l: Seq<u8>, k1: u8, k2: u8)
    requires
        bijective_layout(l),
        1 <= k1 < 48,
        1 <= k2 < 48,
    ensures
        bijective_layout(key_swapped(l, k1, k2)),
        case_aligned(l) ==> case_aligned(key_swapped(l, k1, k2)),
        letter_pairs_aligned(l) ==> letter_pairs_aligned(key_swapped(l, k1, k2)),
{
    lemma_key_swap_shape(l, k1, k2);
    let m = key_swapped(l, k1, k2);
    let s1 = l[95 + k1 as int];
    let s2 = l[95 + k2 as int];
    let ss1 = l[142 + k1 as int];
    let ss2 = l[142 + k2 as int];
    assert forall|c: int| 0 <= c < 95 implies #[trigger] m[c] < 95 && m[95 + m[c]] == c by {
        if c == s1 {
        } else if c == s2 {
        } else if c == ss1 {
        } else if c == ss2 {
        } else {
            assert(m[c] == l[c]);
            assert(l[c] != k1 && l[c] != k2 && l[c] != 47 + k1 && l[c] != 47 + k2) by {
                assert(l[95 + l[c]] == c);
            }
        }
    }
    assert forall|a: int| 0 <= a < 95 implies #[trigger] m[95 + a] < 95 && m[m[95 + a] as int]
        == a by {
        if a == k1 {
        } else if a == k2 {
        } else if a == 47 + k1 {
        } else if a == 47 + k2 {
        } else {
            assert(m[95 + a] == l[95 + a]);
            assert(l[95 + a] != s1 && l[95 + a] != s2 && l[95 + a] != ss1 && l[95 + a] != ss2) by {
                assert(l[l[95 + a] as int] == a);
            }
        }
    }
    if case_aligned(l) {
        assert forall|c: int| 65 <= c < 91 implies #[trigger] m[c] <= 47 by {
            if c == s1 || c == s2 {
            } else {
                assert(c != ss1 && c != ss2) by {
                    assert(l[ss1 as int] == 47 + k1);
                    assert(l[ss2 as int] == 47 + k2);
                }
                assert(m[c] == l[c]);
            }
        }
        assert forall|c: int| 33 <= c < 59 implies #[trigger] m[c] > 47 by {
            if c == ss1 || c == ss2 {
            } else {
                assert(c != s1 && c != s2) by {
                    assert(l[s1 as int] == k1);
                    assert(l[s2 as int] == k2);
                }
                assert(m[c] == l[c]);
            }
        }
    }
    if letter_pairs_aligned(l) {
        assert forall|c: int| 65 <= c < 91 implies #[trigger] m[c - 32] == m[c] + 47 by {
            assert(l[c - 32] == l[c] + 47);
            if c == s1 {
                assert(l[c] == k1);
                assert(l[c - 32] == 47 + k1);
                assert(c - 32 == ss1) by {
                    assert(l[95 + l[c - 32]] == c - 32);
                }
            } else if c == s2 {
                assert(c - 32 == ss2) by {
                    assert(l[95 + l[c - 32]] == c - 32);
                }
            } else {
                assert(c != ss1 && c != ss2) by {
                    assert(l[ss1 as int] == 47 + k1);
                    assert(l[ss2 as int] == 47 + k2);
                }
                assert(m[c] == l[c]);
                assert(c - 32 != s1 && c - 32 != s2) by {
                    if c - 32 == s1 {
                        assert(l[c - 32] == k1);
                        assert(l[95 + l[c]] == c);
                    }
                    if c - 32 == s2 {
                        assert(l[c - 32] == k2);
                        assert(l[95 + l[c]] == c);
                    }
                }
                assert(c - 32 != ss1 && c - 32 != ss2 ==> m[c - 32] == l[c - 32]);
                if c - 32 == ss1 {
                    assert(l[c - 32] == 47 + k1);
                    assert(l[c] == k1);
                    assert(c == s1) by {
                        assert(l[95 + l[c]] == c);
                    }
                }
                if c - 32 == ss2 {
                    assert(l[c - 32] == 47 + k2);
                    assert(l[c] == k2);
                    assert(c == s2) by {
                        assert(l[95 + l[c]] == c);
                    }
                }
            }
        }
    }
}

/// Applying the same key swap twice restores the layout exactly.
pub proof fn lemma_key_swap_involution(l: Seq<u8>, k1: u8, k2: u8)
    requires
        bijective_layout(l),
        1 <= k1 < 48,
        1 <= k2 < 48,
    ensures
        key_swapped(key_swapped(l, k1, k2), k1, k2) == l,
{
    lemma_key_swap_shape(l, k1, k2);
    lemma_key_swap_valid(l, k1, k2);
    let m = key_swapped(l, k1, k2);
    lemma_key_swap_shape(m, k1, k2);
    let mm = key_swapped(m, k1, k2);
    let s1 = l[95 + k1 as int];
    let s2 = l[95 + k2 as int];
    let ss1 = l[142 + k1 as int];
    let ss2 = l[142 + k2 as int];
    assert forall|x: int| 0 <= x < 190 implies mm[x] == l[x] by {
        if x == s1 || x == s2 || x == ss1 || x == ss2 || x == 95 + k1 || x == 95 + k2 || x == 142
            + k1 || x == 142 + k2 {
        } else {
            assert(m[x] == l[x]);
        }
    }
    assert(mm =~= l);
}

/// Exchange the actions of two symbols, updating both halves of the
/// bijection.
pub fn apply_symbol_swap(layout: &mut Vec<u8>, s1: u8, s2: u8)
    requires
        bijective_layout(old(layout)@),
        1 <= s1 < 95,
        1 <= s2 < 95,
    ensures
        final(layout)@ == symbol_swapped(old(layout)@, s1, s2),
        bijective_layout(final(layout)@),
        case_aligned(old(layout)@) && !is_letter_index(s1) && !is_letter_index(s2) ==> case_aligned(
            final(layout)@,
        ),
        letter_pairs_aligned(old(layout)@) && !is_letter_index(s1) && !is_letter_index(s2)
            ==> letter_pairs_aligned(final(layout)@),
{
    let k1 = layout[s1 as usize];
    let k2 = layout[s2 as usize];
    let a = layout[s1 as usize];
    let b = layout[s2 as usize];
    layout[s1 as usize] = b;
    layout[s2 as usize] = a;
    let c = layout[95 + k1 as usize];
    let d = layout[95 + k2 as usize];
    layout[95 + k1 as usize] = d;
    layout[95 + k2 as usize] = c;
    proof {
        assert(layout@ =~= symbol_swapped(old(layout)@, s1, s2));
        lemma_symbol_swap_valid(old(layout)@, s1, s2);
    }
}

/// Exchange two keys: both the plain and the shifted symbol of each
/// key move together.
pub fn apply_key_swap(layout: &mut Vec<u8>, k1: u8, k2: u8)
    requires
        bijective_layout(old(layout)@),
        1 <= k1 < 48,
        1 <= k2 < 48,
    ensures
        final(layout)@ == key_swapped(old(layout)@, k1, k2),
        bijective_layout(final(layout)@),
        case_aligned(old(layout)@) ==> case_aligned(final(layout)@),
        letter_pairs_aligned(old(layout)@) ==> letter_pairs_aligned(final(layout)@),
{
    proof {
        lemma_key_swap_shape(old(layout)@, k1, k2);
    }
    let s1 = layout[95 + k1 as usize];
    let s2 = layout[95 + k2 as usize];
    let ss1 = layout[142 + k1 as usize];
    let ss2 = layout[142 + k2 as usize];
    layout[95 + k1 as usize] = s2;
    layout[95 + k2 as usize] = s1;
    let a = layout[s1 as usize];
    let b = layout[s2 as usize];
    layout[s1 as usize] = b;
    layout[s2 as usize] = a;
    let c = layout[142 + k1 as usize];
    let d = layout[142 + k2 as usize];
    layout[142 + k1 as usize] = d;
    layout[142 + k2 as usize] = c;
    let e = layout[ss1 as usize];
    let f = layout[ss2 as usize];
    layout[ss1 as usize] = f;
    layout[ss2 as usize] = e;
    proof {
        assert(layout@ =~= key_swapped(old(layout)@, k1, k2));
        lemma_key_swap_valid(old(layout)@, k1, k2);
    }
}

/// Relies on rand::random: draws a fresh value from the thread-local
/// generator; nothing is promised of the value.
pub assume_specification<T>[ rand::random::<T> ]() -> (r: T)
    where
        rand::distr::StandardUniform: rand::distr::Distribution<T>,
;

/// How many recent swaps have their participants withheld from the
/// candidate populations.
pub const NUM_TABU_SWAPS: usize = 10;

/// Character indices of the frozen symbols, which never move: the
/// digits '0'..='9' (indices 16..=25).
pub open spec fn is_frozen(s: u8) -> bool {
    16 <= s < 26
}

/// A symbol the symbol-swap class may move: any character except
/// space, letters and the frozen digits.
pub open spec fn symbol_free(s: u8) -> bool {
    1 <= s < 95 && !is_letter_index(s) && !is_frozen(s)
}

/// The eight keys under the resting fingers.
pub open spec fn is_home_key(k: u8) -> bool {
    k == 27 || k == 28 || k == 29 || k == 30 || k == 34 || k == 35 || k == 36 || k == 37
}

/// The keys the letter-key-swap class may ever touch: the keys of
/// rows two to four, minus the home eight and the four structurally
/// excluded keys.
pub open spec fn letter_class_key(k: u8) -> bool {
    14 <= k < 48 && !is_home_key(k) && k != 32 && k != 26 && k != 19 && k != 25
}

/// A home key may move when neither of its symbols is frozen.
pub open spec fn home_key_free(l: Seq<u8>, k: u8) -> bool {
    !is_frozen(l[95 + k as int]) && !is_frozen(l[142 + k as int])
}

/// A key the letter-key-swap class may move under the given layout:
/// a key of the class that carries a letter and has no frozen symbol.
pub open spec fn letter_key_eligible(l: Seq<u8>, k: u8) -> bool {
    &&& letter_class_key(k)
    &&& is_letter_index(l[95 + k as int])
    &&& !is_frozen(l[95 + k as int])
    &&& !is_frozen(l[142 + k as int])
}

/// The free symbols below index `n`, in increasing order.
pub open spec fn symbol_population_upto(n: int) -> Seq<u8>
    decreases n,
{
    if n <= 1 {
        Seq::empty()
    } else {
        symbol_population_upto(n - 1) + if symbol_free((n - 1) as u8) {
            seq![(n - 1) as u8]
        } else {
            Seq::empty()
        }
    }
}

/// The full symbol-swap population.
pub open spec fn symbol_population() -> Seq<u8> {
    symbol_population_upto(95)
}

/// The home key at position `i` of the row order.
pub open spec fn home_key_spec(i: int) -> u8 {
    if i == 0 {
        27
    } else if i == 1 {
        28
    } else if i == 2 {
        29
    } else if i == 3 {
        30
    } else if i == 4 {
        34
    } else if i == 5 {
        35
    } else if i == 6 {
        36
    } else {
        37
    }
}

/// The home keys in row order.
pub open spec fn home_keys() -> Seq<u8> {
    Seq::new(8, |i: int| home_key_spec(i))
}

/// The free home keys among the first `n`, in row order.
pub open spec fn home_population_upto(l: Seq<u8>, n: int) -> Seq<u8>
    decreases n,
{
    if n <= 0 {
        Seq::empty()
    } else {
        home_population_upto(l, n - 1) + if home_key_free(l, home_keys()[n - 1]) {
            seq![home_keys()[n - 1]]
        } else {
            Seq::empty()
        }
    }
}

/// The full home-key-swap population for a layout.
pub open spec fn home_population(l: Seq<u8>) -> Seq<u8> {
    home_population_upto(l, 8)
}

/// The eligible letter keys below key `n`, in increasing order.
pub open spec fn letter_population_upto(l: Seq<u8>, n: int) -> Seq<u8>
    decreases n,
{
    if n <= 14 {
        Seq::empty()
    } else {
        letter_population_upto(l, n - 1) + if letter_key_eligible(l, (n - 1) as u8) {
            seq![(n - 1) as u8]
        } else {
            Seq::empty()
        }
    }
}

/// The full letter-key-swap population for a layout: all eligible
/// keys of rows two to four.
pub open spec fn letter_population(l: Seq<u8>) -> Seq<u8> {
    letter_population_upto(l, 48)
}

/// One participant of a recently applied swap, tagged with its class.
#[derive(Clone, Copy, PartialEq, Eq, Structural, Debug)]
pub enum LayoutSwap {
    NoSwap,
    Symbol(u8),
    Home8K(u8),
    Letter(u8),
}

/// Why a swapper cannot be built from a layout.
#[derive(Clone, Copy, PartialEq, Eq, Structural, Debug)]
pub enum SwapperError {
    /// Fewer free participants across the classes than the tabu list
    /// can hold.
    TooFewParticipants,
}

/// The layouts `before` and `after` differ by one swap of the
/// constrained neighborhood: two distinct free symbols trade actions,
/// or two distinct home keys, or two distinct letter-class keys,
/// trade their symbol pairs.
pub open spec fn swap_outcome(before: Seq<u8>, after: Seq<u8>) -> bool {
    ||| exists|s1: u8, s2: u8|
        symbol_free(s1) && symbol_free(s2) && s1 != s2 && after == #[trigger] symbol_swapped(
            before,
            s1,
            s2,
        )
    ||| exists|k1: u8, k2: u8|
        is_home_key(k1) && is_home_key(k2) && k1 != k2 && after == #[trigger] key_swapped(
            before,
            k1,
            k2,
        )
    ||| exists|k1: u8, k2: u8|
        letter_class_key(k1) && letter_class_key(k2) && k1 != k2 && after == #[trigger] key_swapped(
            before,
            k1,
            k2,
        )
}

/// The entries one tabu slot withholds from candidate class `class`
/// (0 = symbols, 1 = home keys, 2 = letter keys).
pub open spec fn class_entry(t: LayoutSwap, class: int) -> Seq<u8> {
    match t {
        LayoutSwap::NoSwap => Seq::empty(),
        LayoutSwap::Symbol(s) => if class == 0 {
            seq![s]
        } else {
            Seq::empty()
        },
        LayoutSwap::Home8K(k) => if class == 1 {
            seq![k]
        } else {
            Seq::empty()
        },
        LayoutSwap::Letter(k) => if class == 2 {
            seq![k]
        } else {
            Seq::empty()
        },
    }
}

/// A participant tagged with the class it was drawn from.
pub open spec fn class_tag(class: int, v: u8) -> LayoutSwap {
    if class == 0 {
        LayoutSwap::Symbol(v)
    } else if class == 1 {
        LayoutSwap::Home8K(v)
    } else {
        LayoutSwap::Letter(v)
    }
}

/// The class-`class` entries withheld in the first `n` tabu slots,
/// in slot order.
pub open spec fn tabu_entries(t: Seq<LayoutSwap>, n: int, class: int) -> Seq<u8>
    decreases n,
{
    if n <= 0 {
        Seq::empty()
    } else {
        tabu_entries(t, n - 1, class) + class_entry(t[n - 1], class)
    }
}

/// Slots beyond the read prefix do not matter: extracts agree when
/// the first `n` slots agree.
proof fn lemma_tabu_entries_agree(t1: Seq<LayoutSwap>, t2: Seq<LayoutSwap>, n: int, class: int)
    requires
        forall|k: int| 0 <= k < n ==> t1[k] == t2[k],
    ensures
        tabu_entries(t1, n, class) == tabu_entries(t2, n, class),
    decreases n,
{
    if n > 0 {
        lemma_tabu_entries_agree(t1, t2, n - 1, class);
    }
}

/// A buffer of empty slots withholds nothing.
pub proof fn lemma_tabu_entries_noswap(t: Seq<LayoutSwap>, n: int, class: int)
    requires
        forall|k: int| 0 <= k < n ==> t[k] == LayoutSwap::NoSwap,
    ensures
        tabu_entries(t, n, class) == Seq::<u8>::empty(),
    decreases n,
{
    if n > 0 {
        lemma_tabu_entries_noswap(t, n - 1, class);
        assert(tabu_entries(t, n, class) =~= Seq::<u8>::empty());
    }
}

/// Overwriting one slot exchanges its contribution to the extract,
/// counted as multisets.
proof fn lemma_tabu_entries_update(t: Seq<LayoutSwap>, j: int, v: LayoutSwap, n: int, class: int)
    requires
        0 <= j < n <= t.len(),
    ensures
        tabu_entries(t.update(j, v), n, class).to_multiset().add(
            class_entry(t[j], class).to_multiset(),
        ) =~= tabu_entries(t, n, class).to_multiset().add(class_entry(v, class).to_multiset()),
    decreases n,
{
    broadcast use vstd::multiset::group_multiset_axioms;

    let t2 = t.update(j, v);
    let cv = class_entry(v, class).to_multiset();
    let ct = class_entry(t[j], class).to_multiset();
    if j == n - 1 {
        lemma_tabu_entries_agree(t2, t, n - 1, class);
        assert(tabu_entries(t2, n, class) == tabu_entries(t, n - 1, class) + class_entry(v, class));
        assert(tabu_entries(t, n, class) == tabu_entries(t, n - 1, class) + class_entry(
            t[j],
            class,
        ));
        let a = tabu_entries(t, n - 1, class).to_multiset();
        vstd::seq_lib::lemma_multiset_commutative(
            tabu_entries(t, n - 1, class),
            class_entry(v, class),
        );
        vstd::seq_lib::lemma_multiset_commutative(
            tabu_entries(t, n - 1, class),
            class_entry(t[j], class),
        );
        assert(tabu_entries(t2, n, class).to_multiset() =~= a.add(cv));
        assert(tabu_entries(t, n, class).to_multiset() =~= a.add(ct));
        assert(a.add(cv).add(ct) =~= a.add(ct).add(cv));
    } else {
        lemma_tabu_entries_update(t, j, v, n - 1, class);
        assert(t2[n - 1] == t[n - 1]);
        assert(tabu_entries(t2, n, class) == tabu_entries(t2, n - 1, class) + class_entry(
            t[n - 1],
            class,
        ));
        assert(tabu_entries(t, n, class) == tabu_entries(t, n - 1, class) + class_entry(
            t[n - 1],
            class,
        ));
        let a2 = tabu_entries(t2, n - 1, class).to_multiset();
        let a1 = tabu_entries(t, n - 1, class).to_multiset();
        let c = class_entry(t[n - 1], class).to_multiset();
        vstd::seq_lib::lemma_multiset_commutative(
            tabu_entries(t2, n - 1, class),
            class_entry(t[n - 1], class),
        );
        vstd::seq_lib::lemma_multiset_commutative(
            tabu_entries(t, n - 1, class),
            class_entry(t[n - 1], class),
        );
        assert(tabu_entries(t2, n, class).to_multiset() =~= a2.add(c));
        assert(tabu_entries(t, n, class).to_multiset() =~= a1.add(c));
        assert(a2.add(ct) =~= a1.add(cv));
        assert(a2.add(c).add(ct) =~= a1.add(c).add(cv)) by {
            assert(a2.add(ct) == a1.add(cv));
            assert forall|x: u8|
                a2.add(c).add(ct).count(x) == a1.add(c).add(cv).count(x) by {
                assert(a2.add(ct).count(x) == a1.add(cv).count(x));
            }
        }
    }
}

/// An empty byte sequence carries an empty multiset.
proof fn lemma_empty_to_multiset()
    ensures
        Seq::<u8>::empty().to_multiset() =~= Multiset::<u8>::empty(),
{
    broadcast use vstd::seq_lib::group_to_multiset_ensures, vstd::multiset::group_multiset_axioms;

    assert forall|x: u8| Seq::<u8>::empty().to_multiset().count(x) == Multiset::<u8>::empty().count(
        x,
    ) by {
        assert(!Seq::<u8>::empty().contains(x));
    }
}

/// Appending a fresh element keeps a sequence duplicate-free.
proof fn lemma_push_distinct(s: Seq<u8>, x: u8)
    requires
        s.no_duplicates(),
        forall|j: int| 0 <= j < s.len() ==> s[j] != x,
    ensures
        s.push(x).no_duplicates(),
{
}

/// The stratified neighborhood generator: three candidate
/// populations, a ring buffer of recently moved participants, and a
/// pool of random bits.
pub struct LayoutSwapper {
    tabu_swaps: Vec<LayoutSwap>,
    symbol_swaps: Vec<u8>,
    home8k_swaps: Vec<u8>,
    letter_swaps: Vec<u8>,
    iteration: usize,
    random_bits: u64,
    random_bits_left: usize,
}

/// How many of a round's two tabu slots hold a symbol entry.
pub open spec fn adds_symbol(t: LayoutSwap) -> int {
    if t is Symbol {
        1
    } else {
        0
    }
}

pub open spec fn adds_home(t: LayoutSwap) -> int {
    if t is Home8K {
        1
    } else {
        0
    }
}

pub open spec fn adds_letter(t: LayoutSwap) -> int {
    if t is Letter {
        1
    } else {
        0
    }
}

/// One tabu slot contributes to exactly the class it is tagged with.
proof fn lemma_class_entry_len(t: LayoutSwap)
    ensures
        class_entry(t, 0).len() == adds_symbol(t),
        class_entry(t, 1).len() == adds_home(t),
        class_entry(t, 2).len() == adds_letter(t),
{
}

impl LayoutSwapper {
    /// The symbol-swap candidates currently available.
    pub closed spec fn symbol_seq(self) -> Seq<u8> {
        self.symbol_swaps@
    }

    /// The home-key-swap candidates currently available.
    pub closed spec fn home_seq(self) -> Seq<u8> {
        self.home8k_swaps@
    }

    /// The letter-key-swap candidates currently available.
    pub closed spec fn letter_seq(self) -> Seq<u8> {
        self.letter_swaps@
    }

    /// The candidates of one class (0 = symbols, 1 = home keys,
    /// 2 = letter keys).
    pub closed spec fn class_population(self, class: int) -> Seq<u8> {
        if class == 0 {
            self.symbol_swaps@
        } else if class == 1 {
            self.home8k_swaps@
        } else {
            self.letter_swaps@
        }
    }

    /// The tabu ring buffer.
    pub closed spec fn tabu_seq(self) -> Seq<LayoutSwap> {
        self.tabu_swaps@
    }

    /// The round whose two tabu slots scroll off next.
    pub closed spec fn round(self) -> int {
        self.iteration as int
    }

    /// Everything a class can ever draw from: its current population
    /// together with the entries withheld anywhere in the tabu
    /// buffer.  Swapping moves participants between the two sides but
    /// never creates or loses one.
    pub closed spec fn pool(self, class: int) -> Multiset<u8> {
        (self.class_population(class) + tabu_entries(
            self.tabu_swaps@,
            2 * (NUM_TABU_SWAPS as int),
            class,
        )).to_multiset()
    }

    /// No participant occurs twice, counting the population and the
    /// withheld entries of each class together.
    pub closed spec fn pools_distinct(self) -> bool {
        &&& forall|x: u8| #[trigger] self.pool(0).count(x) <= 1
        &&& forall|x: u8| #[trigger] self.pool(1).count(x) <= 1
        &&& forall|x: u8| #[trigger] self.pool(2).count(x) <= 1
    }

    /// A tabu entry only ever holds a participant of its class.
    pub open spec fn tabu_entry_wf(t: LayoutSwap) -> bool {
        match t {
            LayoutSwap::NoSwap => true,
            LayoutSwap::Symbol(s) => symbol_free(s),
            LayoutSwap::Home8K(k) => is_home_key(k),
            LayoutSwap::Letter(k) => letter_class_key(k),
        }
    }

    /// How many candidates the three classes hold together.
    pub closed spec fn total_len(self) -> int {
        self.symbol_swaps@.len() + self.home8k_swaps@.len() + self.letter_swaps@.len() as int
    }

    /// The shape part of well-formedness: the ring buffer has its
    /// fixed size, the round index is in range, every candidate and
    /// tabu entry belongs to its class, and no participant is
    /// duplicated anywhere.
    pub closed spec fn wf_core(self) -> bool {
        &&& self.tabu_swaps@.len() == 2 * NUM_TABU_SWAPS
        &&& self.iteration < NUM_TABU_SWAPS
        &&& forall|i: int|
            0 <= i < self.tabu_swaps@.len() ==> Self::tabu_entry_wf(
                #[trigger] self.tabu_swaps@[i],
            )
        &&& forall|i: int|
            0 <= i < self.symbol_swaps@.len() ==> symbol_free(#[trigger] self.symbol_swaps@[i])
        &&& forall|i: int|
            0 <= i < self.home8k_swaps@.len() ==> is_home_key(#[trigger] self.home8k_swaps@[i])
        &&& forall|i: int|
            0 <= i < self.letter_swaps@.len() ==> letter_class_key(
                #[trigger] self.letter_swaps@[i],
            )
        &&& self.pools_distinct()
    }

    /// Well-formedness: the shape invariant, with the candidate pool
    /// bounded (it never grows past its initial size).
    pub closed spec fn wf(self) -> bool {
        self.wf_core() && self.total_len() <= 200
    }

    /// Some class will offer at least two candidates once the current
    /// round's tabu slots are restored, so a proposal is possible.
    pub closed spec fn proposable(self) -> bool {
        let t1 = self.tabu_swaps@[2 * self.iteration as int];
        let t2 = self.tabu_swaps@[2 * self.iteration as int + 1];
        ||| self.symbol_swaps@.len() + adds_symbol(t1) + adds_symbol(t2) > 1
        ||| self.home8k_swaps@.len() + adds_home(t1) + adds_home(t2) > 1
        ||| self.letter_swaps@.len() + adds_letter(t1) + adds_letter(t2) > 1
    }

    /// The candidates a class offers once the current round's two
    /// withheld entries have returned.
    pub open spec fn restored_population(self, class: int) -> Seq<u8> {
        self.class_population(class) + class_entry(self.tabu_seq()[2 * self.round()], class)
            + class_entry(self.tabu_seq()[2 * self.round() + 1], class)
    }

    /// Every candidate and withheld key still fits its class under
    /// the given layout: home keys carry no frozen symbol and letter
    /// keys carry an unfrozen letter, so frozen symbols never move.
    pub open spec fn populations_eligible(self, l: Seq<u8>) -> bool {
        &&& forall|i: int|
            0 <= i < self.home_seq().len() ==> home_key_free(l, #[trigger] self.home_seq()[i])
        &&& forall|i: int|
            0 <= i < self.letter_seq().len() ==> letter_key_eligible(
                l,
                #[trigger] self.letter_seq()[i],
            )
        &&& forall|j: int|
            0 <= j < self.tabu_seq().len() ==> tabu_entry_eligible(#[trigger] self.tabu_seq()[j], l)
    }
}

/// Within each class, the candidate population repeats no entry.
proof fn lemma_population_distinct(sw: LayoutSwapper, class: int)
    requires
        sw.pools_distinct(),
        0 <= class < 3,
    ensures
        sw.class_population(class).no_duplicates(),
{
    broadcast use vstd::seq_lib::group_to_multiset_ensures, vstd::seq_lib::lemma_multiset_commutative, vstd::multiset::group_multiset_axioms;

    let pop = sw.class_population(class);
    let extract = tabu_entries(sw.tabu_seq(), 2 * (NUM_TABU_SWAPS as int), class);
    assert forall|x: u8| pop.to_multiset().contains(x) implies pop.to_multiset().count(x) == 1 by {
        assert(sw.pool(class) == (pop + extract).to_multiset());
        if class == 0 {
            assert(sw.pool(0).count(x) <= 1);
        } else if class == 1 {
            assert(sw.pool(1).count(x) <= 1);
        } else {
            assert(sw.pool(2).count(x) <= 1);
        }
        assert((pop + extract).to_multiset() =~= pop.to_multiset().add(extract.to_multiset()));
    }
    pop.lemma_multiset_has_no_duplicates_conv();
}

/// What survives removing two entries was in the population.
proof fn lemma_remove_pair_contains(pop: Seq<u8>, hi: int, lo: int, v: u8)
    requires
        0 <= lo < hi < pop.len(),
        pop.remove(hi).remove(lo).contains(v),
    ensures
        pop.contains(v),
{
    broadcast use vstd::seq_lib::group_to_multiset_ensures, vstd::multiset::group_multiset_axioms;

    pop.remove_ensures(hi);
    assert(pop.remove(hi)[lo] == pop[lo]);
    assert(pop.remove(hi).to_multiset() =~= pop.to_multiset().remove(pop[hi]));
    assert(pop.remove(hi).remove(lo).to_multiset() =~= pop.remove(hi).to_multiset().remove(
        pop[lo],
    ));
    assert(pop.remove(hi).remove(lo).to_multiset().count(v) > 0);
    assert(pop.to_multiset().count(v) > 0);
}

/// Two distinct candidates drawn from a population by index; the
/// population afterwards has exactly those two removed.
pub open spec fn picked_pair(pop: Seq<u8>, pop_after: Seq<u8>, s1: u8, s2: u8) -> bool {
    exists|i1: int, i2: int|
        #![trigger pop[i1], pop[i2]]
        {
            &&& 0 <= i1 < pop.len()
            &&& 0 <= i2 < pop.len()
            &&& i1 != i2
            &&& pop[i1] == s1
            &&& pop[i2] == s2
            &&& pop_after == (if i1 < i2 {
                pop.remove(i2).remove(i1)
            } else {
                pop.remove(i1).remove(i2)
            })
        }
}

/// One symbol-swap round of the proposer with its participants named:
/// the round's withheld entries return, two distinct free symbols are
/// drawn from the symbol candidates and exchanged in the layout, and
/// exactly those two are recorded in the round's tabu slots and
/// removed from their population.
pub open spec fn symbol_step_with(
    pre: LayoutSwapper,
    post: LayoutSwapper,
    before: Seq<u8>,
    after: Seq<u8>,
    s1: u8,
    s2: u8,
) -> bool {
    &&& symbol_free(s1) && symbol_free(s2) && s1 != s2
    &&& after == symbol_swapped(before, s1, s2)
    &&& picked_pair(pre.restored_population(0), post.class_population(0), s1, s2)
    &&& post.tabu_seq() == pre.tabu_seq().update(2 * pre.round(), LayoutSwap::Symbol(s1)).update(
        2 * pre.round() + 1,
        LayoutSwap::Symbol(s2),
    )
    &&& post.class_population(1) == pre.restored_population(1)
    &&& post.class_population(2) == pre.restored_population(2)
}

/// A symbol-swap round happened, for some pair of participants.
pub open spec fn proposer_symbol_step(
    pre: LayoutSwapper,
    post: LayoutSwapper,
    before: Seq<u8>,
    after: Seq<u8>,
) -> bool {
    exists|s1: u8, s2: u8| #[trigger] symbol_step_with(pre, post, before, after, s1, s2)
}

/// One home-key round of the proposer with its participants named.
pub open spec fn home_step_with(
    pre: LayoutSwapper,
    post: LayoutSwapper,
    before: Seq<u8>,
    after: Seq<u8>,
    k1: u8,
    k2: u8,
) -> bool {
    &&& is_home_key(k1) && is_home_key(k2) && k1 != k2
    &&& after == key_swapped(before, k1, k2)
    &&& picked_pair(pre.restored_population(1), post.class_population(1), k1, k2)
    &&& post.tabu_seq() == pre.tabu_seq().update(2 * pre.round(), LayoutSwap::Home8K(k1)).update(
        2 * pre.round() + 1,
        LayoutSwap::Home8K(k2),
    )
    &&& post.class_population(0) == pre.restored_population(0)
    &&& post.class_population(2) == pre.restored_population(2)
}

/// A home-key round happened, for some pair of participants.
pub open spec fn proposer_home_step(
    pre: LayoutSwapper,
    post: LayoutSwapper,
    before: Seq<u8>,
    after: Seq<u8>,
) -> bool {
    exists|k1: u8, k2: u8| #[trigger] home_step_with(pre, post, before, after, k1, k2)
}

/// One letter-key round of the proposer with its participants named.
pub open spec fn letter_step_with(
    pre: LayoutSwapper,
    post: LayoutSwapper,
    before: Seq<u8>,
    after: Seq<u8>,
    k1: u8,
    k2: u8,
) -> bool {
    &&& letter_class_key(k1) && letter_class_key(k2) && k1 != k2
    &&& after == key_swapped(before, k1, k2)
    &&& picked_pair(pre.restored_population(2), post.class_population(2), k1, k2)
    &&& post.tabu_seq() == pre.tabu_seq().update(2 * pre.round(), LayoutSwap::Letter(k1)).update(
        2 * pre.round() + 1,
        LayoutSwap::Letter(k2),
    )
    &&& post.class_population(0) == pre.restored_population(0)
    &&& post.class_population(1) == pre.restored_population(1)
}

/// A letter-key round happened, for some pair of participants.
pub open spec fn proposer_letter_step(
    pre: LayoutSwapper,
    post: LayoutSwapper,
    before: Seq<u8>,
    after: Seq<u8>,
) -> bool {
    exists|k1: u8, k2: u8| #[trigger] letter_step_with(pre, post, before, after, k1, k2)
}


/// Whether a symbol is frozen (a digit).
fn is_frozen_sym(s: u8) -> (r: bool)
    ensures
        r == is_frozen(s),
{
    16 <= s && s < 26
}

/// Whether a symbol is a letter.
fn is_letter_sym(s: u8) -> (r: bool)
    ensures
        r == is_letter_index(s),
{
    (33 <= s && s < 59) || (65 <= s && s < 91)
}

/// Whether a key is one of the home eight.
fn is_home_key_exec(k: u8) -> (r: bool)
    ensures
        r == is_home_key(k),
{
    k == 27 || k == 28 || k == 29 || k == 30 || k == 34 || k == 35 || k == 36 || k == 37
}

/// The home key at a position of the row order.
fn home_key_at(i: usize) -> (k: u8)
    requires
        i < 8,
    ensures
        k == home_keys()[i as int],
        is_home_key(k),
{
    if i == 0 {
        27
    } else if i == 1 {
        28
    } else if i == 2 {
        29
    } else if i == 3 {
        30
    } else if i == 4 {
        34
    } else if i == 5 {
        35
    } else if i == 6 {
        36
    } else {
        37
    }
}

impl LayoutSwapper {
    /// Build the three candidate populations from a layout and start
    /// with an empty tabu list.  A class with fewer than two free
    /// participants simply offers no proposals; construction fails
    /// only when the populations together cannot cover the tabu
    /// list.
    pub fn new(layout: &Vec<u8>) -> (r: Result<LayoutSwapper, SwapperError>)
        requires
            valid_layout(layout@),
        ensures
            match r {
                Ok(sw) => {
                    &&& sw.wf()
                    &&& sw.proposable()
                    &&& sw.round() == 0
                    &&& sw.symbol_seq() == symbol_population()
                    &&& sw.home_seq() == home_population(layout@)
                    &&& sw.letter_seq() == letter_population(layout@)
                    &&& forall|j: int|
                        0 <= j < 2 * NUM_TABU_SWAPS ==> sw.tabu_seq()[j] == LayoutSwap::NoSwap
                    &&& forall|c: int|
                        0 <= c < 3 ==> #[trigger] sw.pool(c) == sw.class_population(
                            c,
                        ).to_multiset()
                    &&& sw.populations_eligible(layout@)
                },
                Err(e) => e == SwapperError::TooFewParticipants,
            },
            r is Err <==> symbol_population().len() + home_population(layout@).len()
                + letter_population(layout@).len() < 2 * NUM_TABU_SWAPS,
    {
        let mut symbol_swaps: Vec<u8> = Vec::new();
        let mut s: u8 = 1;
        while s < 95
            invariant
                1 <= s <= 95,
                symbol_swaps@ == symbol_population_upto(s as int),
                symbol_swaps@.len() < s,
                symbol_swaps@.no_duplicates(),
                forall|j: int| 0 <= j < symbol_swaps@.len() ==> #[trigger] symbol_swaps@[j] < s,
                forall|j: int|
                    0 <= j < symbol_swaps@.len() ==> symbol_free(#[trigger] symbol_swaps@[j]),
            decreases 95 - s,
        {
            if !is_letter_sym(s) && !is_frozen_sym(s) {
                proof {
                    lemma_push_distinct(symbol_swaps@, s);
                }
                symbol_swaps.push(s);
            }
            s = s + 1;
        }
        let mut home8k_swaps: Vec<u8> = Vec::new();
        let mut i: usize = 0;
        while i < 8
            invariant
                i <= 8,
                layout@.len() == 190,
                home8k_swaps@ == home_population_upto(layout@, i as int),
                home8k_swaps@.len() <= i,
                home8k_swaps@.no_duplicates(),
                i < 8 ==> forall|j: int|
                    0 <= j < home8k_swaps@.len() ==> #[trigger] home8k_swaps@[j] < home_key_spec(
                        i as int,
                    ),
                forall|j: int|
                    0 <= j < home8k_swaps@.len() ==> is_home_key(#[trigger] home8k_swaps@[j]),
                forall|j: int|
                    0 <= j < home8k_swaps@.len() ==> home_key_free(
                        layout@,
                        #[trigger] home8k_swaps@[j],
                    ),
            decreases 8 - i,
        {
            let k = home_key_at(i);
            let plain = layout[95 + k as usize];
            let shifted = layout[142 + k as usize];
            if !is_frozen_sym(plain) && !is_frozen_sym(shifted) {
                proof {
                    lemma_push_distinct(home8k_swaps@, k);
                }
                home8k_swaps.push(k);
            }
            proof {
                if i + 1 < 8 {
                    assert(home_key_spec(i as int) < home_key_spec(i as int + 1));
                }
            }
            i = i + 1;
        }
        let mut letter_swaps: Vec<u8> = Vec::new();
        let mut k: u8 = 14;
        while k < 48
            invariant
                14 <= k <= 48,
                layout@.len() == 190,
                letter_swaps@ == letter_population_upto(layout@, k as int),
                letter_swaps@.len() + 14 <= k,
                letter_swaps@.no_duplicates(),
                forall|j: int| 0 <= j < letter_swaps@.len() ==> #[trigger] letter_swaps@[j] < k,
                forall|j: int|
                    0 <= j < letter_swaps@.len() ==> letter_class_key(
                        #[trigger] letter_swaps@[j],
                    ),
                forall|j: int|
                    0 <= j < letter_swaps@.len() ==> letter_key_eligible(
                        layout@,
                        #[trigger] letter_swaps@[j],
                    ),
            decreases 48 - k,
        {
            let plain = layout[95 + k as usize];
            let shifted = layout[142 + k as usize];
            if is_letter_sym(plain) && !is_frozen_sym(plain) && !is_frozen_sym(shifted)
                && !is_home_key_exec(k) && k != 32 && k != 26 && k != 19 && k != 25 {
                proof {
                    lemma_push_distinct(letter_swaps@, k);
                }
                letter_swaps.push(k);
            }
            k = k + 1;
        }
        if symbol_swaps.len() + home8k_swaps.len() + letter_swaps.len() < 2 * NUM_TABU_SWAPS {
            return Err(SwapperError::TooFewParticipants);
        }
        let mut tabu_swaps: Vec<LayoutSwap> = Vec::new();
        let mut t: usize = 0;
        while t < 2 * NUM_TABU_SWAPS
            invariant
                t <= 2 * NUM_TABU_SWAPS,
                tabu_swaps@.len() == t,
                forall|j: int| 0 <= j < t ==> tabu_swaps@[j] == LayoutSwap::NoSwap,
            decreases 2 * NUM_TABU_SWAPS - t,
        {
            tabu_swaps.push(LayoutSwap::NoSwap);
            t = t + 1;
        }
        proof {
            if symbol_swaps@.len() <= 1 && home8k_swaps@.len() <= 1 && letter_swaps@.len() <= 1 {
                assert(symbol_swaps@.len() + home8k_swaps@.len() + letter_swaps@.len() < 2
                    * NUM_TABU_SWAPS);
            }
        }
        let r = LayoutSwapper {
            tabu_swaps,
            symbol_swaps,
            home8k_swaps,
            letter_swaps,
            iteration: 0,
            random_bits: 0,
            random_bits_left: 0,
        };
        proof {
            broadcast use vstd::seq_lib::lemma_multiset_commutative, vstd::multiset::group_multiset_axioms;

            assert forall|c: int| 0 <= c < 3 implies #[trigger] r.pool(c) == r.class_population(
                c,
            ).to_multiset() by {
                lemma_tabu_entries_noswap(r.tabu_seq(), 2 * (NUM_TABU_SWAPS as int), c);
                lemma_empty_to_multiset();
                assert(r.pool(c) =~= r.class_population(c).to_multiset());
            }
            assert forall|x: u8| #[trigger] r.pool(0).count(x) <= 1 by {
                r.class_population(0).lemma_multiset_has_no_duplicates();
                broadcast use vstd::seq_lib::group_to_multiset_ensures;

                if !r.class_population(0).contains(x) {
                    assert(r.class_population(0).to_multiset().count(x) == 0);
                }
            }
            assert forall|x: u8| #[trigger] r.pool(1).count(x) <= 1 by {
                r.class_population(1).lemma_multiset_has_no_duplicates();
                broadcast use vstd::seq_lib::group_to_multiset_ensures;

                if !r.class_population(1).contains(x) {
                    assert(r.class_population(1).to_multiset().count(x) == 0);
                }
            }
            assert forall|x: u8| #[trigger] r.pool(2).count(x) <= 1 by {
                r.class_population(2).lemma_multiset_has_no_duplicates();
                broadcast use vstd::seq_lib::group_to_multiset_ensures;

                if !r.class_population(2).contains(x) {
                    assert(r.class_population(2).to_multiset().count(x) == 0);
                }
            }
        }
        Ok(r)
    }

    /// How many candidates each class currently offers, in the order
    /// symbol, home-key, letter-key.
    pub fn candidate_counts(&self) -> (r: (usize, usize, usize))
        ensures
            r.0 == self.symbol_seq().len(),
            r.1 == self.home_seq().len(),
            r.2 == self.letter_seq().len(),
    {
        (self.symbol_swaps.len(), self.home8k_swaps.len(), self.letter_swaps.len())
    }

    /// Whether the next call to `swap` has a proposal available.
    pub fn can_swap(&self) -> (r: bool)
        requires
            self.wf(),
        ensures
            r == self.proposable(),
    {
        let t1 = self.tabu_swaps[2 * self.iteration];
        let t2 = self.tabu_swaps[2 * self.iteration + 1];
        let s1: usize = match t1 {
            LayoutSwap::Symbol(_) => 1,
            _ => 0,
        };
        let s2: usize = match t2 {
            LayoutSwap::Symbol(_) => 1,
            _ => 0,
        };
        let h1: usize = match t1 {
            LayoutSwap::Home8K(_) => 1,
            _ => 0,
        };
        let h2: usize = match t2 {
            LayoutSwap::Home8K(_) => 1,
            _ => 0,
        };
        let e1: usize = match t1 {
            LayoutSwap::Letter(_) => 1,
            _ => 0,
        };
        let e2: usize = match t2 {
            LayoutSwap::Letter(_) => 1,
            _ => 0,
        };
        self.symbol_swaps.len() + s1 + s2 > 1 || self.home8k_swaps.len() + h1 + h2 > 1
            || self.letter_swaps.len() + e1 + e2 > 1
    }

    /// Draw a uniformly distributed index below `array_length` from
    /// the pooled random bits, refilling the pool as needed.
    fn random_small_index(&mut self, array_length: usize) -> (r: usize)
        requires
            array_length >= 1,
        ensures
            r < array_length,
            final(self).tabu_swaps == old(self).tabu_swaps,
            final(self).symbol_swaps == old(self).symbol_swaps,
            final(self).home8k_swaps == old(self).home8k_swaps,
            final(self).letter_swaps == old(self).letter_swaps,
            final(self).iteration == old(self).iteration,
    {
        if self.random_bits_left < 10 {
            self.random_bits_left = 64;
            self.random_bits = rand::random::<u64>();
        }
        let result = ((self.random_bits & 1023) as usize) % array_length;
        self.random_bits_left = self.random_bits_left - 10;
        self.random_bits = self.random_bits >> 10;
        result
    }
}


impl LayoutSwapper {
    /// Return the entry withheld in one tabu slot to its candidate
    /// population and clear the slot.
    #[verifier::rlimit(100)]
    #[verifier::spinoff_prover]
    fn restore_tabu_slot(&mut self, slot: usize)
        requires
            old(self).wf_core(),
            slot < old(self).tabu_seq().len(),
            old(self).total_len() <= 201,
        ensures
            final(self).wf_core(),
            final(self).total_len() <= old(self).total_len() + 1,
            final(self).round() == old(self).round(),
            final(self).tabu_seq() == old(self).tabu_seq().update(slot as int, LayoutSwap::NoSwap),
            forall|c: int|
                0 <= c < 3 ==> #[trigger] final(self).class_population(c) == old(
                    self,
                ).class_population(c) + class_entry(old(self).tabu_seq()[slot as int], c),
            forall|c: int| 0 <= c < 3 ==> #[trigger] final(self).pool(c) == old(self).pool(c),
            forall|l: Seq<u8>|
                old(self).populations_eligible(l) ==> #[trigger] (final(self).populations_eligible(
                    l,
                )),
    {
        let t = self.tabu_swaps[slot];
        match t {
            LayoutSwap::Symbol(s) => self.symbol_swaps.push(s),
            LayoutSwap::Home8K(k) => self.home8k_swaps.push(k),
            LayoutSwap::Letter(k) => self.letter_swaps.push(k),
            LayoutSwap::NoSwap => {},
        }
        self.tabu_swaps[slot] = LayoutSwap::NoSwap;
        proof {
            broadcast use vstd::multiset::group_multiset_axioms;

            let n = 2 * (NUM_TABU_SWAPS as int);
            let t0 = old(self).tabu_seq();
            let tn = self.tabu_seq();
            assert forall|c: int|
                0 <= c < 3 implies #[trigger] self.class_population(c) == old(
                self,
            ).class_population(c) + class_entry(t0[slot as int], c) by {
                assert(self.class_population(c) =~= old(self).class_population(c) + class_entry(
                    t0[slot as int],
                    c,
                ));
            }
            assert forall|c: int| 0 <= c < 3 implies #[trigger] self.pool(c) == old(self).pool(
                c,
            ) by {
                lemma_tabu_entries_update(t0, slot as int, LayoutSwap::NoSwap, n, c);
                lemma_empty_to_multiset();
                vstd::seq_lib::lemma_multiset_commutative(
                    self.class_population(c),
                    tabu_entries(tn, n, c),
                );
                vstd::seq_lib::lemma_multiset_commutative(
                    old(self).class_population(c),
                    tabu_entries(t0, n, c),
                );
                vstd::seq_lib::lemma_multiset_commutative(
                    old(self).class_population(c),
                    class_entry(t0[slot as int], c),
                );
                assert(class_entry(LayoutSwap::NoSwap, c) == Seq::<u8>::empty());
                assert forall|x: u8| self.pool(c).count(x) == old(self).pool(c).count(x) by {
                    assert(tabu_entries(tn, n, c).to_multiset().add(
                        class_entry(t0[slot as int], c).to_multiset(),
                    ).count(x) == tabu_entries(t0, n, c).to_multiset().add(
                        Seq::<u8>::empty().to_multiset(),
                    ).count(x));
                }
                assert(self.pool(c) =~= old(self).pool(c));
            }
            assert forall|l: Seq<u8>|
                old(self).populations_eligible(l) implies #[trigger] self.populations_eligible(
                l,
            ) by {
                assert(tabu_entry_eligible(t0[slot as int], l));
                assert forall|i: int|
                    0 <= i < self.home_seq().len() implies home_key_free(
                    l,
                    #[trigger] self.home_seq()[i],
                ) by {
                    if i < old(self).home_seq().len() {
                        assert(home_key_free(l, old(self).home_seq()[i]));
                    }
                }
                assert forall|i: int|
                    0 <= i < self.letter_seq().len() implies letter_key_eligible(
                    l,
                    #[trigger] self.letter_seq()[i],
                ) by {
                    if i < old(self).letter_seq().len() {
                        assert(letter_key_eligible(l, old(self).letter_seq()[i]));
                    }
                }
                assert forall|j: int|
                    0 <= j < self.tabu_seq().len() implies tabu_entry_eligible(
                    #[trigger] self.tabu_seq()[j],
                    l,
                ) by {
                    if j != slot as int {
                        assert(tabu_entry_eligible(old(self).tabu_seq()[j], l));
                    }
                }
            }
        }
    }
}

/// Recording a drawn pair in the cleared slots of the current round
/// and dropping it from its population moves participants between
/// the two sides without creating or losing any.
#[verifier::rlimit(100)]
#[verifier::spinoff_prover]
proof fn lemma_record_pools(
    pre: LayoutSwapper,
    post: LayoutSwapper,
    class_rec: int,
    s1: u8,
    s2: u8,
    i1: int,
    i2: int,
)
    requires
        0 <= class_rec < 3,
        0 <= pre.round() < NUM_TABU_SWAPS,
        pre.tabu_seq().len() == 2 * NUM_TABU_SWAPS,
        pre.tabu_seq()[2 * pre.round()] == LayoutSwap::NoSwap,
        pre.tabu_seq()[2 * pre.round() + 1] == LayoutSwap::NoSwap,
        0 <= i1 < pre.class_population(class_rec).len(),
        0 <= i2 < pre.class_population(class_rec).len(),
        i1 != i2,
        pre.class_population(class_rec)[i1] == s1,
        pre.class_population(class_rec)[i2] == s2,
        s1 != s2,
        post.tabu_seq() == pre.tabu_seq().update(2 * pre.round(), class_tag(class_rec, s1)).update(
            2 * pre.round() + 1,
            class_tag(class_rec, s2),
        ),
        post.class_population(class_rec) == (if i1 < i2 {
            pre.class_population(class_rec).remove(i2).remove(i1)
        } else {
            pre.class_population(class_rec).remove(i1).remove(i2)
        }),
        forall|c: int|
            0 <= c < 3 && c != class_rec ==> #[trigger] post.class_population(c)
                == pre.class_population(c),
    ensures
        forall|c: int| 0 <= c < 3 ==> #[trigger] post.pool(c) == pre.pool(c),
{
    broadcast use vstd::multiset::group_multiset_axioms, vstd::seq_lib::group_to_multiset_ensures;

    let n = 2 * (NUM_TABU_SWAPS as int);
    let r = pre.round();
    let t0 = pre.tabu_seq();
    let t1 = t0.update(2 * r, class_tag(class_rec, s1));
    let t2 = t1.update(2 * r + 1, class_tag(class_rec, s2));
    assert(post.tabu_seq() == t2);
    assert(t1[2 * r + 1] == LayoutSwap::NoSwap);
    assert forall|c: int| 0 <= c < 3 implies #[trigger] post.pool(c) == pre.pool(c) by {
        lemma_tabu_entries_update(t0, 2 * r, class_tag(class_rec, s1), n, c);
        lemma_tabu_entries_update(t1, 2 * r + 1, class_tag(class_rec, s2), n, c);
        lemma_empty_to_multiset();
        assert(class_entry(LayoutSwap::NoSwap, c) == Seq::<u8>::empty());
        let e0 = tabu_entries(t0, n, c).to_multiset();
        let e1 = tabu_entries(t1, n, c).to_multiset();
        let e2 = tabu_entries(t2, n, c).to_multiset();
        let c1 = class_entry(class_tag(class_rec, s1), c).to_multiset();
        let c2 = class_entry(class_tag(class_rec, s2), c).to_multiset();
        assert forall|x: u8| e1.count(x) == e0.count(x) + c1.count(x) by {
            assert(e1.add(Seq::<u8>::empty().to_multiset()).count(x) == e0.add(c1).count(x));
        }
        assert forall|x: u8| e2.count(x) == e1.count(x) + c2.count(x) by {
            assert(e2.add(Seq::<u8>::empty().to_multiset()).count(x) == e1.add(c2).count(x));
        }
        let pop = pre.class_population(c);
        let popn = post.class_population(c);
        vstd::seq_lib::lemma_multiset_commutative(pop, tabu_entries(t0, n, c));
        vstd::seq_lib::lemma_multiset_commutative(popn, tabu_entries(t2, n, c));
        if c == class_rec {
            let hi = if i1 < i2 {
                i2
            } else {
                i1
            };
            let lo = if i1 < i2 {
                i1
            } else {
                i2
            };
            pop.remove_ensures(hi);
            assert(pop.remove(hi)[lo] == pop[lo]);
            assert(popn == pop.remove(hi).remove(lo));
            assert(pop.remove(hi).to_multiset() =~= pop.to_multiset().remove(pop[hi]));
            assert(popn.to_multiset() =~= pop.remove(hi).to_multiset().remove(pop[lo]));
            assert(pop.contains(s1) && pop.contains(s2));
            assert(pop.to_multiset().count(s1) > 0 && pop.to_multiset().count(s2) > 0);
            assert(class_entry(class_tag(c, s1), c) == seq![s1]);
            assert(class_entry(class_tag(c, s2), c) == seq![s2]);
            assert(seq![s1] == Seq::<u8>::empty().push(s1));
            assert(seq![s2] == Seq::<u8>::empty().push(s2));
            assert(c1 =~= Multiset::<u8>::empty().insert(s1));
            assert(c2 =~= Multiset::<u8>::empty().insert(s2));
            assert forall|x: u8| post.pool(c).count(x) == pre.pool(c).count(x) by {
                assert(post.pool(c).count(x) == popn.to_multiset().count(x) + e2.count(x));
                assert(pre.pool(c).count(x) == pop.to_multiset().count(x) + e0.count(x));
            }
            assert(post.pool(c) =~= pre.pool(c));
        } else {
            assert(class_entry(class_tag(class_rec, s1), c) == Seq::<u8>::empty());
            assert(class_entry(class_tag(class_rec, s2), c) == Seq::<u8>::empty());
            assert(popn == pop);
            assert forall|x: u8| post.pool(c).count(x) == pre.pool(c).count(x) by {
                assert(e2.count(x) == e0.count(x));
            }
            assert(post.pool(c) =~= pre.pool(c));
        }
    }
}


impl LayoutSwapper {
    /// The symbol-swap branch: pick a second distinct candidate,
    /// exchange the two participants, record them in the round's
    /// cleared tabu slots, and drop them from the population.
    #[verifier::rlimit(100)]
    #[verifier::spinoff_prover]
    fn symbol_branch(&mut self, layout: &mut Vec<u8>, i1: usize)
        requires
            old(self).wf_core(),
            old(self).total_len() <= 202,
            i1 < old(self).symbol_seq().len(),
            old(self).symbol_seq().len() > 1,
            old(self).tabu_seq()[2 * old(self).round()] == LayoutSwap::NoSwap,
            old(self).tabu_seq()[2 * old(self).round() + 1] == LayoutSwap::NoSwap,
            bijective_layout(old(layout)@),
        ensures
            final(self).wf_core(),
            final(self).total_len() == old(self).total_len() - 2,
            final(self).round() == old(self).round(),
            forall|c: int| 0 <= c < 3 ==> #[trigger] final(self).pool(c) == old(self).pool(c),
            bijective_layout(final(layout)@),
            case_aligned(old(layout)@) ==> case_aligned(final(layout)@),
            letter_pairs_aligned(old(layout)@) ==> letter_pairs_aligned(final(layout)@),
            proposer_symbol_step(*old(self), *final(self), old(layout)@, final(layout)@),
            swap_outcome(old(layout)@, final(layout)@),
            old(self).populations_eligible(old(layout)@) ==> final(self).populations_eligible(
                final(layout)@,
            ),
    {
        proof {
            lemma_population_distinct(*old(self), 0);
        }
        let len = self.symbol_swaps.len();
        let mut i2 = self.random_small_index(len - 1);
        if i1 <= i2 {
            i2 = i2 + 1;
        }
        let p1 = self.symbol_swaps[i1];
        let p2 = self.symbol_swaps[i2];
        proof {
            assert(p1 != p2);
        }
        apply_symbol_swap(layout, p1, p2);
        self.tabu_swaps[2 * self.iteration] = LayoutSwap::Symbol(p1);
        self.tabu_swaps[2 * self.iteration + 1] = LayoutSwap::Symbol(p2);
        if i1 < i2 {
            self.symbol_swaps.remove(i2);
            self.symbol_swaps.remove(i1);
        } else {
            self.symbol_swaps.remove(i1);
            self.symbol_swaps.remove(i2);
        }
        proof {
            assert(class_tag(0, p1) == LayoutSwap::Symbol(p1));
            assert(class_tag(0, p2) == LayoutSwap::Symbol(p2));
            lemma_record_pools(*old(self), *self, 0, p1, p2, i1 as int, i2 as int);
            assert(old(self).restored_population(0) =~= old(self).class_population(0));
            assert(old(self).restored_population(1) =~= old(self).class_population(1));
            assert(old(self).restored_population(2) =~= old(self).class_population(2));
            assert(picked_pair(
                old(self).restored_population(0),
                self.class_population(0),
                p1,
                p2,
            ));
            assert(symbol_step_with(*old(self), *self, old(layout)@, layout@, p1, p2));
            if old(self).populations_eligible(old(layout)@) {
                let l0 = old(layout)@;
                assert forall|i: int|
                    0 <= i < self.home_seq().len() implies home_key_free(
                    layout@,
                    #[trigger] self.home_seq()[i],
                ) by {
                    assert(self.home_seq() == old(self).home_seq());
                    assert(is_home_key(self.home_seq()[i]));
                    assert(home_key_free(l0, old(self).home_seq()[i]));
                    lemma_symbol_swap_home_free(l0, p1, p2, self.home_seq()[i]);
                }
                assert forall|i: int|
                    0 <= i < self.letter_seq().len() implies letter_key_eligible(
                    layout@,
                    #[trigger] self.letter_seq()[i],
                ) by {
                    assert(self.letter_seq() == old(self).letter_seq());
                    assert(letter_key_eligible(l0, old(self).letter_seq()[i]));
                    lemma_symbol_swap_letter_eligible(l0, p1, p2, self.letter_seq()[i]);
                }
                assert forall|j: int|
                    0 <= j < self.tabu_seq().len() implies tabu_entry_eligible(
                    #[trigger] self.tabu_seq()[j],
                    layout@,
                ) by {
                    if j == 2 * old(self).round() || j == 2 * old(self).round() + 1 {
                    } else {
                        let e = old(self).tabu_seq()[j];
                        assert(self.tabu_seq()[j] == e);
                        assert(tabu_entry_eligible(e, l0));
                        match e {
                            LayoutSwap::Home8K(h) => {
                                assert(is_home_key(h));
                                lemma_symbol_swap_home_free(l0, p1, p2, h);
                            },
                            LayoutSwap::Letter(t) => {
                                lemma_symbol_swap_letter_eligible(l0, p1, p2, t);
                            },
                            _ => {},
                        }
                    }
                }
            }
        }
    }
}

impl LayoutSwapper {
    /// The home-key branch: pick a second distinct candidate,
    /// exchange the two participants, record them in the round's
    /// cleared tabu slots, and drop them from the population.
    #[verifier::rlimit(100)]
    #[verifier::spinoff_prover]
    fn home8k_branch(&mut self, layout: &mut Vec<u8>, i1: usize)
        requires
            old(self).wf_core(),
            old(self).total_len() <= 202,
            i1 < old(self).home_seq().len(),
            old(self).home_seq().len() > 1,
            old(self).tabu_seq()[2 * old(self).round()] == LayoutSwap::NoSwap,
            old(self).tabu_seq()[2 * old(self).round() + 1] == LayoutSwap::NoSwap,
            bijective_layout(old(layout)@),
        ensures
            final(self).wf_core(),
            final(self).total_len() == old(self).total_len() - 2,
            final(self).round() == old(self).round(),
            forall|c: int| 0 <= c < 3 ==> #[trigger] final(self).pool(c) == old(self).pool(c),
            bijective_layout(final(layout)@),
            case_aligned(old(layout)@) ==> case_aligned(final(layout)@),
            letter_pairs_aligned(old(layout)@) ==> letter_pairs_aligned(final(layout)@),
            proposer_home_step(*old(self), *final(self), old(layout)@, final(layout)@),
            swap_outcome(old(layout)@, final(layout)@),
            old(self).populations_eligible(old(layout)@) ==> final(self).populations_eligible(
                final(layout)@,
            ),
    {
        proof {
            lemma_population_distinct(*old(self), 1);
        }
        let len = self.home8k_swaps.len();
        let mut i2 = self.random_small_index(len - 1);
        if i1 <= i2 {
            i2 = i2 + 1;
        }
        let p1 = self.home8k_swaps[i1];
        let p2 = self.home8k_swaps[i2];
        proof {
            assert(p1 != p2);
        }
        apply_key_swap(layout, p1, p2);
        self.tabu_swaps[2 * self.iteration] = LayoutSwap::Home8K(p1);
        self.tabu_swaps[2 * self.iteration + 1] = LayoutSwap::Home8K(p2);
        if i1 < i2 {
            self.home8k_swaps.remove(i2);
            self.home8k_swaps.remove(i1);
        } else {
            self.home8k_swaps.remove(i1);
            self.home8k_swaps.remove(i2);
        }
        proof {
            assert(class_tag(1, p1) == LayoutSwap::Home8K(p1));
            assert(class_tag(1, p2) == LayoutSwap::Home8K(p2));
            lemma_record_pools(*old(self), *self, 1, p1, p2, i1 as int, i2 as int);
            assert(old(self).restored_population(0) =~= old(self).class_population(0));
            assert(old(self).restored_population(1) =~= old(self).class_population(1));
            assert(old(self).restored_population(2) =~= old(self).class_population(2));
            assert(picked_pair(
                old(self).restored_population(1),
                self.class_population(1),
                p1,
                p2,
            ));
            assert(home_step_with(*old(self), *self, old(layout)@, layout@, p1, p2));
            if old(self).populations_eligible(old(layout)@) {
                let l0 = old(layout)@;
                assert(home_key_free(l0, p1));
                assert(home_key_free(l0, p2));
                assert forall|i: int|
                    0 <= i < self.home_seq().len() implies home_key_free(
                    layout@,
                    #[trigger] self.home_seq()[i],
                ) by {
                    let v = self.home_seq()[i];
                    assert(is_home_key(v));
                    let hi: int = if i1 < i2 {
                        i2 as int
                    } else {
                        i1 as int
                    };
                    let lo: int = if i1 < i2 {
                        i1 as int
                    } else {
                        i2 as int
                    };
                    assert(self.home_seq() == old(self).home_seq().remove(hi).remove(lo));
                    assert(self.home_seq().contains(v));
                    lemma_remove_pair_contains(old(self).home_seq(), hi, lo, v);
                    let idx = choose|idx: int|
                        0 <= idx < old(self).home_seq().len() && old(self).home_seq()[idx] == v;
                    assert(home_key_free(l0, old(self).home_seq()[idx]));
                    lemma_key_swap_home_free(l0, p1, p2, v);
                }
                assert forall|i: int|
                    0 <= i < self.letter_seq().len() implies letter_key_eligible(
                    layout@,
                    #[trigger] self.letter_seq()[i],
                ) by {
                    assert(self.letter_seq() == old(self).letter_seq());
                    assert(letter_key_eligible(l0, old(self).letter_seq()[i]));
                    lemma_key_swap_letter_eligible(l0, p1, p2, self.letter_seq()[i]);
                }
                assert forall|j: int|
                    0 <= j < self.tabu_seq().len() implies tabu_entry_eligible(
                    #[trigger] self.tabu_seq()[j],
                    layout@,
                ) by {
                    if j == 2 * old(self).round() || j == 2 * old(self).round() + 1 {
                        lemma_key_swap_home_free(l0, p1, p2, p1);
                        lemma_key_swap_home_free(l0, p1, p2, p2);
                    } else {
                        let e = old(self).tabu_seq()[j];
                        assert(self.tabu_seq()[j] == e);
                        assert(tabu_entry_eligible(e, l0));
                        match e {
                            LayoutSwap::Home8K(h) => {
                                assert(is_home_key(h));
                                lemma_key_swap_home_free(l0, p1, p2, h);
                            },
                            LayoutSwap::Letter(t) => {
                                lemma_key_swap_letter_eligible(l0, p1, p2, t);
                            },
                            _ => {},
                        }
                    }
                }
            }
        }
    }
}

impl LayoutSwapper {
    /// The letter-key branch: pick a second distinct candidate,
    /// exchange the two participants, record them in the round's
    /// cleared tabu slots, and drop them from the population.
    #[verifier::rlimit(100)]
    #[verifier::spinoff_prover]
    fn letter_branch(&mut self, layout: &mut Vec<u8>, i1: usize)
        requires
            old(self).wf_core(),
            old(self).total_len() <= 202,
            i1 < old(self).letter_seq().len(),
            old(self).letter_seq().len() > 1,
            old(self).tabu_seq()[2 * old(self).round()] == LayoutSwap::NoSwap,
            old(self).tabu_seq()[2 * old(self).round() + 1] == LayoutSwap::NoSwap,
            bijective_layout(old(layout)@),
        ensures
            final(self).wf_core(),
            final(self).total_len() == old(self).total_len() - 2,
            final(self).round() == old(self).round(),
            forall|c: int| 0 <= c < 3 ==> #[trigger] final(self).pool(c) == old(self).pool(c),
            bijective_layout(final(layout)@),
            case_aligned(old(layout)@) ==> case_aligned(final(layout)@),
            letter_pairs_aligned(old(layout)@) ==> letter_pairs_aligned(final(layout)@),
            proposer_letter_step(*old(self), *final(self), old(layout)@, final(layout)@),
            swap_outcome(old(layout)@, final(layout)@),
            old(self).populations_eligible(old(layout)@) ==> final(self).populations_eligible(
                final(layout)@,
            ),
    {
        proof {
            lemma_population_distinct(*old(self), 2);
        }
        let len = self.letter_swaps.len();
        let mut i2 = self.random_small_index(len - 1);
        if i1 <= i2 {
            i2 = i2 + 1;
        }
        let p1 = self.letter_swaps[i1];
        let p2 = self.letter_swaps[i2];
        proof {
            assert(p1 != p2);
        }
        apply_key_swap(layout, p1, p2);
        self.tabu_swaps[2 * self.iteration] = LayoutSwap::Letter(p1);
        self.tabu_swaps[2 * self.iteration + 1] = LayoutSwap::Letter(p2);
        if i1 < i2 {
            self.letter_swaps.remove(i2);
            self.letter_swaps.remove(i1);
        } else {
            self.letter_swaps.remove(i1);
            self.letter_swaps.remove(i2);
        }
        proof {
            assert(class_tag(2, p1) == LayoutSwap::Letter(p1));
            assert(class_tag(2, p2) == LayoutSwap::Letter(p2));
            lemma_record_pools(*old(self), *self, 2, p1, p2, i1 as int, i2 as int);
            assert(old(self).restored_population(0) =~= old(self).class_population(0));
            assert(old(self).restored_population(1) =~= old(self).class_population(1));
            assert(old(self).restored_population(2) =~= old(self).class_population(2));
            assert(picked_pair(
                old(self).restored_population(2),
                self.class_population(2),
                p1,
                p2,
            ));
            assert(letter_step_with(*old(self), *self, old(layout)@, layout@, p1, p2));
            if old(self).populations_eligible(old(layout)@) {
                let l0 = old(layout)@;
                assert(letter_key_eligible(l0, p1));
                assert(letter_key_eligible(l0, p2));
                assert forall|i: int|
                    0 <= i < self.home_seq().len() implies home_key_free(
                    layout@,
                    #[trigger] self.home_seq()[i],
                ) by {
                    assert(self.home_seq() == old(self).home_seq());
                    assert(is_home_key(self.home_seq()[i]));
                    assert(home_key_free(l0, old(self).home_seq()[i]));
                    lemma_key_swap_home_free(l0, p1, p2, self.home_seq()[i]);
                }
                assert forall|i: int|
                    0 <= i < self.letter_seq().len() implies letter_key_eligible(
                    layout@,
                    #[trigger] self.letter_seq()[i],
                ) by {
                    let v = self.letter_seq()[i];
                    let hi: int = if i1 < i2 {
                        i2 as int
                    } else {
                        i1 as int
                    };
                    let lo: int = if i1 < i2 {
                        i1 as int
                    } else {
                        i2 as int
                    };
                    assert(self.letter_seq() == old(self).letter_seq().remove(hi).remove(lo));
                    assert(self.letter_seq().contains(v));
                    lemma_remove_pair_contains(old(self).letter_seq(), hi, lo, v);
                    let idx = choose|idx: int|
                        0 <= idx < old(self).letter_seq().len() && old(self).letter_seq()[idx]
                            == v;
                    assert(letter_key_eligible(l0, old(self).letter_seq()[idx]));
                    lemma_key_swap_letter_eligible(l0, p1, p2, v);
                }
                assert forall|j: int|
                    0 <= j < self.tabu_seq().len() implies tabu_entry_eligible(
                    #[trigger] self.tabu_seq()[j],
                    layout@,
                ) by {
                    if j == 2 * old(self).round() || j == 2 * old(self).round() + 1 {
                        lemma_key_swap_letter_eligible(l0, p1, p2, p1);
                        lemma_key_swap_letter_eligible(l0, p1, p2, p2);
                    } else {
                        let e = old(self).tabu_seq()[j];
                        assert(self.tabu_seq()[j] == e);
                        assert(tabu_entry_eligible(e, l0));
                        match e {
                            LayoutSwap::Home8K(h) => {
                                assert(is_home_key(h));
                                lemma_key_swap_home_free(l0, p1, p2, h);
                            },
                            LayoutSwap::Letter(t) => {
                                lemma_key_swap_letter_eligible(l0, p1, p2, t);
                            },
                            _ => {},
                        }
                    }
                }
            }
        }
    }
}


/// Two proposer states with the same candidates, tabu buffer and
/// round are interchangeable: well-formedness and the pools carry
/// over.
proof fn lemma_same_candidates_wf(a: LayoutSwapper, b: LayoutSwapper)
    requires
        a.wf_core(),
        b.tabu_seq() == a.tabu_seq(),
        b.round() == a.round(),
        b.class_population(0) == a.class_population(0),
        b.class_population(1) == a.class_population(1),
        b.class_population(2) == a.class_population(2),
    ensures
        b.wf_core(),
        b.total_len() == a.total_len(),
        forall|c: int| 0 <= c < 3 ==> #[trigger] b.pool(c) == a.pool(c),
        forall|l: Seq<u8>| a.populations_eligible(l) ==> #[trigger] b.populations_eligible(l),
{
    assert forall|c: int| 0 <= c < 3 implies #[trigger] b.pool(c) == a.pool(c) by {
        assert(b.class_population(c) == a.class_population(c));
    }
    assert(b.home_seq() == a.home_seq());
    assert(b.letter_seq() == a.letter_seq());
    assert forall|x: u8| #[trigger] b.pool(0).count(x) <= 1 by {
        assert(b.pool(0) == a.pool(0));
    }
    assert forall|x: u8| #[trigger] b.pool(1).count(x) <= 1 by {
        assert(b.pool(1) == a.pool(1));
    }
    assert forall|x: u8| #[trigger] b.pool(2).count(x) <= 1 by {
        assert(b.pool(2) == a.pool(2));
    }
}

/// A proposer round phrased against the state with cleared slots and
/// restored populations is the same round phrased against the state
/// before the restore.
#[verifier::rlimit(100)]
#[verifier::spinoff_prover]
proof fn lemma_step_through_restore(
    pre: LayoutSwapper,
    mid: LayoutSwapper,
    post: LayoutSwapper,
    fin: LayoutSwapper,
    before: Seq<u8>,
    after: Seq<u8>,
)
    requires
        0 <= pre.round(),
        2 * pre.round() + 1 < pre.tabu_seq().len(),
        mid.round() == pre.round(),
        mid.tabu_seq() == pre.tabu_seq().update(2 * pre.round(), LayoutSwap::NoSwap).update(
            2 * pre.round() + 1,
            LayoutSwap::NoSwap,
        ),
        forall|c: int|
            0 <= c < 3 ==> #[trigger] mid.class_population(c) == pre.restored_population(c),
        proposer_symbol_step(mid, post, before, after) || proposer_home_step(
            mid,
            post,
            before,
            after,
        ) || proposer_letter_step(mid, post, before, after),
        fin.tabu_seq() == post.tabu_seq(),
        forall|c: int| 0 <= c < 3 ==> #[trigger] fin.class_population(c) == post.class_population(c),
    ensures
        proposer_symbol_step(pre, fin, before, after) || proposer_home_step(
            pre,
            fin,
            before,
            after,
        ) || proposer_letter_step(pre, fin, before, after),
{
    let r = pre.round();
    assert(mid.tabu_seq()[2 * mid.round()] == LayoutSwap::NoSwap);
    assert(mid.tabu_seq()[2 * mid.round() + 1] == LayoutSwap::NoSwap);
    assert forall|c: int|
        0 <= c < 3 implies #[trigger] mid.restored_population(c) == pre.restored_population(c) by {
        assert(mid.restored_population(c) =~= mid.class_population(c));
    }
    if proposer_symbol_step(mid, post, before, after) {
        let (s1, s2) = choose|s1: u8, s2: u8| symbol_step_with(mid, post, before, after, s1, s2);
        assert(fin.tabu_seq() =~= pre.tabu_seq().update(2 * r, LayoutSwap::Symbol(s1)).update(
            2 * r + 1,
            LayoutSwap::Symbol(s2),
        ));
        assert(symbol_step_with(pre, fin, before, after, s1, s2));
    } else if proposer_home_step(mid, post, before, after) {
        let (k1, k2) = choose|k1: u8, k2: u8| home_step_with(mid, post, before, after, k1, k2);
        assert(fin.tabu_seq() =~= pre.tabu_seq().update(2 * r, LayoutSwap::Home8K(k1)).update(
            2 * r + 1,
            LayoutSwap::Home8K(k2),
        ));
        assert(home_step_with(pre, fin, before, after, k1, k2));
    } else {
        let (k1, k2) = choose|k1: u8, k2: u8| letter_step_with(mid, post, before, after, k1, k2);
        assert(fin.tabu_seq() =~= pre.tabu_seq().update(2 * r, LayoutSwap::Letter(k1)).update(
            2 * r + 1,
            LayoutSwap::Letter(k2),
        ));
        assert(letter_step_with(pre, fin, before, after, k1, k2));
    }
}

impl LayoutSwapper {
    /// Propose and apply one random swap: the participants withheld
    /// since the ring buffer last passed this round return to their
    /// populations, a class is picked with probability proportional
    /// to its candidate count, two distinct candidates of that class
    /// are drawn and exchanged in the layout, and exactly those two
    /// are withheld in the round's tabu slots.  Whatever swap is
    /// drawn, the layout invariants survive, the round index
    /// advances cyclically, and no participant is created or lost.
    #[verifier::rlimit(100)]
    #[verifier::spinoff_prover]
    pub fn swap(&mut self, layout: &mut Vec<u8>)
        requires
            old(self).wf(),
            old(self).proposable(),
            bijective_layout(old(layout)@),
        ensures
            final(self).wf(),
            final(self).round() == (old(self).round() + 1) % (NUM_TABU_SWAPS as int),
            forall|c: int| 0 <= c < 3 ==> #[trigger] final(self).pool(c) == old(self).pool(c),
            proposer_symbol_step(*old(self), *final(self), old(layout)@, final(layout)@)
                || proposer_home_step(*old(self), *final(self), old(layout)@, final(layout)@)
                || proposer_letter_step(*old(self), *final(self), old(layout)@, final(layout)@),
            bijective_layout(final(layout)@),
            case_aligned(old(layout)@) ==> case_aligned(final(layout)@),
            letter_pairs_aligned(old(layout)@) ==> letter_pairs_aligned(final(layout)@),
            swap_outcome(old(layout)@, final(layout)@),
            old(self).populations_eligible(old(layout)@) ==> final(self).populations_eligible(
                final(layout)@,
            ),
    {
        let ghost pre = *old(self);
        let slot = 2 * self.iteration;
        self.restore_tabu_slot(slot);
        self.restore_tabu_slot(slot + 1);
        let ghost rst = *self;
        proof {
            lemma_class_entry_len(pre.tabu_seq()[2 * pre.round()]);
            lemma_class_entry_len(pre.tabu_seq()[2 * pre.round() + 1]);
            assert forall|c: int|
                0 <= c < 3 implies #[trigger] rst.class_population(c) == pre.restored_population(
                c,
            ) by {
                assert(rst.class_population(c) == (pre.class_population(c) + class_entry(
                    pre.tabu_seq()[2 * pre.round()],
                    c,
                )) + class_entry(pre.tabu_seq()[2 * pre.round() + 1], c));
            }
        }
        let symbol_len = if self.symbol_swaps.len() > 1 {
            self.symbol_swaps.len()
        } else {
            0
        };
        let home8k_len = if self.home8k_swaps.len() > 1 {
            self.home8k_swaps.len()
        } else {
            0
        };
        let letter_len = if self.letter_swaps.len() > 1 {
            self.letter_swaps.len()
        } else {
            0
        };
        let num_swaps = symbol_len + home8k_len + letter_len;
        proof {
            let t1 = pre.tabu_seq()[2 * pre.round()];
            let t2 = pre.tabu_seq()[2 * pre.round() + 1];
            assert(rst.class_population(0).len() == pre.class_population(0).len() + adds_symbol(t1)
                + adds_symbol(t2));
            assert(rst.class_population(1).len() == pre.class_population(1).len() + adds_home(t1)
                + adds_home(t2));
            assert(rst.class_population(2).len() == pre.class_population(2).len() + adds_letter(t1)
                + adds_letter(t2));
            assert(num_swaps >= 1);
        }
        let i1 = self.random_small_index(num_swaps);
        let ghost mid = *self;
        proof {
            assert(mid.tabu_seq() == rst.tabu_seq());
            assert(mid.round() == rst.round());
            assert(mid.class_population(0) == rst.class_population(0));
            assert(mid.class_population(1) == rst.class_population(1));
            assert(mid.class_population(2) == rst.class_population(2));
            lemma_same_candidates_wf(rst, mid);
            assert forall|c: int|
                0 <= c < 3 implies #[trigger] mid.class_population(c) == pre.restored_population(
                c,
            ) by {
                assert(rst.class_population(c) == pre.restored_population(c));
            }
        }
        if i1 < symbol_len {
            self.symbol_branch(layout, i1);
        } else if i1 < symbol_len + home8k_len {
            self.home8k_branch(layout, i1 - symbol_len);
        } else {
            self.letter_branch(layout, i1 - symbol_len - home8k_len);
        }
        let ghost post = *self;
        self.iteration = (self.iteration + 1) % NUM_TABU_SWAPS;
        proof {
            assert(self.tabu_seq() == post.tabu_seq());
            assert(self.class_population(0) == post.class_population(0));
            assert(self.class_population(1) == post.class_population(1));
            assert(self.class_population(2) == post.class_population(2));
            assert forall|c: int| 0 <= c < 3 implies #[trigger] self.pool(c) == post.pool(c) by {
                assert(self.class_population(c) == post.class_population(c));
            }
            assert(self.wf_core()) by {
                assert(post.wf_core());
                assert forall|x: u8| #[trigger] self.pool(0).count(x) <= 1 by {
                    assert(self.pool(0) == post.pool(0));
                }
                assert forall|x: u8| #[trigger] self.pool(1).count(x) <= 1 by {
                    assert(self.pool(1) == post.pool(1));
                }
                assert forall|x: u8| #[trigger] self.pool(2).count(x) <= 1 by {
                    assert(self.pool(2) == post.pool(2));
                }
            }
            lemma_step_through_restore(pre, mid, post, *self, old(layout)@, layout@);
            if pre.populations_eligible(old(layout)@) {
                assert(rst.populations_eligible(old(layout)@));
                assert(mid.populations_eligible(old(layout)@));
                assert(post.populations_eligible(layout@));
                assert(self.populations_eligible(layout@)) by {
                    assert(self.home_seq() == post.home_seq());
                    assert(self.letter_seq() == post.letter_seq());
                    assert(self.tabu_seq() == post.tabu_seq());
                }
            }
        }
    }
}



/// A slot's entry shows up in the extract of its class.
proof fn lemma_tabu_slot_contributes(t: Seq<LayoutSwap>, n: int, class: int, j: int, x: u8)
    requires
        0 <= j < n,
        class_entry(t[j], class).contains(x),
    ensures
        tabu_entries(t, n, class).to_multiset().count(x) >= 1,
    decreases n,
{
    broadcast use vstd::seq_lib::group_to_multiset_ensures, vstd::multiset::group_multiset_axioms;

    vstd::seq_lib::lemma_multiset_commutative(
        tabu_entries(t, n - 1, class),
        class_entry(t[n - 1], class),
    );
    if j == n - 1 {
        assert(class_entry(t[j], class).to_multiset().count(x) >= 1);
    } else {
        lemma_tabu_slot_contributes(t, n - 1, class, j, x);
    }
}

/// Two different slots holding the same entry each show up in the
/// extract.
proof fn lemma_tabu_two_slots(t: Seq<LayoutSwap>, n: int, class: int, j1: int, j2: int, x: u8)
    requires
        0 <= j1 < j2 < n,
        class_entry(t[j1], class).contains(x),
        class_entry(t[j2], class).contains(x),
    ensures
        tabu_entries(t, n, class).to_multiset().count(x) >= 2,
    decreases n,
{
    broadcast use vstd::seq_lib::group_to_multiset_ensures, vstd::multiset::group_multiset_axioms;

    vstd::seq_lib::lemma_multiset_commutative(
        tabu_entries(t, n - 1, class),
        class_entry(t[n - 1], class),
    );
    if j2 == n - 1 {
        lemma_tabu_slot_contributes(t, n - 1, class, j1, x);
        assert(class_entry(t[j2], class).to_multiset().count(x) >= 1);
    } else {
        lemma_tabu_two_slots(t, n - 1, class, j1, j2, x);
    }
}

/// A participant withheld in any slot other than the current round's
/// two is offered by no class and so cannot be proposed.
pub proof fn lemma_withheld_not_proposed(sw: LayoutSwapper, class: int, slot: int, x: u8)
    requires
        sw.wf(),
        0 <= class < 3,
        0 <= slot < sw.tabu_seq().len(),
        slot != 2 * sw.round(),
        slot != 2 * sw.round() + 1,
        class_entry(sw.tabu_seq()[slot], class).contains(x),
    ensures
        !sw.restored_population(class).contains(x),
{
    broadcast use vstd::seq_lib::group_to_multiset_ensures, vstd::multiset::group_multiset_axioms;

    let n = 2 * (NUM_TABU_SWAPS as int);
    let t = sw.tabu_seq();
    let pop = sw.class_population(class);
    let extract = tabu_entries(t, n, class);
    vstd::seq_lib::lemma_multiset_commutative(pop, extract);
    lemma_tabu_slot_contributes(t, n, class, slot, x);
    if sw.restored_population(class).contains(x) {
        let idx = choose|idx: int|
            0 <= idx < sw.restored_population(class).len() && sw.restored_population(class)[idx]
                == x;
        if idx < pop.len() {
            assert(pop[idx] == x);
            assert(pop.contains(x));
            assert(pop.to_multiset().count(x) >= 1);
            if class == 0 {
                assert(sw.pool(0).count(x) <= 1);
            } else if class == 1 {
                assert(sw.pool(1).count(x) <= 1);
            } else {
                assert(sw.pool(2).count(x) <= 1);
            }
            assert(false);
        } else {
            let e1 = class_entry(t[2 * sw.round()], class);
            let e2 = class_entry(t[2 * sw.round() + 1], class);
            assert(sw.restored_population(class) == (pop + e1) + e2);
            if idx < pop.len() + e1.len() {
                assert(e1[idx - pop.len()] == x);
                assert(e1.contains(x));
                if slot < 2 * sw.round() {
                    lemma_tabu_two_slots(t, n, class, slot, 2 * sw.round(), x);
                } else {
                    lemma_tabu_two_slots(t, n, class, 2 * sw.round(), slot, x);
                }
            } else {
                assert(e2[idx - pop.len() - e1.len()] == x);
                assert(e2.contains(x));
                if slot < 2 * sw.round() + 1 {
                    lemma_tabu_two_slots(t, n, class, slot, 2 * sw.round() + 1, x);
                } else {
                    lemma_tabu_two_slots(t, n, class, 2 * sw.round() + 1, slot, x);
                }
            }
            if class == 0 {
                assert(sw.pool(0).count(x) <= 1);
            } else if class == 1 {
                assert(sw.pool(1).count(x) <= 1);
            } else {
                assert(sw.pool(2).count(x) <= 1);
            }
            assert(false);
        }
    }
}


/// A tabu entry's key still fits its class under the given layout.
pub open spec fn tabu_entry_eligible(t: LayoutSwap, l: Seq<u8>) -> bool {
    match t {
        LayoutSwap::NoSwap => true,
        LayoutSwap::Symbol(_) => true,
        LayoutSwap::Home8K(k) => home_key_free(l, k),
        LayoutSwap::Letter(k) => letter_key_eligible(l, k),
    }
}

/// A symbol swap does not freeze a home key: its two chars stay
/// unfrozen.
proof fn lemma_symbol_swap_home_free(l: Seq<u8>, s1: u8, s2: u8, k: u8)
    requires
        bijective_layout(l),
        symbol_free(s1),
        symbol_free(s2),
        1 <= k < 48,
        home_key_free(l, k),
    ensures
        home_key_free(symbol_swapped(l, s1, s2), k),
{
    lemma_symbol_swap_shape(l, s1, s2);
    let m = symbol_swapped(l, s1, s2);
    let k1 = l[s1 as int];
    let k2 = l[s2 as int];
    assert(m[95 + k as int] == l[95 + k as int] || m[95 + k as int] == s1 || m[95 + k as int]
        == s2);
    assert(m[142 + k as int] == l[142 + k as int] || m[142 + k as int] == s1 || m[142 + k as int]
        == s2) by {
        assert(142 + k as int == 95 + (47 + k as int));
    }
}

/// A symbol swap keeps an eligible letter key eligible: its letter
/// stays put and its shifted char stays unfrozen.
proof fn lemma_symbol_swap_letter_eligible(l: Seq<u8>, s1: u8, s2: u8, k: u8)
    requires
        bijective_layout(l),
        symbol_free(s1),
        symbol_free(s2),
        letter_key_eligible(l, k),
    ensures
        letter_key_eligible(symbol_swapped(l, s1, s2), k),
{
    lemma_symbol_swap_shape(l, s1, s2);
    let m = symbol_swapped(l, s1, s2);
    let k1 = l[s1 as int];
    let k2 = l[s2 as int];
    assert(l[95 + k1 as int] == s1);
    assert(l[95 + k2 as int] == s2);
    assert(k as int != k1 as int && k as int != k2 as int) by {
        assert(is_letter_index(l[95 + k as int]));
    }
    assert(m[95 + k as int] == l[95 + k as int]);
    assert(m[142 + k as int] == l[142 + k as int] || m[142 + k as int] == s1 || m[142 + k as int]
        == s2) by {
        assert(142 + k as int == 95 + (47 + k as int));
    }
}

/// A key swap keeps a home key free of frozen symbols, provided its
/// partner was free too.
proof fn lemma_key_swap_home_free(l: Seq<u8>, k1: u8, k2: u8, k: u8)
    requires
        bijective_layout(l),
        1 <= k1 < 48,
        1 <= k2 < 48,
        1 <= k < 48,
        home_key_free(l, k),
        k == k1 ==> home_key_free(l, k2),
        k == k2 ==> home_key_free(l, k1),
    ensures
        home_key_free(key_swapped(l, k1, k2), k),
{
    lemma_key_swap_shape(l, k1, k2);
    let m = key_swapped(l, k1, k2);
    if k == k1 {
        assert(m[95 + k as int] == l[95 + k2 as int]);
        assert(m[142 + k as int] == l[142 + k2 as int]);
    } else if k == k2 {
        assert(m[95 + k as int] == l[95 + k1 as int]);
        assert(m[142 + k as int] == l[142 + k1 as int]);
    } else {
        assert(m[95 + k as int] == l[95 + k as int]);
        assert(m[142 + k as int] == l[142 + k as int]);
    }
}

/// A key swap keeps an eligible letter key eligible, provided its
/// partner carried an unfrozen letter too.
proof fn lemma_key_swap_letter_eligible(l: Seq<u8>, k1: u8, k2: u8, k: u8)
    requires
        bijective_layout(l),
        1 <= k1 < 48,
        1 <= k2 < 48,
        letter_key_eligible(l, k),
        k == k1 ==> (is_letter_index(l[95 + k2 as int]) && !is_frozen(l[95 + k2 as int])
            && !is_frozen(l[142 + k2 as int])),
        k == k2 ==> (is_letter_index(l[95 + k1 as int]) && !is_frozen(l[95 + k1 as int])
            && !is_frozen(l[142 + k1 as int])),
    ensures
        letter_key_eligible(key_swapped(l, k1, k2), k),
{
    lemma_key_swap_shape(l, k1, k2);
    let m = key_swapped(l, k1, k2);
    if k == k1 {
        assert(m[95 + k as int] == l[95 + k2 as int]);
        assert(m[142 + k as int] == l[142 + k2 as int]);
    } else if k == k2 {
        assert(m[95 + k as int] == l[95 + k1 as int]);
        assert(m[142 + k as int] == l[142 + k1 as int]);
    } else {
        assert(m[95 + k as int] == l[95 + k as int]);
        assert(m[142 + k as int] == l[142 + k as int]);
    }
}

} // verus!
