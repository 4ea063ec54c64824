//! The per-word decomposition of the cost function.
//!
//! Scoring a word walks two sliding windows over its characters: each
//! consecutive pair of actions is charged from the dense pair table,
//! and each triple whose first two actions are not space and which
//! passes the triple filter is looked up in the sparse triple table.
//! This module computes exactly which table accesses a word makes;
//! the tables themselves hold floating-point penalties and live with
//! the caller.

use vstd::prelude::*;
use crate::layout::valid_layout;
use crate::tables::{spec_triple_filter, triple_filter};

verus! {

/// The action of the word's character at position `i`, with space (0)
/// standing in before the first character.
pub open spec fn action_at(l: Seq<u8>, w: Seq<u8>, i: int) -> u8 {
    if i < 0 {
        0
    } else {
        l[w[i] as int]
    }
}

/// The consecutive action pairs the dense table is charged for, one
/// per character.
pub open spec fn word_pairs(l: Seq<u8>, w: Seq<u8>) -> Seq<(u8, u8)> {
    Seq::new(w.len(), |i: int| (action_at(l, w, i - 1), action_at(l, w, i)))
}

/// Whether the window ending at position `i` reaches the triple
/// table: neither of the two earlier actions is space, and the filter
/// accepts.
pub open spec fn triple_kept(l: Seq<u8>, w: Seq<u8>, i: int) -> bool {
    let k0 = action_at(l, w, i - 2);
    let k1 = action_at(l, w, i - 1);
    let k2 = action_at(l, w, i);
    k0 != 0 && k1 != 0 && spec_triple_filter(k0 as int, k1 as int, k2 as int)
}

/// The action triples looked up for the first `n` characters, in
/// order.
pub open spec fn word_triples_upto(l: Seq<u8>, w: Seq<u8>, n: int) -> Seq<(u8, u8, u8)>
    decreases n,
{
    if n <= 2 {
        Seq::empty()
    } else {
        word_triples_upto(l, w, n - 1) + if triple_kept(l, w, n - 1) {
            seq![(action_at(l, w, n - 3), action_at(l, w, n - 2), action_at(l, w, n - 1))]
        } else {
            Seq::empty()
        }
    }
}

/// The action triples looked up for the whole word, in order.
pub open spec fn word_triples(l: Seq<u8>, w: Seq<u8>) -> Seq<(u8, u8, u8)> {
    word_triples_upto(l, w, w.len() as int)
}

/// The triples looked up for a word are exactly the three-action
/// windows that pass the space gate and the filter: nothing is
/// dropped and nothing else is consulted.
pub proof fn lemma_word_triples_membership(l: Seq<u8>, w: Seq<u8>, t: (u8, u8, u8))
    ensures
        word_triples(l, w).contains(t) <==> exists|i: int|
            2 <= i < w.len() && #[trigger] triple_kept(l, w, i) && t == (
                action_at(l, w, i - 2),
                action_at(l, w, i - 1),
                action_at(l, w, i),
            ),
{
    lemma_triples_upto_membership(l, w, w.len() as int, t);
}

proof fn lemma_triples_upto_membership(l: Seq<u8>, w: Seq<u8>, n: int, t: (u8, u8, u8))
    requires
        n <= w.len(),
    ensures
        word_triples_upto(l, w, n).contains(t) <==> exists|i: int|
            2 <= i < n && #[trigger] triple_kept(l, w, i) && t == (
                action_at(l, w, i - 2),
                action_at(l, w, i - 1),
                action_at(l, w, i),
            ),
    decreases n,
{
    let cur = word_triples_upto(l, w, n);
    if n <= 2 {
        assert(cur.len() == 0);
        assert(!cur.contains(t));
    } else {
        lemma_triples_upto_membership(l, w, n - 1, t);
        let prev = word_triples_upto(l, w, n - 1);
        if triple_kept(l, w, n - 1) {
            let tn = (action_at(l, w, n - 3), action_at(l, w, n - 2), action_at(l, w, n - 1));
            assert(cur == prev + seq![tn]);
            assert(cur[prev.len() as int] == tn);
            if cur.contains(t) {
                let idx = choose|idx: int| 0 <= idx < cur.len() && cur[idx] == t;
                if idx < prev.len() {
                    assert(prev[idx] == t);
                    assert(prev.contains(t));
                } else {
                    assert(t == tn);
                    assert(triple_kept(l, w, n - 1));
                }
            }
            if prev.contains(t) {
                let idx = choose|idx: int| 0 <= idx < prev.len() && prev[idx] == t;
                assert(cur[idx] == t);
                assert(cur.contains(t));
            }
            if t == tn {
                assert(cur.contains(t));
            }
        } else {
            assert(cur =~= prev);
        }
    }
}

/// Walk a word (as normalized character bytes) under a layout and
/// return exactly the pair-table indices and the filtered triples
/// that its score sums.
pub fn word_scan(layout: &Vec<u8>, word: &Vec<u8>) -> (r: (Vec<(u8, u8)>, Vec<(u8, u8, u8)>))
    requires
        valid_layout(layout@),
        forall|i: int| 0 <= i < word@.len() ==> #[trigger] word@[i] < 95,
    ensures
        r.0@ == word_pairs(layout@, word@),
        r.1@ == word_triples(layout@, word@),
        forall|i: int|
            0 <= i < r.0@.len() ==> (#[trigger] r.0@[i]).0 < 95 && r.0@[i].1 < 95,
{
    let mut pairs: Vec<(u8, u8)> = Vec::new();
    let mut triples: Vec<(u8, u8, u8)> = Vec::new();
    let mut k0: u8 = 0;
    let mut k1: u8 = 0;
    let mut i: usize = 0;
    let n = word.len();
    while i < n
        invariant
            valid_layout(layout@),
            forall|j: int| 0 <= j < word@.len() ==> #[trigger] word@[j] < 95,
            n == word@.len(),
            i <= n,
            k0 == action_at(layout@, word@, i as int - 2),
            k1 == action_at(layout@, word@, i as int - 1),
            pairs@ == word_pairs(layout@, word@).subrange(0, i as int),
            triples@ == word_triples_upto(layout@, word@, i as int),
        decreases n - i,
    {
        let c2 = word[i];
        let k2 = layout[c2 as usize];
        pairs.push((k1, k2));
        if k0 != 0 && k1 != 0 && triple_filter(k0, k1, k2) {
            triples.push((k0, k1, k2));
        }
        proof {
            assert(word_pairs(layout@, word@).subrange(0, i + 1) =~= word_pairs(
                layout@,
                word@,
            ).subrange(0, i as int).push((k1, k2)));
            assert(action_at(layout@, word@, i as int) == k2);
        }
        k0 = k1;
        k1 = k2;
        i = i + 1;
    }
    proof {
        assert(word_pairs(layout@, word@).subrange(0, n as int) =~= word_pairs(layout@, word@));
        assert forall|j: int|
            0 <= j < pairs@.len() implies (#[trigger] pairs@[j]).0 < 95 && pairs@[j].1 < 95 by {
            assert(pairs@[j] == (action_at(layout@, word@, j - 1), action_at(layout@, word@, j)));
        }
    }
    (pairs, triples)
}

/// A byte buffer of words separated by the normalized space byte 0,
/// split into the words, in order.
pub open spec fn split_words_upto(buf: Seq<u8>, n: int, run: Seq<u8>) -> Seq<Seq<u8>>
    decreases buf.len() - n,
{
    if n < 0 || n >= buf.len() {
        seq![run]
    } else if buf[n] == 0 {
        seq![run] + split_words_upto(buf, n + 1, Seq::empty())
    } else {
        split_words_upto(buf, n + 1, run.push(buf[n]))
    }
}

/// The words of a separator-joined buffer, in order.  An empty buffer
/// holds one empty word, as splitting does.
pub open spec fn split_words_spec(buf: Seq<u8>) -> Seq<Seq<u8>> {
    split_words_upto(buf, 0, Seq::empty())
}

/// Split the corpus word buffer at the normalized space bytes.
pub fn split_words(buf: &Vec<u8>) -> (r: Vec<Vec<u8>>)
    ensures
        r@.len() == split_words_spec(buf@).len(),
        forall|j: int| 0 <= j < r@.len() ==> #[trigger] r@[j]@ == split_words_spec(buf@)[j],
{
    let mut r: Vec<Vec<u8>> = Vec::new();
    let mut run: Vec<u8> = Vec::new();
    let ghost mut built: Seq<Seq<u8>> = Seq::empty();
    let mut i: usize = 0;
    let n = buf.len();
    while i < n
        invariant
            n == buf@.len(),
            i <= n,
            split_words_spec(buf@) == built + split_words_upto(buf@, i as int, run@),
            r@.len() == built.len(),
            forall|j: int| 0 <= j < built.len() ==> #[trigger] r@[j]@ == built[j],
        decreases n - i,
    {
        let ghost built0 = built;
        let ghost run0 = run@;
        let b = buf[i];
        if b == 0 {
            r.push(run);
            run = Vec::new();
            proof {
                built = built0.push(run0);
                assert(split_words_upto(buf@, i as int, run0) == seq![run0]
                    + split_words_upto(buf@, i + 1, Seq::empty()));
                assert(built0.push(run0) + split_words_upto(buf@, i + 1, Seq::empty()) =~= built0
                    + split_words_upto(buf@, i as int, run0));
            }
        } else {
            run.push(b);
            proof {
                assert(run@ == run0.push(buf@[i as int]));
                assert(split_words_upto(buf@, i as int, run0) == split_words_upto(
                    buf@,
                    i + 1,
                    run0.push(buf@[i as int]),
                ));
            }
        }
        i = i + 1;
    }
    proof {
        assert(split_words_upto(buf@, n as int, run@) == seq![run@]);
        assert(split_words_spec(buf@) =~= built.push(run@));
    }
    r.push(run);
    r
}

} // verus!
