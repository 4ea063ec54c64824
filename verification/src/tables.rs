//! The static key tables that the cost model reads: the
//! finger-of-key assignment and the keys of the sparse triple table,
//! together with the constant-time filter that guards triple lookups.

use vstd::prelude::*;

verus! {

/// Which finger presses each key: 0 is the thumb (space only),
/// 1..=4 are the left pinky through index, 5..=8 the right index
/// through pinky.
pub open spec fn finger_table() -> Seq<u8> {
    seq![
        0u8,
        1u8, 1u8, 2u8, 3u8, 3u8, 4u8, 4u8, 5u8, 5u8, 6u8, 6u8, 7u8, 8u8,
        1u8, 2u8, 3u8, 4u8, 4u8, 4u8, 5u8, 5u8, 6u8, 7u8, 8u8, 8u8, 8u8,
        1u8, 2u8, 3u8, 4u8, 4u8, 5u8, 5u8, 5u8, 6u8, 7u8, 8u8,
        2u8, 3u8, 4u8, 4u8, 4u8, 5u8, 5u8, 5u8, 6u8, 7u8,
    ]
}

/// The finger assignment as a vector, for table building.
pub fn finger_table_vec() -> (r: Vec<u8>)
    ensures
        r@ == finger_table(),
{
    let mut r: Vec<u8> = Vec::new();
    r.push(0);
    r.push(1);
    r.push(1);
    r.push(2);
    r.push(3);
    r.push(3);
    r.push(4);
    r.push(4);
    r.push(5);
    r.push(5);
    r.push(6);
    r.push(6);
    r.push(7);
    r.push(8);
    r.push(1);
    r.push(2);
    r.push(3);
    r.push(4);
    r.push(4);
    r.push(4);
    r.push(5);
    r.push(5);
    r.push(6);
    r.push(7);
    r.push(8);
    r.push(8);
    r.push(8);
    r.push(1);
    r.push(2);
    r.push(3);
    r.push(4);
    r.push(4);
    r.push(5);
    r.push(5);
    r.push(5);
    r.push(6);
    r.push(7);
    r.push(8);
    r.push(2);
    r.push(3);
    r.push(4);
    r.push(4);
    r.push(4);
    r.push(5);
    r.push(5);
    r.push(5);
    r.push(6);
    r.push(7);
    proof {
        assert(r@ =~= finger_table());
    }
    r
}

/// The physical key behind an action: actions 48..=94 are the keys
/// 1..=47 with shift held.
pub open spec fn key_of_action(a: int) -> int {
    if a < 48 {
        a
    } else {
        a - 47
    }
}

/// Whether two actions are pressed by fingers on opposite hands.
/// The thumb (finger 0, space) never alternates.
pub open spec fn hand_alt_spec(i: int, j: int) -> bool {
    let fi = finger_table()[key_of_action(i)];
    let fj = finger_table()[key_of_action(j)];
    fi != 0 && fj != 0 && ((fi < 5 && fj >= 5) || (fj < 5 && fi >= 5))
}

/// Decide hand alternation between two actions, given the finger
/// table.
pub fn hand_alternation(fingers: &Vec<u8>, i: usize, j: usize) -> (r: bool)
    requires
        fingers@ == finger_table(),
        i < 95,
        j < 95,
    ensures
        r == hand_alt_spec(i as int, j as int),
{
    let ki = if i < 48 {
        i
    } else {
        i - 47
    };
    let kj = if j < 48 {
        j
    } else {
        j - 47
    };
    let fi = fingers[ki];
    let fj = fingers[kj];
    fi != 0 && fj != 0 && ((fi < 5 && fj >= 5) || (fj < 5 && fi >= 5))
}

/// Some key of the rows 1..=47 is pressed by finger `f`.
pub open spec fn finger_used(f: int) -> bool {
    exists|k: int| 1 <= k < 48 && (#[trigger] finger_table()[k]) as int == f
}

/// The finger table is sound: the thumb holds exactly the space key,
/// every other key belongs to one of the eight fingers, and every
/// finger holds some key.
pub proof fn lemma_finger_table_wf()
    ensures
        finger_table().len() == 48,
        finger_table()[0] == 0,
        forall|k: int| 1 <= k < 48 ==> 1 <= #[trigger] finger_table()[k] <= 8,
        forall|f: int| 1 <= f <= 8 ==> #[trigger] finger_used(f),
{
    assert forall|f: int| 1 <= f <= 8 implies #[trigger] finger_used(f) by {
        if f == 1 {
            assert(finger_table()[1] as int == 1);
        } else if f == 2 {
            assert(finger_table()[3] as int == 2);
        } else if f == 3 {
            assert(finger_table()[4] as int == 3);
        } else if f == 4 {
            assert(finger_table()[6] as int == 4);
        } else if f == 5 {
            assert(finger_table()[8] as int == 5);
        } else if f == 6 {
            assert(finger_table()[10] as int == 6);
        } else if f == 7 {
            assert(finger_table()[12] as int == 7);
        } else {
            assert(finger_table()[13] as int == 8);
        }
    }
}

/// The constant-time filter in front of the triple table: accept when
/// `d = 2*k1 - k0 - k2` falls in the small set of differences that
/// the table's keys produce.  False positives fall through to the
/// lookup; the coverage lemma below rules out false negatives.
pub open spec fn spec_triple_filter(k0: int, k1: int, k2: int) -> bool {
    let d = 2 * k1 - k0 - k2;
    (-1 <= d && d <= 1) || (-13 <= d && d <= -10) || d == -26
}

/// Decide the triple filter.
pub fn triple_filter(k0: u8, k1: u8, k2: u8) -> (r: bool)
    ensures
        r == spec_triple_filter(k0 as int, k1 as int, k2 as int),
{
    let d = 2 * (k1 as i32) - (k0 as i32) - (k2 as i32);
    (-1 <= d && d <= 1) || (-13 <= d && d <= -10) || d == -26
}

/// The key triples that carry a penalty in the triple table, in
/// table order.
pub open spec fn triple_table_keys() -> Seq<(u8, u8, u8)> {
    seq![
        (1u8, 3u8, 4u8), (2u8, 3u8, 4u8), (2u8, 3u8, 5u8), (14u8, 3u8, 4u8), (14u8, 3u8, 5u8),
        (14u8, 15u8, 16u8), (27u8, 15u8, 16u8), (27u8, 28u8, 29u8), (27u8, 28u8, 30u8),
        (27u8, 29u8, 30u8),
        (3u8, 4u8, 6u8), (3u8, 5u8, 6u8), (3u8, 4u8, 17u8), (3u8, 5u8, 17u8), (15u8, 16u8, 17u8),
        (15u8, 16u8, 18u8), (15u8, 16u8, 30u8), (28u8, 29u8, 30u8), (28u8, 29u8, 31u8),
        (28u8, 29u8, 40u8), (28u8, 29u8, 41u8), (28u8, 16u8, 30u8), (28u8, 16u8, 17u8),
        (38u8, 39u8, 40u8), (38u8, 39u8, 41u8),
        (12u8, 11u8, 9u8), (12u8, 10u8, 9u8), (12u8, 11u8, 21u8), (12u8, 10u8, 21u8),
        (23u8, 22u8, 21u8), (23u8, 22u8, 20u8), (23u8, 22u8, 34u8), (36u8, 35u8, 34u8),
        (36u8, 35u8, 33u8), (36u8, 35u8, 45u8), (36u8, 35u8, 44u8), (36u8, 22u8, 34u8),
        (36u8, 22u8, 21u8), (47u8, 46u8, 45u8), (47u8, 46u8, 44u8),
        (13u8, 12u8, 11u8), (13u8, 12u8, 10u8), (24u8, 12u8, 11u8), (24u8, 12u8, 10u8),
        (24u8, 23u8, 22u8), (25u8, 12u8, 11u8), (25u8, 12u8, 10u8), (25u8, 23u8, 22u8),
        (37u8, 36u8, 35u8), (37u8, 23u8, 22u8), (37u8, 35u8, 34u8), (37u8, 36u8, 34u8),
    ]
}

/// The key triples as a vector, in table order, for building the
/// penalty map beside the per-entry penalties.
pub fn triple_keys() -> (r: Vec<(u8, u8, u8)>)
    ensures
        r@ == triple_table_keys(),
{
    let mut r: Vec<(u8, u8, u8)> = Vec::new();
    r.push((1, 3, 4));
    r.push((2, 3, 4));
    r.push((2, 3, 5));
    r.push((14, 3, 4));
    r.push((14, 3, 5));
    r.push((14, 15, 16));
    r.push((27, 15, 16));
    r.push((27, 28, 29));
    r.push((27, 28, 30));
    r.push((27, 29, 30));
    r.push((3, 4, 6));
    r.push((3, 5, 6));
    r.push((3, 4, 17));
    r.push((3, 5, 17));
    r.push((15, 16, 17));
    r.push((15, 16, 18));
    r.push((15, 16, 30));
    r.push((28, 29, 30));
    r.push((28, 29, 31));
    r.push((28, 29, 40));
    r.push((28, 29, 41));
    r.push((28, 16, 30));
    r.push((28, 16, 17));
    r.push((38, 39, 40));
    r.push((38, 39, 41));
    r.push((12, 11, 9));
    r.push((12, 10, 9));
    r.push((12, 11, 21));
    r.push((12, 10, 21));
    r.push((23, 22, 21));
    r.push((23, 22, 20));
    r.push((23, 22, 34));
    r.push((36, 35, 34));
    r.push((36, 35, 33));
    r.push((36, 35, 45));
    r.push((36, 35, 44));
    r.push((36, 22, 34));
    r.push((36, 22, 21));
    r.push((47, 46, 45));
    r.push((47, 46, 44));
    r.push((13, 12, 11));
    r.push((13, 12, 10));
    r.push((24, 12, 11));
    r.push((24, 12, 10));
    r.push((24, 23, 22));
    r.push((25, 12, 11));
    r.push((25, 12, 10));
    r.push((25, 23, 22));
    r.push((37, 36, 35));
    r.push((37, 23, 22));
    r.push((37, 35, 34));
    r.push((37, 36, 34));
    proof {
        assert(r@ =~= triple_table_keys());
    }
    r
}

/// The filter covers the triple table: every key triple of the table
/// passes it, so filtering before the lookup loses no entry.
pub proof fn lemma_triple_filter_covers()
    ensures
        forall|i: int|
            0 <= i < triple_table_keys().len() ==> spec_triple_filter(
                (#[trigger] triple_table_keys()[i]).0 as int,
                triple_table_keys()[i].1 as int,
                triple_table_keys()[i].2 as int,
            ),
{
}

} // verus!
