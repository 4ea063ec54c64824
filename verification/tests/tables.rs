use layout_opt::tables::{finger_table_vec, hand_alternation, triple_filter, triple_keys};

#[test]
fn triple_filter_test() {
    for &(k0, k1, k2) in triple_keys().iter() {
        assert!(
            triple_filter(k0, k1, k2),
            "Triple filter has a false negative for {}, {}, {}",
            k0,
            k1,
            k2
        );
    }
}

#[test]
fn triple_filter_covers_reversed_triples() {
    // The difference 2*k1 - k0 - k2 is unchanged by reversal, so the
    // reversed entries of the triple table pass as well.
    for &(k0, k1, k2) in triple_keys().iter() {
        assert!(triple_filter(k2, k1, k0));
    }
}

#[test]
fn triple_filter_concrete_values() {
    assert!(triple_filter(27, 28, 29)); // d = 0
    assert!(triple_filter(1, 5, 20)); // d = -11
    assert!(triple_filter(27, 14, 1)); // d = 0
    assert!(!triple_filter(10, 1, 1)); // d = -9
    assert!(!triple_filter(1, 1, 20)); // d = -19
    assert!(!triple_filter(40, 1, 1)); // d = -39
}

#[test]
fn triple_table_has_52_entries() {
    assert_eq!(triple_keys().len(), 52);
    assert_eq!(triple_keys()[0], (1, 3, 4));
    assert_eq!(triple_keys()[51], (37, 36, 34));
}

#[test]
fn finger_table_values() {
    let fingers = finger_table_vec();
    assert_eq!(fingers.len(), 48);
    assert_eq!(fingers[0], 0); // thumb on space
    assert_eq!(fingers[1], 1); // left pinky on the backtick key
    assert_eq!(fingers[13], 8); // right pinky at the row's end
    assert_eq!(fingers[27], 1); // left pinky home
    assert_eq!(fingers[30], 4); // left index home
    assert_eq!(fingers[34], 5); // right index home
    assert_eq!(fingers[37], 8); // right pinky home
}

#[test]
fn hand_alternation_cases() {
    let fingers = finger_table_vec();
    // Keys 27 (left pinky) and 34 (right index) alternate hands.
    assert!(hand_alternation(&fingers, 27, 34));
    // Keys 27 and 29 are both on the left hand.
    assert!(!hand_alternation(&fingers, 27, 29));
    // The space action never alternates.
    assert!(!hand_alternation(&fingers, 0, 34));
    assert!(!hand_alternation(&fingers, 27, 0));
    // Shifted actions use the finger of their key: 74 is key 27 with
    // shift held.
    assert!(hand_alternation(&fingers, 74, 34));
}
