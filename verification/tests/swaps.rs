use layout_opt::layout::{
    assert_valid_layout, layout_from_string, letter_pairs_aligned_check, qwerty_string,
    white_string,
};
use layout_opt::swap::{apply_key_swap, apply_symbol_swap, LayoutSwapper};

#[test]
fn key_swap_twice_restores_layout() {
    let start = layout_from_string(qwerty_string()).unwrap();
    let mut l = start.clone();
    apply_key_swap(&mut l, 27, 37);
    assert_ne!(l, start);
    assert!(assert_valid_layout(&l).is_ok());
    apply_key_swap(&mut l, 27, 37);
    assert_eq!(l, start);
}

#[test]
fn key_swap_moves_both_halves() {
    // On QWERTY key 27 carries 'a'/'A' and key 28 carries 's'/'S'.
    let mut l = layout_from_string(qwerty_string()).unwrap();
    apply_key_swap(&mut l, 27, 28);
    assert_eq!(l[65], 28); // 'a' now on key 28
    assert_eq!(l[83], 27); // 's' now on key 27
    assert_eq!(l[33], 28 + 47); // 'A' on the shifted half of key 28
    assert_eq!(l[51], 27 + 47); // 'S' on the shifted half of key 27
    assert!(assert_valid_layout(&l).is_ok());
    assert!(letter_pairs_aligned_check(&l));
}

#[test]
fn symbol_swap_twice_restores_layout() {
    let start = layout_from_string(qwerty_string()).unwrap();
    let mut l = start.clone();
    // ';' has character index 27, ',' has character index 12.
    apply_symbol_swap(&mut l, 27, 12);
    assert_ne!(l, start);
    apply_symbol_swap(&mut l, 27, 12);
    assert_eq!(l, start);
}

#[test]
fn symbol_swap_exchanges_actions() {
    let mut l = layout_from_string(qwerty_string()).unwrap();
    // On QWERTY ';' (index 27) sits on action 36 and ',' (index 12)
    // on action 45.
    assert_eq!(l[27], 36);
    assert_eq!(l[12], 45);
    apply_symbol_swap(&mut l, 27, 12);
    assert_eq!(l[27], 45);
    assert_eq!(l[12], 36);
    assert_eq!(l[95 + 45], 27);
    assert_eq!(l[95 + 36], 12);
    assert!(assert_valid_layout(&l).is_ok());
    assert!(letter_pairs_aligned_check(&l));
}

#[test]
fn swapper_counts_qwerty_candidates() {
    let l = layout_from_string(qwerty_string()).unwrap();
    let sw = LayoutSwapper::new(&l).unwrap();
    // 94 characters minus 52 letters minus 10 frozen digits leave 32
    // free symbols; all 8 home keys are free; the letter keys of rows
    // two to four minus the home eight and the four excluded keys
    // leave 18.
    assert_eq!(sw.candidate_counts(), (32, 8, 18));
}

#[test]
fn swapper_letter_class_reaches_last_key() {
    // On the White layout key 47 carries 'z'/'Z': it is a letter key
    // and must be a candidate, so the letter class counts it.
    let l = layout_from_string(white_string()).unwrap();
    assert_eq!(l[95 + 47], b'z' - 32);
    let sw = LayoutSwapper::new(&l).unwrap();
    let (symbols, homes, letters) = sw.candidate_counts();
    assert_eq!(symbols, 32);
    assert_eq!(homes, 8);
    // 7 letter keys in the second row, 'b' and 'c' in the third, and
    // 9 in the bottom row including key 47.
    assert_eq!(letters, 18);
}

#[test]
fn random_swaps_preserve_invariants() {
    let mut l = layout_from_string(qwerty_string()).unwrap();
    let mut sw = LayoutSwapper::new(&l).unwrap();
    for _ in 0..300 {
        assert!(sw.can_swap());
        sw.swap(&mut l);
        assert!(assert_valid_layout(&l).is_ok());
        assert!(letter_pairs_aligned_check(&l));
    }
}

#[test]
fn frozen_digits_never_move() {
    let mut l = layout_from_string(qwerty_string()).unwrap();
    // The digits '0'..='9' have character indices 16..=25.
    let digit_actions: Vec<u8> = (16..26).map(|c| l[c]).collect();
    let mut sw = LayoutSwapper::new(&l).unwrap();
    for _ in 0..300 {
        assert!(sw.can_swap());
        sw.swap(&mut l);
        for (d, &a) in (16..26).zip(digit_actions.iter()) {
            assert_eq!(l[d], a);
        }
    }
}
