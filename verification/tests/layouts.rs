use layout_opt::layout::{
    assert_valid_layout, assert_valid_layout_string, check_valid_ascii_subset, colemak_string,
    dvorak_string, initial_layout_string, layout_from_string, layout_to_bytes,
    letter_pairs_aligned_check, proto_1_string, qwerty_string, white_string, workman_string,
    LayoutError,
};

fn stripped_bytes(s: &str) -> Vec<u8> {
    s.chars().filter(|c| !c.is_whitespace()).map(|c| c as u8).collect()
}

#[test]
fn qwerty_valid() {
    let l = layout_from_string(qwerty_string()).unwrap();
    assert!(assert_valid_layout(&l).is_ok());
}

#[test]
fn dvorak_valid() {
    let l = layout_from_string(dvorak_string()).unwrap();
    assert!(assert_valid_layout(&l).is_ok());
}

#[test]
fn colemak_valid() {
    let l = layout_from_string(colemak_string()).unwrap();
    assert!(assert_valid_layout(&l).is_ok());
}

#[test]
fn workman_valid() {
    let l = layout_from_string(workman_string()).unwrap();
    assert!(assert_valid_layout(&l).is_ok());
}

#[test]
fn initial_layout_valid() {
    let l = layout_from_string(initial_layout_string()).unwrap();
    assert!(assert_valid_layout(&l).is_ok());
}

#[test]
fn proto_1_valid() {
    let l = layout_from_string(proto_1_string()).unwrap();
    assert!(assert_valid_layout(&l).is_ok());
}

#[test]
fn white_valid() {
    let l = layout_from_string(white_string()).unwrap();
    assert!(assert_valid_layout(&l).is_ok());
}

#[test]
fn parse_round_trips_all_builtin_layouts() {
    for s in [
        qwerty_string(),
        dvorak_string(),
        colemak_string(),
        workman_string(),
        proto_1_string(),
        white_string(),
    ] {
        let l = layout_from_string(s).unwrap();
        assert_eq!(layout_to_bytes(&l), stripped_bytes(s));
    }
}

#[test]
fn qwerty_places_known_characters() {
    let l = layout_from_string(qwerty_string()).unwrap();
    // 'a' (index 65) sits on action 27, '`' (index 64) on action 1.
    assert_eq!(l[65], 27);
    assert_eq!(l[64], 1);
    // The inverse half returns the characters.
    assert_eq!(l[95 + 27], 65);
    assert_eq!(l[95 + 1], 64);
    // Space is pinned.
    assert_eq!(l[0], 0);
    assert_eq!(l[95], 0);
    // 'A' (index 33) sits on the shifted half of the 'a' key.
    assert_eq!(l[33], 27 + 47);
}

#[test]
fn letter_pairs_share_keys_on_builtins() {
    for s in [qwerty_string(), dvorak_string(), colemak_string(), workman_string()] {
        let l = layout_from_string(s).unwrap();
        assert!(letter_pairs_aligned_check(&l));
    }
}

#[test]
fn parse_rejects_wrong_length() {
    assert_eq!(layout_from_string("abc"), Err(LayoutError::WrongLength(3)));
}

#[test]
fn parse_rejects_invalid_char() {
    let mut s: String = qwerty_string().chars().filter(|c| !c.is_whitespace()).collect();
    s.replace_range(0..1, "\u{e9}");
    assert_eq!(layout_from_string(&s), Err(LayoutError::InvalidChar('\u{e9}')));
}

#[test]
fn parse_rejects_duplicate_char() {
    let mut s: String = qwerty_string().chars().filter(|c| !c.is_whitespace()).collect();
    // Replace the leading backtick with a second 'q'.
    s.replace_range(0..1, "q");
    assert_eq!(layout_from_string(&s), Err(LayoutError::DuplicateChar('q')));
}

#[test]
fn parse_rejects_misplaced_lowercase() {
    let t: Vec<char> = qwerty_string().chars().filter(|c| !c.is_whitespace()).collect();
    // Swap 'q' (position 13) with '~' (position 47): 'q' lands on a
    // shifted action.
    let mut u = t.clone();
    u[13] = t[47];
    u[47] = t[13];
    let s: String = u.into_iter().collect();
    assert_eq!(layout_from_string(&s), Err(LayoutError::MisplacedLowercase('q')));
}

#[test]
fn parse_rejects_misplaced_uppercase() {
    let t: Vec<char> = qwerty_string().chars().filter(|c| !c.is_whitespace()).collect();
    // Swap '`' (position 0) with 'Q' (position 60): 'Q' lands on a
    // plain action.
    let mut u = t.clone();
    u[0] = t[60];
    u[60] = t[0];
    let s: String = u.into_iter().collect();
    assert_eq!(layout_from_string(&s), Err(LayoutError::MisplacedUppercase('Q')));
}

#[test]
fn valid_layout_string_accepts_stripped_qwerty() {
    let s: String = qwerty_string().chars().filter(|c| !c.is_whitespace()).collect();
    assert!(assert_valid_layout_string(&s).is_ok());
}

#[test]
fn valid_layout_string_rejects_whitespace_form() {
    // The whitespace-tolerant text form is not a bare layout string.
    assert!(assert_valid_layout_string(qwerty_string()).is_err());
}

#[test]
fn layout_check_rejects_broken_arrays() {
    let mut l = layout_from_string(qwerty_string()).unwrap();
    assert!(assert_valid_layout(&l).is_ok());
    l[0] = 1;
    assert_eq!(assert_valid_layout(&l), Err(LayoutError::SpaceNotPinned));
    let short = vec![0u8; 189];
    assert_eq!(assert_valid_layout(&short), Err(LayoutError::WrongArrayLength(189)));
    let mut m = layout_from_string(qwerty_string()).unwrap();
    // Break the inverse without touching the pins.
    m[65] = 2;
    assert_eq!(assert_valid_layout(&m), Err(LayoutError::NotInverse(65)));
    let mut o = layout_from_string(qwerty_string()).unwrap();
    o[5] = 200;
    assert_eq!(assert_valid_layout(&o), Err(LayoutError::EntryOutOfRange(5)));
}

#[test]
fn layout_check_rejects_misplaced_case() {
    // Exchange the actions of 'a' (plain 27) and 'A' (shifted 74),
    // keeping the bijection intact: the case check must fire.
    let mut l = layout_from_string(qwerty_string()).unwrap();
    l[65] = 74;
    l[33] = 27;
    l[95 + 27] = 33;
    l[95 + 74] = 65;
    assert_eq!(assert_valid_layout(&l), Err(LayoutError::MisplacedLowercase('a')));
}

#[test]
fn ascii_subset_accepts_printable_text() {
    assert!(check_valid_ascii_subset("hello\tworld\r\nsecond line").is_ok());
}

#[test]
fn ascii_subset_reports_char_and_line() {
    assert_eq!(check_valid_ascii_subset("ab\ncd\u{7f}e"), Err(('\u{7f}', 2)));
    assert_eq!(check_valid_ascii_subset("\u{e9}"), Err(('\u{e9}', 1)));
}
