use layout_opt::corpus::text_tokens;
use layout_opt::layout::{layout_from_string, qwerty_string};
use layout_opt::objective::{split_words, word_scan};

fn normalized(s: &str) -> Vec<u8> {
    s.bytes().map(|b| b - 32).collect()
}

#[test]
fn word_scan_asdf_on_qwerty() {
    let l = layout_from_string(qwerty_string()).unwrap();
    let word = normalized("asdf");
    let (pairs, triples) = word_scan(&l, &word);
    // 'a', 's', 'd', 'f' sit on keys 27..=30; the first pair starts
    // from the space action.
    assert_eq!(pairs, vec![(0, 27), (27, 28), (28, 29), (29, 30)]);
    // Both sliding triples pass the filter (difference 0).
    assert_eq!(triples, vec![(27, 28, 29), (28, 29, 30)]);
}

#[test]
fn word_scan_filters_triples() {
    let l = layout_from_string(qwerty_string()).unwrap();
    // 'q', 'a', 'z' sit on keys 14, 27, 38: the filter rejects the
    // triple (difference 2).
    let word = normalized("qaz");
    let (pairs, triples) = word_scan(&l, &word);
    assert_eq!(pairs, vec![(0, 14), (14, 27), (27, 38)]);
    assert_eq!(triples, Vec::<(u8, u8, u8)>::new());
}

#[test]
fn word_scan_space_blocks_triples() {
    let l = layout_from_string(qwerty_string()).unwrap();
    // A space inside the window keeps the triple away from the table.
    let word = normalized("a b");
    let (pairs, triples) = word_scan(&l, &word);
    assert_eq!(pairs, vec![(0, 27), (27, 0), (0, 42)]);
    assert_eq!(triples, Vec::<(u8, u8, u8)>::new());
}

#[test]
fn word_scan_empty_word() {
    let l = layout_from_string(qwerty_string()).unwrap();
    let (pairs, triples) = word_scan(&l, &Vec::new());
    assert!(pairs.is_empty());
    assert!(triples.is_empty());
}

#[test]
fn split_words_on_separators() {
    let buf = vec![65u8, 66, 0, 67, 0, 68];
    let words = split_words(&buf);
    assert_eq!(words, vec![vec![65u8, 66], vec![67], vec![68]]);
}

#[test]
fn split_words_edges() {
    assert_eq!(split_words(&Vec::new()), vec![Vec::<u8>::new()]);
    let buf = vec![0u8, 65, 0];
    assert_eq!(split_words(&buf), vec![Vec::new(), vec![65u8], Vec::new()]);
}

#[test]
fn text_tokens_splits_words_and_punctuation() {
    let text: Vec<u8> = b"hello, world".to_vec();
    let tokens = text_tokens(&text);
    let expected: Vec<Vec<u8>> = vec![b"hello".to_vec(), b",".to_vec(), b"world".to_vec()];
    assert_eq!(tokens, expected);
}

#[test]
fn text_tokens_keeps_apostrophes() {
    let text: Vec<u8> = b"don't stop".to_vec();
    let tokens = text_tokens(&text);
    assert_eq!(tokens, vec![b"don't".to_vec(), b"stop".to_vec()]);
}

#[test]
fn text_tokens_single_symbols_and_whitespace() {
    let text: Vec<u8> = b"a.b\t c\nd".to_vec();
    let tokens = text_tokens(&text);
    let expected: Vec<Vec<u8>> =
        vec![b"a".to_vec(), b".".to_vec(), b"b".to_vec(), b"c".to_vec(), b"d".to_vec()];
    assert_eq!(tokens, expected);
}

#[test]
fn text_tokens_empty_text() {
    assert_eq!(text_tokens(&Vec::new()), Vec::<Vec<u8>>::new());
}

#[test]
fn word_scan_shift_pairs() {
    // A layout with 'a' on action 1 and 'A' on action 48: typing "aA"
    // charges the pair table at (0, 1) and then (1, 48), the shifted
    // half of the same key.
    let t: Vec<char> = qwerty_string().chars().filter(|c| !c.is_whitespace()).collect();
    let mut u = t.clone();
    u[0] = t[26]; // 'a' to action 1
    u[26] = t[0];
    u[47] = t[73]; // 'A' to action 48
    u[73] = t[47];
    let s: String = u.into_iter().collect();
    let l = layout_from_string(&s).unwrap();
    assert_eq!(l[65], 1);
    assert_eq!(l[33], 48);
    let word = normalized("aA");
    let (pairs, triples) = word_scan(&l, &word);
    assert_eq!(pairs, vec![(0, 1), (1, 48)]);
    assert_eq!(triples, Vec::<(u8, u8, u8)>::new());
}
