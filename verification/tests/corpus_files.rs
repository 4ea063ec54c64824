use layout_opt::corpus::{classify_corpus_file, split_frequency_line, CorpusFileKind,
    FrequencyLineError};

#[test]
fn frequency_line_splits_word_and_value() {
    let line = b"hello\t3.0".to_vec();
    assert_eq!(split_frequency_line(&line), Ok((b"hello".to_vec(), b"3.0".to_vec())));
}

#[test]
fn frequency_line_trims_word_and_stops_at_second_tab() {
    let line = b"  word \t2.5\textra".to_vec();
    assert_eq!(split_frequency_line(&line), Ok((b"word".to_vec(), b"2.5".to_vec())));
}

#[test]
fn frequency_line_without_tab_is_rejected() {
    let line = b"justaword".to_vec();
    assert_eq!(split_frequency_line(&line), Err(FrequencyLineError::MissingFrequency));
}

#[test]
fn frequency_line_with_empty_word() {
    let line = b"\t1.0".to_vec();
    assert_eq!(split_frequency_line(&line), Ok((Vec::new(), b"1.0".to_vec())));
}

#[test]
fn corpus_files_are_classified_by_name() {
    assert_eq!(classify_corpus_file(&b"corpus_1.wfl.txt".to_vec()), CorpusFileKind::FrequencyListOne);
    assert_eq!(classify_corpus_file(&b"corpus_2.wfl.txt".to_vec()), CorpusFileKind::FrequencyListTwo);
    assert_eq!(classify_corpus_file(&b"other.wfl.txt".to_vec()), CorpusFileKind::FrequencyListOther);
    assert_eq!(classify_corpus_file(&b"essay.txt".to_vec()), CorpusFileKind::RawText);
    assert_eq!(classify_corpus_file(&b"notes.md".to_vec()), CorpusFileKind::NotCorpus);
    assert_eq!(classify_corpus_file(&b"essay.txt.bak".to_vec()), CorpusFileKind::NotCorpus);
}
