//! Tokenization of raw corpus text.
//!
//! Raw text files contribute to the word-frequency table by counting
//! maximal runs of letters and apostrophes as words, and every other
//! non-whitespace character as a one-character token of its own.
//! Whitespace separates tokens and is never counted.

use vstd::prelude::*;

verus! {

/// The bytes that may extend a word: letters and the apostrophe.
pub open spec fn is_word_byte(b: u8) -> bool {
    (65 <= b && b <= 90) || (97 <= b && b <= 122) || b == 39
}

/// The bytes that separate tokens without being tokens: space, tab,
/// line feed and carriage return.
pub open spec fn is_separator_byte(b: u8) -> bool {
    b == 32 || b == 9 || b == 10 || b == 13
}

/// The word run `run`, emitted as a token if it is non-empty.
pub open spec fn emit_run(run: Seq<u8>) -> Seq<Seq<u8>> {
    if run.len() > 0 {
        seq![run]
    } else {
        Seq::empty()
    }
}

/// The tokens of `s` from position `i` on, given the word run read so
/// far.
pub open spec fn tokens_from(s: Seq<u8>, i: int, run: Seq<u8>) -> Seq<Seq<u8>>
    decreases s.len() - i,
{
    if i < 0 || i >= s.len() {
        emit_run(run)
    } else if is_word_byte(s[i]) {
        tokens_from(s, i + 1, run.push(s[i]))
    } else if is_separator_byte(s[i]) {
        emit_run(run) + tokens_from(s, i + 1, Seq::empty())
    } else {
        emit_run(run) + seq![seq![s[i]]] + tokens_from(s, i + 1, Seq::empty())
    }
}

/// All tokens of a text, in reading order.
pub open spec fn text_tokens_spec(s: Seq<u8>) -> Seq<Seq<u8>> {
    tokens_from(s, 0, Seq::empty())
}

/// Tokenize a raw text (as bytes): maximal runs of letters and
/// apostrophes become words, every other non-whitespace byte becomes
/// a one-byte token, and whitespace only separates.
pub fn text_tokens(text: &Vec<u8>) -> (r: Vec<Vec<u8>>)
    ensures
        r@.len() == text_tokens_spec(text@).len(),
        forall|j: int| 0 <= j < r@.len() ==> #[trigger] r@[j]@ == text_tokens_spec(text@)[j],
{
    let mut r: Vec<Vec<u8>> = Vec::new();
    let mut run: Vec<u8> = Vec::new();
    let ghost mut built: Seq<Seq<u8>> = Seq::empty();
    let mut i: usize = 0;
    let n = text.len();
    while i < n
        invariant
            n == text@.len(),
            i <= n,
            text_tokens_spec(text@) == built + tokens_from(text@, i as int, run@),
            r@.len() == built.len(),
            forall|j: int| 0 <= j < built.len() ==> #[trigger] r@[j]@ == built[j],
        decreases n - i,
    {
        let ghost built0 = built;
        let ghost run0 = run@;
        let b = text[i];
        if (65 <= b && b <= 90) || (97 <= b && b <= 122) || b == 39 {
            run.push(b);
            proof {
                assert(tokens_from(text@, i as int, run0) == tokens_from(
                    text@,
                    i + 1,
                    run0.push(text@[i as int]),
                ));
            }
        } else if b == 32 || b == 9 || b == 10 || b == 13 {
            if run.len() > 0 {
                r.push(run);
                run = Vec::new();
                proof {
                    built = built0.push(run0);
                    assert(emit_run(run0) =~= seq![run0]);
                    assert(built0 + emit_run(run0) =~= built);
                }
            } else {
                proof {
                    assert(run0 =~= Seq::<u8>::empty());
                    assert(emit_run(run0) =~= Seq::<Seq<u8>>::empty());
                    assert(built0 + emit_run(run0) =~= built);
                }
            }
            proof {
                assert(tokens_from(text@, i as int, run0) == emit_run(run0) + tokens_from(
                    text@,
                    i + 1,
                    Seq::empty(),
                ));
                assert(built + tokens_from(text@, i + 1, Seq::<u8>::empty()) =~= built0 + (emit_run(
                    run0,
                ) + tokens_from(text@, i + 1, Seq::empty())));
                assert(run@ =~= Seq::<u8>::empty());
            }
        } else {
            if run.len() > 0 {
                r.push(run);
                run = Vec::new();
                proof {
                    built = built0.push(run0);
                    assert(emit_run(run0) =~= seq![run0]);
                    assert(built0 + emit_run(run0) =~= built);
                }
            } else {
                proof {
                    assert(run0 =~= Seq::<u8>::empty());
                    assert(emit_run(run0) =~= Seq::<Seq<u8>>::empty());
                    assert(built0 + emit_run(run0) =~= built);
                }
            }
            let mut single: Vec<u8> = Vec::new();
            single.push(b);
            proof {
                assert(single@ =~= seq![text@[i as int]]);
            }
            r.push(single);
            proof {
                let ghost built1 = built;
                built = built1.push(seq![text@[i as int]]);
                assert(built1 + seq![seq![text@[i as int]]] =~= built);
                assert(tokens_from(text@, i as int, run0) == emit_run(run0) + seq![
                    seq![text@[i as int]],
                ] + tokens_from(text@, i + 1, Seq::empty()));
                assert(built + tokens_from(text@, i + 1, Seq::<u8>::empty()) =~= built0 + (emit_run(
                    run0,
                ) + seq![seq![text@[i as int]]] + tokens_from(text@, i + 1, Seq::empty())));
                assert(run@ =~= Seq::<u8>::empty());
            }
        }
        i = i + 1;
    }
    proof {
        assert(tokens_from(text@, n as int, run@) == emit_run(run@));
        if run@.len() > 0 {
            assert(emit_run(run@) =~= seq![run@]);
            assert(text_tokens_spec(text@) =~= built.push(run@));
        } else {
            assert(emit_run(run@) =~= Seq::<Seq<u8>>::empty());
            assert(text_tokens_spec(text@) =~= built);
        }
    }
    if run.len() > 0 {
        r.push(run);
    }
    r
}


/// Bytes that `trim` removes at either end of a word: the allowed
/// whitespace.
pub open spec fn is_blank_byte(b: u8) -> bool {
    b == 32 || b == 9 || b == 10 || b == 13
}

/// The word with its surrounding whitespace removed.
pub open spec fn trimmed(s: Seq<u8>) -> Seq<u8>
    decreases s.len(),
{
    if s.len() == 0 {
        s
    } else if is_blank_byte(s[0]) {
        trimmed(s.drop_first())
    } else if is_blank_byte(s.last()) {
        trimmed(s.drop_last())
    } else {
        s
    }
}

/// The position of the first tab at or after `i`, or the length when
/// none follows.
pub open spec fn tab_split_point(s: Seq<u8>, i: int) -> int
    decreases s.len() - i,
{
    if i < 0 || i >= s.len() {
        s.len() as int
    } else if s[i] == 9 {
        i
    } else {
        tab_split_point(s, i + 1)
    }
}

/// If no tab occurs before `i`, the first tab overall is the first
/// tab from `i` on.
proof fn lemma_tab_split_skip(s: Seq<u8>, i: int)
    requires
        0 <= i <= s.len(),
        forall|j: int| 0 <= j < i ==> s[j] != 9,
    ensures
        tab_split_point(s, 0) == tab_split_point(s, i),
    decreases i,
{
    if i > 0 {
        lemma_tab_split_skip(s, i - 1);
    }
}

/// Why a frequency-list line cannot be parsed.
#[derive(Clone, Copy, PartialEq, Eq, Structural, Debug)]
pub enum FrequencyLineError {
    /// No tab separates the word from its frequency.
    MissingFrequency,
}

/// Split one line of a word-frequency list into the word (trimmed)
/// and the text of its frequency: the fields are separated by tabs,
/// and a line without a tab carries no frequency.
pub fn split_frequency_line(line: &Vec<u8>) -> (r: Result<(Vec<u8>, Vec<u8>), FrequencyLineError>)
    ensures
        r is Ok <==> tab_split_point(line@, 0) < line@.len(),
        match r {
            Ok((word, freq)) => {
                let ft = tab_split_point(line@, 0);
                &&& word@ == trimmed(line@.subrange(0, ft))
                &&& freq@ == line@.subrange(ft + 1, tab_split_point(line@, ft + 1))
            },
            Err(e) => e == FrequencyLineError::MissingFrequency,
        },
{
    let n = line.len();
    let mut ft: usize = 0;
    while ft < n && line[ft] != 9
        invariant
            ft <= n,
            n == line@.len(),
            forall|j: int| 0 <= j < ft ==> line@[j] != 9,
        decreases n - ft,
    {
        ft = ft + 1;
    }
    proof {
        lemma_tab_split_skip(line@, ft as int);
    }
    if ft == n {
        return Err(FrequencyLineError::MissingFrequency);
    }
    let mut st: usize = ft + 1;
    while st < n && line[st] != 9
        invariant
            ft + 1 <= st <= n,
            n == line@.len(),
            forall|j: int| ft + 1 <= j < st ==> line@[j] != 9,
        decreases n - st,
    {
        st = st + 1;
    }
    proof {
        assert(tab_split_point(line@, ft as int + 1) == st as int) by {
            lemma_tab_split_suffix(line@, ft as int + 1, st as int);
        }
    }
    let mut lo: usize = 0;
    let mut hi: usize = ft;
    let ghost seg = line@.subrange(0, ft as int);
    while lo < hi && (line[lo] == 32 || line[lo] == 9 || line[lo] == 10 || line[lo] == 13)
        invariant
            lo <= hi <= ft <= n,
            n == line@.len(),
            seg == line@.subrange(0, ft as int),
            trimmed(seg) == trimmed(line@.subrange(lo as int, hi as int)),
        decreases hi - lo,
    {
        proof {
            let cur = line@.subrange(lo as int, hi as int);
            assert(is_blank_byte(cur[0]));
            assert(cur.drop_first() =~= line@.subrange(lo + 1, hi as int));
        }
        lo = lo + 1;
    }
    while hi > lo && (line[hi - 1] == 32 || line[hi - 1] == 9 || line[hi - 1] == 10 || line[hi - 1]
        == 13)
        invariant
            lo <= hi <= ft <= n,
            n == line@.len(),
            seg == line@.subrange(0, ft as int),
            trimmed(seg) == trimmed(line@.subrange(lo as int, hi as int)),
            lo < hi ==> !is_blank_byte(line@[lo as int]),
        decreases hi - lo,
    {
        proof {
            let cur = line@.subrange(lo as int, hi as int);
            assert(cur[0] == line@[lo as int]);
            assert(is_blank_byte(cur.last()));
            assert(cur.drop_last() =~= line@.subrange(lo as int, hi - 1));
        }
        hi = hi - 1;
    }
    proof {
        let cur = line@.subrange(lo as int, hi as int);
        if cur.len() > 0 {
            assert(cur[0] == line@[lo as int]);
            assert(cur.last() == line@[hi - 1]);
        }
        assert(trimmed(cur) == cur);
    }
    let mut word: Vec<u8> = Vec::new();
    let mut i: usize = lo;
    while i < hi
        invariant
            lo <= i <= hi <= n,
            n == line@.len(),
            word@ == line@.subrange(lo as int, i as int),
        decreases hi - i,
    {
        word.push(line[i]);
        proof {
            assert(word@ =~= line@.subrange(lo as int, i + 1));
        }
        i = i + 1;
    }
    let mut freq: Vec<u8> = Vec::new();
    let mut i: usize = ft + 1;
    while i < st
        invariant
            ft + 1 <= i <= st <= n,
            n == line@.len(),
            freq@ == line@.subrange(ft as int + 1, i as int),
        decreases st - i,
    {
        freq.push(line[i]);
        proof {
            assert(freq@ =~= line@.subrange(ft as int + 1, i + 1));
        }
        i = i + 1;
    }
    proof {
        assert(word@ == trimmed(line@.subrange(0, ft as int)));
    }
    Ok((word, freq))
}

/// If no tab occurs in positions `i..st` and `st` is the length or a
/// tab, then the first tab from `i` on is `st`.
proof fn lemma_tab_split_suffix(s: Seq<u8>, i: int, st: int)
    requires
        0 <= i <= st <= s.len(),
        forall|j: int| i <= j < st ==> s[j] != 9,
        st == s.len() || s[st] == 9,
    ensures
        tab_split_point(s, i) == st,
    decreases st - i,
{
    if i < st {
        lemma_tab_split_suffix(s, i + 1, st);
    }
}


/// The role a file of the corpus directory plays, by its name.
#[derive(Clone, Copy, PartialEq, Eq, Structural, Debug)]
pub enum CorpusFileKind {
    /// The first distinguished word-frequency list, which gets its
    /// own coefficient.
    FrequencyListOne,
    /// The second distinguished word-frequency list.
    FrequencyListTwo,
    /// Any other word-frequency list (suffix `.wfl.txt`).
    FrequencyListOther,
    /// A raw text (suffix `.txt` but not `.wfl.txt`).
    RawText,
    /// A file the corpus loader ignores.
    NotCorpus,
}

/// `s` ends with `suffix`.
pub open spec fn ends_with(s: Seq<u8>, suffix: Seq<u8>) -> bool {
    s.len() >= suffix.len() && s.subrange(s.len() - suffix.len(), s.len() as int) == suffix
}

/// The suffix `.txt`.
pub open spec fn txt_suffix() -> Seq<u8> {
    seq![46u8, 116u8, 120u8, 116u8]
}

/// The suffix `.wfl.txt`.
pub open spec fn wfl_suffix() -> Seq<u8> {
    seq![46u8, 119u8, 102u8, 108u8, 46u8, 116u8, 120u8, 116u8]
}

/// The name `corpus_1.wfl.txt`.
pub open spec fn corpus_one_name() -> Seq<u8> {
    seq![99u8, 111u8, 114u8, 112u8, 117u8, 115u8, 95u8, 49u8] + wfl_suffix()
}

/// The name `corpus_2.wfl.txt`.
pub open spec fn corpus_two_name() -> Seq<u8> {
    seq![99u8, 111u8, 114u8, 112u8, 117u8, 115u8, 95u8, 50u8] + wfl_suffix()
}

/// How the corpus loader treats a file name.
pub open spec fn classify_spec(name: Seq<u8>) -> CorpusFileKind {
    if !ends_with(name, txt_suffix()) {
        CorpusFileKind::NotCorpus
    } else if ends_with(name, wfl_suffix()) {
        if name == corpus_one_name() {
            CorpusFileKind::FrequencyListOne
        } else if name == corpus_two_name() {
            CorpusFileKind::FrequencyListTwo
        } else {
            CorpusFileKind::FrequencyListOther
        }
    } else {
        CorpusFileKind::RawText
    }
}

/// `name` ends with the bytes of `suffix`.
fn ends_with_exec(name: &Vec<u8>, suffix: &Vec<u8>) -> (r: bool)
    ensures
        r == ends_with(name@, suffix@),
{
    let nl = name.len();
    let sl = suffix.len();
    if nl < sl {
        return false;
    }
    let mut i: usize = 0;
    while i < sl
        invariant
            i <= sl,
            sl <= nl,
            nl == name@.len(),
            sl == suffix@.len(),
            forall|j: int| 0 <= j < i ==> name@[nl - sl + j] == suffix@[j],
        decreases sl - i,
    {
        if name[nl - sl + i] != suffix[i] {
            proof {
                assert(name@.subrange(nl - sl, nl as int)[i as int] != suffix@[i as int]);
            }
            return false;
        }
        i = i + 1;
    }
    proof {
        assert(name@.subrange(nl - sl, nl as int) =~= suffix@);
    }
    true
}

/// The two byte vectors hold the same bytes.
fn bytes_equal(a: &Vec<u8>, b: &Vec<u8>) -> (r: bool)
    ensures
        r == (a@ == b@),
{
    if a.len() != b.len() {
        proof {
            assert(a@.len() != b@.len());
        }
        return false;
    }
    let n = a.len();
    let mut i: usize = 0;
    while i < n
        invariant
            i <= n,
            n == a@.len(),
            n == b@.len(),
            forall|j: int| 0 <= j < i ==> a@[j] == b@[j],
        decreases n - i,
    {
        if a[i] != b[i] {
            return false;
        }
        i = i + 1;
    }
    proof {
        assert(a@ =~= b@);
    }
    true
}

fn txt_suffix_vec() -> (r: Vec<u8>)
    ensures
        r@ == txt_suffix(),
{
    let mut r: Vec<u8> = Vec::new();
    r.push(46);
    r.push(116);
    r.push(120);
    r.push(116);
    proof {
        assert(r@ =~= txt_suffix());
    }
    r
}

fn wfl_suffix_vec() -> (r: Vec<u8>)
    ensures
        r@ == wfl_suffix(),
{
    let mut r: Vec<u8> = Vec::new();
    r.push(46);
    r.push(119);
    r.push(102);
    r.push(108);
    r.push(46);
    r.push(116);
    r.push(120);
    r.push(116);
    proof {
        assert(r@ =~= wfl_suffix());
    }
    r
}

fn corpus_name_vec(digit: u8) -> (r: Vec<u8>)
    requires
        digit == 49 || digit == 50,
    ensures
        digit == 49 ==> r@ == corpus_one_name(),
        digit == 50 ==> r@ == corpus_two_name(),
{
    let mut r: Vec<u8> = Vec::new();
    r.push(99);
    r.push(111);
    r.push(114);
    r.push(112);
    r.push(117);
    r.push(115);
    r.push(95);
    r.push(digit);
    r.push(46);
    r.push(119);
    r.push(102);
    r.push(108);
    r.push(46);
    r.push(116);
    r.push(120);
    r.push(116);
    proof {
        if digit == 49 {
            assert(r@ =~= corpus_one_name());
        } else {
            assert(r@ =~= corpus_two_name());
        }
    }
    r
}

/// Decide how the corpus loader treats a file, by its name: raw
/// texts end in `.txt`, word-frequency lists in `.wfl.txt`, and the
/// two distinguished list names get their own coefficients.
pub fn classify_corpus_file(name: &Vec<u8>) -> (r: CorpusFileKind)
    ensures
        r == classify_spec(name@),
{
    let txt = txt_suffix_vec();
    if !ends_with_exec(name, &txt) {
        return CorpusFileKind::NotCorpus;
    }
    let wfl = wfl_suffix_vec();
    if !ends_with_exec(name, &wfl) {
        return CorpusFileKind::RawText;
    }
    let one = corpus_name_vec(49);
    if bytes_equal(name, &one) {
        return CorpusFileKind::FrequencyListOne;
    }
    let two = corpus_name_vec(50);
    if bytes_equal(name, &two) {
        return CorpusFileKind::FrequencyListTwo;
    }
    CorpusFileKind::FrequencyListOther
}

} // verus!
