//! What holds of the words of every identifier.
use vstd::prelude::*;
use crate::apply::join;
use crate::ascii::{is_digit, is_ident_char, is_letter};
use crate::types::NumAlign;
use crate::words::{
    breaks_before_close, breaks_upto, close_mark, closes_word, open_mark,
    opens_word, segment, valid_identifier, word_breaks, words_of,
};

verus! {

/// The characters from `from` to `to` are one word: it begins at `from`, ends
/// at `to`, holds no underscore, and no other word begins in it.
pub open spec fn is_word(s: Seq<char>, db: NumAlign, from: int, to: int) -> bool {
    &&& 0 <= from <= to < s.len()
    &&& opens_word(s, db, from)
    &&& closes_word(s, db, to)
    &&& forall|p: int| from <= p <= to ==> #[trigger] s[p] != '_'
    &&& forall|p: int| from < p <= to ==> !#[trigger] opens_word(s, db, p)
}

/// Breaks `2 * j` and `2 * j + 1` of `b` bound a word, and the next word, if
/// there is one, begins after it.
pub open spec fn bounds_word(s: Seq<char>, db: NumAlign, b: Seq<int>, j: int) -> bool {
    &&& is_word(s, db, b[2 * j], b[2 * j + 1])
    &&& 2 * j + 2 < b.len() ==> b[2 * j + 1] < b[2 * j + 2]
}

/// A word has begun at `from` and has not ended before `k`.
pub open spec fn word_runs(s: Seq<char>, db: NumAlign, from: int, k: int) -> bool {
    &&& 0 <= from < k <= s.len()
    &&& opens_word(s, db, from)
    &&& forall|p: int| from <= p < k ==> #[trigger] s[p] != '_'
    &&& forall|p: int| from < p < k ==> !#[trigger] opens_word(s, db, p)
    &&& !closes_word(s, db, k - 1)
}

/// The breaks of the positions before `k` pair up into words, but for the
/// last one where a word runs on at `k`.
pub open spec fn cut_upto(s: Seq<char>, db: NumAlign, k: int) -> bool {
    let b = breaks_upto(s, db, k);
    &&& forall|j: int| 0 <= j && 2 * j + 1 < b.len() ==> #[trigger] bounds_word(s, db, b, j)
    &&& forall|j: int| 0 <= j < b.len() ==> 0 <= #[trigger] b[j] < k
    &&& if b.len() % 2 == 0 {
        k <= 0 || s[k - 1] == '_' || closes_word(s, db, k - 1)
    } else {
        word_runs(s, db, b.last(), k)
    }
}

/// Every prefix of an identifier is cut into words.
pub proof fn lemma_cut_upto(s: Seq<char>, db: NumAlign, k: int)
    requires
        0 <= k <= s.len(),
    ensures
        cut_upto(s, db, k),
    decreases k,
{
    if k > 0 {
        let i = k - 1;
        lemma_cut_upto(s, db, i);
        let b = breaks_upto(s, db, i);
        let c = breaks_upto(s, db, k);
        assert(c == b + open_mark(s, db, i) + close_mark(s, db, i));
        assert forall|j: int| 0 <= j < b.len() implies c[j] == b[j] by {}
        if s[i] == '_' {
            assert(c =~= b);
            if b.len() % 2 == 1 {
                assert(s[i - 1] != '_');
                assert(closes_word(s, db, i - 1));
            }
        } else if opens_word(s, db, i) {
            if b.len() % 2 == 1 {
                assert(s[i - 1] != '_');
                assert(closes_word(s, db, i - 1));
            }
            assert(b.len() % 2 == 0);
            if closes_word(s, db, i) {
                assert(c =~= b.push(i).push(i));
                assert(is_word(s, db, i, i));
                assert forall|j: int| 0 <= j && 2 * j + 1 < c.len() implies #[trigger] bounds_word(
                    s,
                    db,
                    c,
                    j,
                ) by {
                    if 2 * j + 1 < b.len() {
                        assert(bounds_word(s, db, b, j));
                    }
                }
            } else {
                assert(c =~= b.push(i));
                assert forall|j: int| 0 <= j && 2 * j + 1 < c.len() implies #[trigger] bounds_word(
                    s,
                    db,
                    c,
                    j,
                ) by {
                    assert(bounds_word(s, db, b, j));
                }
                assert(word_runs(s, db, i, k));
            }
        } else {
            assert(b.len() % 2 == 1);
            let o = b.last();
            assert(word_runs(s, db, o, i));
            if closes_word(s, db, i) {
                assert(c =~= b.push(i));
                assert(is_word(s, db, o, i));
                assert forall|j: int| 0 <= j && 2 * j + 1 < c.len() implies #[trigger] bounds_word(
                    s,
                    db,
                    c,
                    j,
                ) by {
                    if 2 * j + 1 < b.len() {
                        assert(bounds_word(s, db, b, j));
                    }
                }
            } else {
                assert(c =~= b);
                assert(word_runs(s, db, o, k));
            }
        }
    }
}

/// The breaks of an identifier come in pairs, each pair bounds a word, and the
/// words follow each other from left to right without overlap.
pub proof fn lemma_words_well_formed(s: Seq<char>, db: NumAlign)
    ensures
        word_breaks(s, db).len() % 2 == 0,
        segment(s, db).len() == word_breaks(s, db).len() / 2,
        forall|j: int|
            0 <= j < segment(s, db).len() ==> #[trigger] bounds_word(s, db, word_breaks(s, db), j),
{
    lemma_cut_upto(s, db, s.len() as int);
}

/// No word is empty and no word holds an underscore.
pub proof fn lemma_words_hold_no_underscore(s: Seq<char>, db: NumAlign, j: int, p: int)
    requires
        0 <= j < segment(s, db).len(),
        0 <= p < segment(s, db)[j].len(),
    ensures
        segment(s, db)[j].len() > 0,
        segment(s, db)[j][p] != '_',
{
    lemma_words_well_formed(s, db);
    let b = word_breaks(s, db);
    assert(bounds_word(s, db, b, j));
    assert(segment(s, db)[j][p] == s[b[2 * j] + p]);
}

/// Where an identifier holds no digit, its words do not depend on where
/// digits go.
pub proof fn lemma_alignment_without_digits(s: Seq<char>, db1: NumAlign, db2: NumAlign)
    requires
        forall|i: int| 0 <= i < s.len() ==> !is_digit(#[trigger] s[i]),
    ensures
        segment(s, db1) == segment(s, db2),
        segment(s, db1).len() == segment(s, db2).len(),
{
    lemma_breaks_without_digits(s, db1, db2, s.len() as int);
}

/// Without digits the breaks do not depend on where digits go.
pub proof fn lemma_breaks_without_digits(s: Seq<char>, db1: NumAlign, db2: NumAlign, k: int)
    requires
        forall|i: int| 0 <= i < s.len() ==> !is_digit(#[trigger] s[i]),
        0 <= k <= s.len(),
    ensures
        breaks_upto(s, db1, k) == breaks_upto(s, db2, k),
    decreases k,
{
    if k > 0 {
        lemma_breaks_without_digits(s, db1, db2, k - 1);
        let i = k - 1;
        assert(!is_digit(s[i]));
        if i > 0 {
            assert(!is_digit(s[i - 1]));
        }
        if i + 1 < s.len() {
            assert(!is_digit(s[i + 1]));
        }
        assert(opens_word(s, db1, i) == opens_word(s, db2, i));
        assert(opens_word(s, db1, i + 1) == opens_word(s, db2, i + 1));
    }
}

/// Tells the underscore from the other characters.
pub open spec fn not_underscore() -> spec_fn(char) -> bool {
    |c: char| c != '_'
}

/// A text without its underscores.
pub open spec fn without_underscores(s: Seq<char>) -> Seq<char> {
    s.filter(not_underscore())
}

/// Joining one word more.
pub proof fn lemma_join_push(words: Seq<Seq<char>>, word: Seq<char>, sep: Seq<char>)
    ensures
        join(words.push(word), sep) == if words.len() == 0 {
            word
        } else {
            join(words, sep) + sep + word
        },
{
    assert(words.push(word).drop_last() =~= words);
}

/// What the breaks before `k` have cut off, and what has begun of the word
/// that runs on at `k`, is what stands before `k` without its underscores.
pub proof fn lemma_cover_upto(s: Seq<char>, db: NumAlign, k: int)
    requires
        0 <= k <= s.len(),
    ensures
        ({
            let b = breaks_upto(s, db, k);
            let done = join(words_of(s, b), Seq::empty());
            if b.len() % 2 == 0 {
                done == without_underscores(s.take(k))
            } else {
                done + s.subrange(b.last(), k) == without_underscores(s.take(k))
            }
        }),
    decreases k,
{
    let empty = Seq::<char>::empty();
    if k == 0 {
        assert(s.take(0) =~= empty);
        reveal(Seq::filter);
        assert(words_of(s, breaks_upto(s, db, 0)) =~= Seq::<Seq<char>>::empty());
    } else {
        let i = k - 1;
        lemma_cover_upto(s, db, i);
        lemma_cut_upto(s, db, i);
        lemma_cut_upto(s, db, k);
        let b = breaks_upto(s, db, i);
        let c = breaks_upto(s, db, k);
        let wb = words_of(s, b);
        let wc = words_of(s, c);
        assert(c == b + open_mark(s, db, i) + close_mark(s, db, i));
        assert(s.take(k) =~= s.take(i).push(s[i]));
        s.take(i).lemma_filter_push(s[i], not_underscore());
        if s[i] == '_' {
            assert(c =~= b);
        } else if opens_word(s, db, i) {
            if b.len() % 2 == 1 {
                assert(s[i - 1] != '_');
                assert(closes_word(s, db, i - 1));
            }
            if closes_word(s, db, i) {
                assert(c =~= b.push(i).push(i));
                assert(wc =~= wb.push(s.subrange(i, k)));
                lemma_join_push(wb, s.subrange(i, k), empty);
                assert(s.subrange(i, k) =~= seq![s[i]]);
                assert(join(wc, empty) =~= join(wb, empty).push(s[i]));
            } else {
                assert(c =~= b.push(i));
                assert(wc =~= wb);
                assert(s.subrange(i, k) =~= seq![s[i]]);
                assert(join(wc, empty) + s.subrange(i, k) =~= join(wb, empty).push(s[i]));
            }
        } else {
            let o = b.last();
            assert(s.subrange(o, k) =~= s.subrange(o, i).push(s[i]));
            if closes_word(s, db, i) {
                assert(c =~= b.push(i));
                assert(wc =~= wb.push(s.subrange(o, k)));
                lemma_join_push(wb, s.subrange(o, k), empty);
                assert(join(wc, empty) =~= (join(wb, empty) + s.subrange(o, i)).push(s[i]));
            } else {
                assert(c =~= b);
                assert(join(wc, empty) + s.subrange(o, k) =~= (join(wb, empty) + s.subrange(
                    o,
                    i,
                )).push(s[i]));
            }
        }
    }
}

/// The words of an identifier, one after the other, are the identifier
/// without its underscores.
pub proof fn lemma_words_cover(s: Seq<char>, db: NumAlign)
    ensures
        join(segment(s, db), Seq::empty()) == without_underscores(s),
{
    lemma_cover_upto(s, db, s.len() as int);
    lemma_words_well_formed(s, db);
    assert(s.take(s.len() as int) =~= s);
}

/// In a word cut with digits going neither way, every character is a digit
/// if the first one is, and none is if the first one is not.
pub proof fn lemma_middle_word_upto(s: Seq<char>, from: int, to: int, p: int)
    requires
        valid_identifier(s),
        is_word(s, NumAlign::Middle, from, to),
        from <= p <= to,
    ensures
        is_digit(s[p]) == is_digit(s[from]),
    decreases p - from,
{
    if p > from {
        lemma_middle_word_upto(s, from, to, p - 1);
        assert(!opens_word(s, NumAlign::Middle, p));
        assert(s[p] != '_');
        assert(s[p - 1] != '_');
        assert(is_ident_char(s[p]));
        assert(is_ident_char(s[p - 1]));
    }
}

/// Where digits go neither way, every run of digits is a word of its own: a
/// word is made of digits only or of letters only.
pub proof fn lemma_middle_words_are_pure(s: Seq<char>, j: int)
    requires
        valid_identifier(s),
        0 <= j < segment(s, NumAlign::Middle).len(),
    ensures
        ({
            let w = segment(s, NumAlign::Middle)[j];
            ||| forall|p: int| 0 <= p < w.len() ==> is_digit(#[trigger] w[p])
            ||| forall|p: int| 0 <= p < w.len() ==> is_letter(#[trigger] w[p])
        }),
{
    let db = NumAlign::Middle;
    lemma_words_well_formed(s, db);
    let b = word_breaks(s, db);
    assert(bounds_word(s, db, b, j));
    let from = b[2 * j];
    let to = b[2 * j + 1];
    let w = segment(s, db)[j];
    assert forall|p: int| 0 <= p < w.len() implies (is_digit(#[trigger] w[p]) == is_digit(s[from])
        && (is_digit(w[p]) || is_letter(w[p]))) by {
        lemma_middle_word_upto(s, from, to, from + p);
        assert(w[p] == s[from + p]);
        assert(s[from + p] != '_');
        assert(is_ident_char(s[from + p]));
    }
}

} // verus!
