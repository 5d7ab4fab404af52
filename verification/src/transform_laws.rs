//! What holds of every transformation.
use vstd::prelude::*;
use crate::apply::{apply_spec, join, recase_word, recase_words, recased_word, transform};
use crate::ascii::recase;
use crate::expr::{bar_from, finish, initial_scan, parse_spec, scan};
use crate::types::{ExprView, NumAlign, Tr, TrChars};
use crate::word_laws::{
    lemma_cut_upto, lemma_join_push, lemma_words_cover, lemma_words_well_formed,
    without_underscores,
};
use crate::words::{
    breaks_upto, close_mark, closes_word, open_mark, opens_word, segment, words_of,
};

verus! {

/// Without rules the words stay as they are.
pub proof fn lemma_no_rule_keeps(words: Seq<Seq<char>>)
    ensures
        recase_words(words, Seq::empty()) == words,
{
    assert(recase_words(words, Seq::empty()) =~= words);
}

/// The rule that keeps every character keeps every word.
pub proof fn lemma_keep_rule_keeps(words: Seq<Seq<char>>)
    ensures
        recase_words(words, seq![TrChars::All(Tr::Keep)]) == words,
{
    let trs = seq![TrChars::All(Tr::Keep)];
    assert forall|k: int| 0 <= k < words.len() implies recased_word(words, trs, k) == words[k] by {
        assert(recase_word(words[k], TrChars::All(Tr::Keep)) =~= words[k]);
    }
    assert(recase_words(words, trs) =~= words);
}

/// The empty expression sends digits to the left, has no rule and no
/// separator; a name transformed by it only loses its underscores.
pub proof fn lemma_empty_expression(name: Seq<char>)
    ensures
        parse_spec(Seq::empty()) == Ok::<ExprView, crate::types::ParseError>(
            ExprView { db: NumAlign::Left, sep: Seq::empty(), trs: Seq::empty() },
        ),
        transform(name, parse_spec(Seq::empty())->Ok_0) == without_underscores(name),
{
    let text = Seq::<char>::empty();
    assert(bar_from(text, 0) == 0);
    assert(text.take(0) =~= text);
    assert(finish(initial_scan()) =~= Seq::<TrChars>::empty());
    lemma_no_rule_keeps(segment(name, NumAlign::Left));
    lemma_words_cover(name, NumAlign::Left);
}

/// A name of one character that is no underscore is one word, and a rule of
/// three actions, standing first, applies its first action to it and no
/// other.
pub proof fn lemma_single_character(
    c: char,
    db: NumAlign,
    sep: Seq<char>,
    trs: Seq<TrChars>,
    first: Tr,
    middle: Tr,
    last: Tr,
)
    requires
        c != '_',
        1 <= trs.len() <= 3,
        trs[0] == TrChars::FirstMiddleLast(first, middle, last),
    ensures
        segment(seq![c], db) == seq![seq![c]],
        recase_word(seq![c], trs[0]) == seq![recase(first, c)],
        transform(seq![c], ExprView { db, sep, trs }) == seq![recase(first, c)],
{
    let s = seq![c];
    assert(breaks_upto(s, db, 1) == breaks_upto(s, db, 0) + open_mark(s, db, 0) + close_mark(
        s,
        db,
        0,
    ));
    assert(breaks_upto(s, db, 1) =~= seq![0int, 0int]);
    assert(s.subrange(0, 1) =~= s);
    assert(segment(s, db) =~= seq![s]);
    assert(recase_word(s, trs[0]) =~= seq![recase(first, c)]);
    assert(recase_words(seq![s], trs) =~= seq![seq![recase(first, c)]]);
}

/// The name is not empty, its underscores stand alone and inside it, and it
/// is cut into words at its underscores only.
pub open spec fn snake_form(s: Seq<char>, db: NumAlign) -> bool {
    &&& s.len() > 0
    &&& s[0] != '_'
    &&& s.last() != '_'
    &&& forall|i: int| 0 < i < s.len() && #[trigger] s[i] == '_' ==> s[i - 1] != '_'
    &&& forall|i: int| 0 < i < s.len() && #[trigger] opens_word(s, db, i) ==> s[i - 1] == '_'
}

/// The part of a name before `k`, put together again from its words with
/// underscores between them, where the name is cut at single underscores
/// only.
pub proof fn lemma_snake_upto(s: Seq<char>, db: NumAlign, k: int)
    requires
        snake_form(s, db),
        0 <= k <= s.len(),
    ensures
        ({
            let b = breaks_upto(s, db, k);
            let w = words_of(s, b);
            let us = seq!['_'];
            let head = if w.len() == 0 {
                Seq::empty()
            } else {
                join(w, us) + us
            };
            if b.len() % 2 == 1 {
                head + s.subrange(b.last(), k) == s.take(k)
            } else if k == 0 {
                w.len() == 0
            } else if s[k - 1] == '_' {
                w.len() > 0 && head == s.take(k)
            } else {
                w.len() > 0 && join(w, us) == s.take(k)
            }
        }),
    decreases k,
{
    let us = seq!['_'];
    if k > 0 {
        let i = k - 1;
        lemma_snake_upto(s, db, i);
        lemma_cut_upto(s, db, i);
        lemma_cut_upto(s, db, k);
        let b = breaks_upto(s, db, i);
        let c = breaks_upto(s, db, k);
        let wb = words_of(s, b);
        let wc = words_of(s, c);
        let head_b = if wb.len() == 0 {
            Seq::<char>::empty()
        } else {
            join(wb, us) + us
        };
        assert(c == b + open_mark(s, db, i) + close_mark(s, db, i));
        assert(s.take(k) =~= s.take(i).push(s[i]));
        if s[i] == '_' {
            assert(c =~= b);
            assert(join(wb, us) + us =~= s.take(i).push(s[i]));
        } else if opens_word(s, db, i) {
            if b.len() % 2 == 1 {
                assert(s[i - 1] != '_');
                assert(closes_word(s, db, i - 1));
            }
            assert(s.subrange(i, k) =~= seq![s[i]]);
            if i == 0 {
                assert(s.take(0) =~= Seq::<char>::empty());
            }
            assert(head_b =~= s.take(i));
            if closes_word(s, db, i) {
                assert(c =~= b.push(i).push(i));
                assert(wc =~= wb.push(s.subrange(i, k)));
                lemma_join_push(wb, s.subrange(i, k), us);
                assert(join(wc, us) =~= head_b + s.subrange(i, k));
            } else {
                assert(c =~= b.push(i));
                assert(wc =~= wb);
            }
        } else {
            let o = b.last();
            assert(s.subrange(o, k) =~= s.subrange(o, i).push(s[i]));
            if closes_word(s, db, i) {
                assert(c =~= b.push(i));
                assert(wc =~= wb.push(s.subrange(o, k)));
                lemma_join_push(wb, s.subrange(o, k), us);
                assert(join(wc, us) =~= head_b + s.subrange(o, k));
                assert(head_b + s.subrange(o, k) =~= (head_b + s.subrange(o, i)).push(s[i]));
            } else {
                assert(c =~= b);
                assert(head_b + s.subrange(o, k) =~= (head_b + s.subrange(o, i)).push(s[i]));
            }
        }
    } else {
        assert(words_of(s, breaks_upto(s, db, 0)) =~= Seq::<Seq<char>>::empty());
        assert(s.take(0) =~= Seq::<char>::empty());
    }
}

/// A name that is cut at single underscores only, none of them first or
/// last, comes back as it was when its words are joined with underscores and
/// left in their case.
pub proof fn lemma_snake_round_trip(s: Seq<char>, db: NumAlign)
    requires
        snake_form(s, db),
    ensures
        transform(s, ExprView { db, sep: seq!['_'], trs: seq![TrChars::All(Tr::Keep)] }) == s,
        transform(s, ExprView { db, sep: seq!['_'], trs: Seq::empty() }) == s,
{
    lemma_snake_upto(s, db, s.len() as int);
    lemma_words_well_formed(s, db);
    assert(s.take(s.len() as int) =~= s);
    lemma_keep_rule_keeps(segment(s, db));
    lemma_no_rule_keeps(segment(s, db));
}

} // verus!
