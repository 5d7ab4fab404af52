//! Recasing the words of a name and joining them again.
use vstd::prelude::*;
use vstd::string::*;
use crate::ascii::{recase, recase_char};
use crate::expr::{parse_spec, ExprParser};
use crate::types::{AttributeError, Expr, ExprView, Tr, TrChars, TransformError};
use crate::words::{is_valid_identifier, segment, texts, valid_identifier, FievarParser};

verus! {

/// A text with one case action applied to each of its characters.
pub open spec fn recase_all(txt: Seq<char>, tr: Tr) -> Seq<char> {
    Seq::new(txt.len(), |j: int| recase(tr, txt[j]))
}

/// The case action that a rule gives to character `j` of a word of `len`
/// characters. The first character always takes the first action, so a word
/// of one character takes no other.
pub open spec fn action_at(rule: TrChars, len: int, j: int) -> Tr {
    match rule {
        TrChars::All(t) => t,
        TrChars::FirstRest(first, rest) => if j == 0 {
            first
        } else {
            rest
        },
        TrChars::FirstMiddleLast(first, middle, last) => if j == 0 {
            first
        } else if j == len - 1 {
            last
        } else {
            middle
        },
    }
}

/// A word recased by one rule.
pub open spec fn recase_word(word: Seq<char>, rule: TrChars) -> Seq<char> {
    Seq::new(word.len(), |j: int| recase(action_at(rule, word.len() as int, j), word[j]))
}

/// The rule for word `k` of `count` words: none where there is no rule; the one
/// rule for every word; of two rules the first for the first word and the
/// second for the others; of three the first for the first word, the third for
/// the last word if it is not also the first, the second for the words between.
pub open spec fn rule_for(trs: Seq<TrChars>, count: int, k: int) -> Option<TrChars> {
    if trs.len() == 0 {
        None
    } else if trs.len() == 1 {
        Some(trs[0])
    } else if k == 0 {
        Some(trs[0])
    } else if trs.len() == 2 {
        Some(trs[1])
    } else if k < count - 1 {
        Some(trs[1])
    } else {
        Some(trs[2])
    }
}

/// Word `k` of `words` after its rule.
pub open spec fn recased_word(words: Seq<Seq<char>>, trs: Seq<TrChars>, k: int) -> Seq<char> {
    match rule_for(trs, words.len() as int, k) {
        Some(rule) => recase_word(words[k], rule),
        None => words[k],
    }
}

/// Every word after the rule of its position.
pub open spec fn recase_words(words: Seq<Seq<char>>, trs: Seq<TrChars>) -> Seq<Seq<char>> {
    Seq::new(words.len(), |k: int| recased_word(words, trs, k))
}

/// The words in order, with `sep` between each two.
pub open spec fn join(words: Seq<Seq<char>>, sep: Seq<char>) -> Seq<char>
    decreases words.len(),
{
    if words.len() == 0 {
        Seq::empty()
    } else if words.len() == 1 {
        words[0]
    } else {
        join(words.drop_last(), sep) + sep + words.last()
    }
}

/// What [`apply`] returns.
pub open spec fn apply_spec(words: Seq<Seq<char>>, trs: Seq<TrChars>, sep: Seq<char>) -> Seq<
    char,
> {
    join(recase_words(words, trs), sep)
}

/// `std::string::String::push`, taken on trust as its documentation states
/// it: afterwards the string is what it was, with `ch` added at its end.
pub assume_specification[ String::push ](s: &mut String, ch: char)
    ensures
        final(s)@ == old(s)@.push(ch),
;

/// Applies one case action to every character of `txt`.
pub fn tr_char(txt: &str, tr: Tr) -> (r: String)
    ensures
        r@ == recase_all(txt@, tr),
{
    let mut out = String::new();
    for c in it: txt.chars()
        invariant
            it.seq() == txt@,
            out@ == recase_all(txt@.take(it.index() as int), tr),
    {
        out.push(recase_char(tr, c));
    }
    out
}

/// Applies a rule to one word.
pub fn tr_word(txt: &str, tr: &TrChars) -> (r: String)
    ensures
        r@ == recase_word(txt@, *tr),
{
    let l = txt.unicode_len();
    match *tr {
        TrChars::All(t) => tr_char(txt, t),
        TrChars::FirstRest(f, r) => {
            if l <= 1 {
                tr_char(txt, f)
            } else {
                let mut out = tr_char(txt.substring_char(0, 1), f);
                let rest = tr_char(txt.substring_char(1, l), r);
                out.append(rest.as_str());
                out
            }
        },
        TrChars::FirstMiddleLast(f, m, e) => {
            if l <= 1 {
                tr_char(txt, f)
            } else {
                let second_last = l - 1;
                let mut out = tr_char(txt.substring_char(0, 1), f);
                let middle = tr_char(txt.substring_char(1, second_last), m);
                let last = tr_char(txt.substring_char(second_last, l), e);
                out.append(middle.as_str());
                out.append(last.as_str());
                out
            }
        },
    }
}

/// Recases each word by the rule of its position and joins the words with
/// `sep` between them.
pub fn apply(words: &Vec<&str>, trs: &Vec<TrChars>, sep: &str) -> (r: String)
    requires
        trs@.len() <= 3,
    ensures
        r@ == apply_spec(texts(words@), trs@, sep@),
{
    let word_count = words.len();
    let trs_len = trs.len();
    let ghost all = recase_words(texts(words@), trs@);
    let mut out = String::new();
    let mut i: usize = 0;
    while i < word_count
        invariant
            i <= word_count,
            word_count == words@.len(),
            trs_len == trs@.len(),
            trs_len <= 3,
            all == recase_words(texts(words@), trs@),
            out@ == join(all.take(i as int), sep@),
        decreases word_count - i,
    {
        let w = words[i];
        let piece = if trs_len == 0 {
            String::from_str(w)
        } else if trs_len == 1 {
            tr_word(w, &trs[0])
        } else if i == 0 {
            tr_word(w, &trs[0])
        } else if trs_len == 2 {
            tr_word(w, &trs[1])
        } else if i < word_count - 1 {
            tr_word(w, &trs[1])
        } else {
            tr_word(w, &trs[2])
        };
        assert(piece@ == all[i as int]);
        if i > 0 {
            out.append(sep);
        }
        out.append(piece.as_str());
        proof {
            let a = all.take(i as int + 1);
            assert(a.drop_last() == all.take(i as int));
            assert(a.last() == all[i as int]);
        }
        i = i + 1;
    }
    assert(all.take(word_count as int) == all);
    out
}

/// What [`transform_identifier`] returns: the words of the name, recased and
/// joined as the expression says.
pub open spec fn transform(name: Seq<char>, expr: ExprView) -> Seq<char> {
    apply_spec(segment(name, expr.db), expr.trs, expr.sep)
}

/// What [`tr_expr`] returns.
pub open spec fn tr_expr_spec(name: Seq<char>, expr: Seq<char>) -> Result<
    Seq<char>,
    TransformError,
> {
    match parse_spec(expr) {
        Err(e) => Err(TransformError::Expression(e)),
        Ok(e) => if valid_identifier(name) {
            Ok(transform(name, e))
        } else {
            Err(TransformError::Identifier)
        },
    }
}

/// Transforms a name by a parsed expression: cuts it into words, recases
/// each word by the rule of its position and joins the words with the
/// separator.
pub fn transform_identifier(identifier: &str, expr: &Expr) -> (r: String)
    requires
        valid_identifier(identifier@),
        expr.wf(),
    ensures
        r@ == transform(identifier@, expr@),
{
    let words = FievarParser::parse(identifier, expr.db);
    apply(&words, &expr.trs, expr.sep.as_str())
}

/// Transforms a name by a transform expression given as text.
pub fn tr_expr(name: &str, expr: &str) -> (r: Result<String, TransformError>)
    ensures
        match tr_expr_spec(name@, expr@) {
            Ok(t) => r matches Ok(x) && x@ == t,
            Err(e) => r matches Err(x) && x == e,
        },
{
    let expr = match ExprParser::parse(expr) {
        Ok(e) => e,
        Err(e) => return Err(TransformError::Expression(e)),
    };
    if !is_valid_identifier(name) {
        return Err(TransformError::Identifier);
    }
    Ok(transform_identifier(name, &expr))
}

/// The key of the pair that gives a name outright.
pub open spec fn name_key() -> Seq<char> {
    seq!['n', 'a', 'm', 'e']
}

/// The key of the pair that gives a transform expression.
pub open spec fn transform_key() -> Seq<char> {
    seq!['t', 'r', 'a', 'n', 's', 'f', 'o', 'r', 'm']
}

/// What [`tr_nv`] returns: under the key `name` the value itself, under the
/// key `transform` the name transformed by the value, and no other key is
/// known.
pub open spec fn tr_nv_spec(name: Seq<char>, key: Seq<char>, value: Seq<char>) -> Result<
    Seq<char>,
    AttributeError,
> {
    if key == name_key() {
        Ok(value)
    } else if key == transform_key() {
        match tr_expr_spec(name, value) {
            Ok(t) => Ok(t),
            Err(e) => Err(AttributeError::Transform(e)),
        }
    } else {
        Err(AttributeError::Key)
    }
}

/// Whether two texts are the same.
pub fn same_text(a: &str, b: &str) -> (r: bool)
    ensures
        r == (a@ == b@),
{
    String::from_str(a) == String::from_str(b)
}

/// Applies one `key = value` pair of an annotation to a name.
pub fn tr_nv(name: &str, key: &str, value: &str) -> (r: Result<String, AttributeError>)
    ensures
        match tr_nv_spec(name@, key@, value@) {
            Ok(t) => r matches Ok(x) && x@ == t,
            Err(e) => r matches Err(x) && x == e,
        },
{
    proof {
        reveal_strlit("name");
        reveal_strlit("transform");
        assert("name"@ =~= name_key());
        assert("transform"@ =~= transform_key());
    }
    if same_text(key, "name") {
        Ok(String::from_str(value))
    } else if same_text(key, "transform") {
        match tr_expr(name, value) {
            Ok(t) => Ok(t),
            Err(e) => Err(AttributeError::Transform(e)),
        }
    } else {
        Err(AttributeError::Key)
    }
}

} // verus!
