//! What holds of every transform expression.
use vstd::prelude::*;
use crate::expr::{
    bar_from, finish, initial_scan, open_rule, parse_spec, rules_part, scan, separator_part, step,
    token_complete, token_unfinished, tr_of, ExprScan, ExprState,
};
use crate::types::{ExprView, NumAlign, ParseError, Tr, TrChars};

verus! {

/// The scanner holds at most three closed rules, and fewer while a rule is
/// open.
pub open spec fn within_three(m: ExprScan) -> bool {
    &&& m.trs.len() <= 3
    &&& open_rule(m.state) is Some ==> m.trs.len() < 3
}

/// The scanner never comes to hold a fourth rule.
pub proof fn lemma_scan_within_three(e: Seq<char>, i: int, m: ExprScan)
    requires
        within_three(m),
    ensures
        scan(e, i, m) matches Ok(r) ==> within_three(r),
    decreases e.len() - i,
{
    if 0 <= i < e.len() {
        match step(m, e[i]) {
            Some(next) => lemma_scan_within_three(e, i + 1, next),
            None => {},
        }
    }
}

/// An expression that parses holds at most three rules.
pub proof fn lemma_at_most_three_rules(text: Seq<char>)
    ensures
        parse_spec(text) matches Ok(e) ==> e.wf(),
{
    lemma_scan_within_three(rules_part(text), 0, initial_scan());
}

/// Where three rules are closed, the character that would begin a fourth is
/// refused, and the expression with it.
pub proof fn lemma_fourth_rule_refused(e: Seq<char>, i: int, m: ExprScan)
    requires
        m.state is Start,
        m.trs.len() >= 3,
        0 <= i < e.len(),
        tr_of(e[i]) is Some,
    ensures
        scan(e, i, m) == Err::<ExprScan, ParseError>(ParseError { index: i as usize, ch: e[i] }),
{
}

/// The character that stands for a case action.
pub open spec fn action_char(t: Tr) -> char {
    match t {
        Tr::Upper => 'C',
        Tr::Lower => 'c',
        Tr::Keep => '*',
    }
}

/// A rule written out: one character for each of its actions.
pub open spec fn rule_text(rule: TrChars) -> Seq<char> {
    match rule {
        TrChars::All(t) => seq![action_char(t)],
        TrChars::FirstRest(t, u) => seq![action_char(t), action_char(u)],
        TrChars::FirstMiddleLast(t, u, v) => seq![action_char(t), action_char(u), action_char(v)],
    }
}

/// Rules written out in order, a space after each.
pub open spec fn rules_text(trs: Seq<TrChars>) -> Seq<char>
    decreases trs.len(),
{
    if trs.len() == 0 {
        Seq::empty()
    } else {
        rule_text(trs[0]) + seq![' '] + rules_text(trs.drop_first())
    }
}

/// The token of an alignment: `1` where the digits go, between underscores.
pub open spec fn align_text(db: NumAlign) -> Seq<char> {
    match db {
        NumAlign::Left => seq!['1', '_', '_'],
        NumAlign::Middle => seq!['_', '1', '_'],
        NumAlign::Right => seq!['_', '_', '1'],
    }
}

/// An expression written out: its alignment token, a space, its rules, `|`
/// and its separator.
pub open spec fn expr_text(e: ExprView) -> Seq<char> {
    align_text(e.db) + seq![' '] + rules_text(e.trs) + seq!['|'] + e.sep
}

/// An expression written out with the alignment token behind the rules.
pub open spec fn expr_text_rules_first(e: ExprView) -> Seq<char> {
    rules_text(e.trs) + align_text(e.db) + seq!['|'] + e.sep
}

/// Rules and alignment tokens are written without `|`.
pub proof fn lemma_rules_text_has_no_bar(trs: Seq<TrChars>)
    ensures
        forall|j: int| 0 <= j < rules_text(trs).len() ==> #[trigger] rules_text(trs)[j] != '|',
    decreases trs.len(),
{
    if trs.len() > 0 {
        lemma_rules_text_has_no_bar(trs.drop_first());
        let head = rule_text(trs[0]) + seq![' '];
        let rest = rules_text(trs.drop_first());
        assert forall|j: int| 0 <= j < rules_text(trs).len() implies #[trigger] rules_text(trs)[j]
            != '|' by {
            if j >= head.len() {
                assert(rules_text(trs)[j] == rest[j - head.len()]);
            } else {
                assert(rules_text(trs)[j] == head[j]);
            }
        }
    }
}

/// The first `|` of a text is the one after a beginning that holds none.
pub proof fn lemma_bar_after(head: Seq<char>, tail: Seq<char>, i: int)
    requires
        forall|j: int| 0 <= j < head.len() ==> #[trigger] head[j] != '|',
        0 <= i <= head.len(),
    ensures
        bar_from(head + seq!['|'] + tail, i) == head.len(),
    decreases head.len() - i,
{
    let text = head + seq!['|'] + tail;
    if i < head.len() {
        assert(text[i] == head[i]);
        lemma_bar_after(head, tail, i + 1);
    } else {
        assert(text[i] == '|');
    }
}

/// Where the rules `trs`, written out, stand at `i`, the scanner reads them
/// and closes each, if it has room for them.
pub proof fn lemma_scan_rules(e: Seq<char>, i: int, m: ExprScan, trs: Seq<TrChars>)
    requires
        m.state is Start,
        m.trs.len() + trs.len() <= 3,
        0 <= i,
        i + rules_text(trs).len() <= e.len(),
        forall|j: int| 0 <= j < rules_text(trs).len() ==> e[i + j] == #[trigger] rules_text(trs)[j],
    ensures
        scan(e, i, m) == scan(
            e,
            i + rules_text(trs).len(),
            ExprScan { trs: m.trs + trs, ..m },
        ),
    decreases trs.len(),
{
    if trs.len() == 0 {
        assert(m.trs + trs =~= m.trs);
    } else {
        let rule = trs[0];
        let word = rule_text(rule);
        let head = word + seq![' '];
        let rest = trs.drop_first();
        let all = rules_text(trs);
        assert(all == head + rules_text(rest));
        assert forall|j: int| 0 <= j < head.len() implies e[i + j] == head[j] by {
            assert(all[j] == head[j]);
        }
        let next = ExprScan { trs: m.trs.push(rule), ..m };
        assert(scan(e, i, m) == scan(e, i + head.len(), next)) by {
            reveal_with_fuel(scan, 5);
            assert(e[i] == head[0]);
            assert(e[i + 1] == head[1]);
            match rule {
                TrChars::All(t) => {},
                TrChars::FirstRest(t, u) => {
                    assert(e[i + 2] == head[2]);
                },
                TrChars::FirstMiddleLast(t, u, v) => {
                    assert(e[i + 2] == head[2]);
                    assert(e[i + 3] == head[3]);
                },
            }
        }
        assert forall|j: int| 0 <= j < rules_text(rest).len() implies e[i + head.len() + j]
            == #[trigger] rules_text(rest)[j] by {
            assert(all[head.len() + j] == rules_text(rest)[j]);
        }
        lemma_scan_rules(e, i + head.len(), next, rest);
        assert(next.trs + rest =~= m.trs + trs);
    }
}

/// Where an alignment token ends the text and no other was read, the
/// scanner takes the alignment from it and leaves the rules as they are.
pub proof fn lemma_scan_alignment(e: Seq<char>, i: int, m: ExprScan, db: NumAlign)
    requires
        m.state is Start,
        !m.aligned,
        0 <= i,
        i + 3 == e.len(),
        forall|j: int| 0 <= j < 3 ==> e[i + j] == #[trigger] align_text(db)[j],
    ensures
        scan(e, i, m) matches Ok(r) && r.db == db && r.trs == m.trs && open_rule(r.state) is None,
{
    reveal_with_fuel(scan, 5);
    assert(e[i] == align_text(db)[0]);
    assert(e[i + 1] == align_text(db)[1]);
    assert(e[i + 2] == align_text(db)[2]);
}

/// Where an alignment token and a space stand at `i` and no other token was
/// read, the scanner takes the alignment from it and goes on before a rule.
pub proof fn lemma_scan_alignment_space(e: Seq<char>, i: int, m: ExprScan, db: NumAlign)
    requires
        m.state is Start,
        !m.aligned,
        0 <= i,
        i + 3 < e.len(),
        forall|j: int| 0 <= j < 3 ==> e[i + j] == #[trigger] align_text(db)[j],
        e[i + 3] == ' ',
    ensures
        scan(e, i, m) == scan(e, i + 4, ExprScan { db, aligned: true, ..m }),
{
    reveal_with_fuel(scan, 5);
    assert(e[i] == align_text(db)[0]);
    assert(e[i + 1] == align_text(db)[1]);
    assert(e[i + 2] == align_text(db)[2]);
}

/// An expression of at most three rules, written out, parses to itself.
pub proof fn lemma_written_expression_parses(e: ExprView)
    requires
        e.wf(),
    ensures
        parse_spec(expr_text(e)) == Ok::<ExprView, ParseError>(e),
{
    let token = align_text(e.db) + seq![' '];
    let rules = rules_text(e.trs);
    let head = token + rules;
    let text = expr_text(e);
    lemma_rules_text_has_no_bar(e.trs);
    assert forall|j: int| 0 <= j < head.len() implies #[trigger] head[j] != '|' by {
        if j < 4 {
            assert(head[j] == token[j]);
        } else {
            assert(head[j] == rules[j - 4]);
        }
    }
    lemma_bar_after(head, e.sep, 0);
    assert(text =~= head + seq!['|'] + e.sep);
    assert(rules_part(text) =~= head);
    assert(separator_part(text) =~= e.sep);
    let m = initial_scan();
    assert forall|j: int| 0 <= j < 3 implies head[0 + j] == #[trigger] align_text(e.db)[j] by {
        assert(head[j] == token[j]);
    }
    assert(head[3] == token[3]);
    let after = ExprScan { db: e.db, aligned: true, ..m };
    if rules.len() == 0 {
        assert(head.len() == 4);
        reveal_with_fuel(scan, 6);
        assert(head[0] == align_text(e.db)[0]);
        assert(head[1] == align_text(e.db)[1]);
        assert(head[2] == align_text(e.db)[2]);
        assert(e.trs.len() == 0) by {
            if e.trs.len() > 0 {
                assert(rules == rule_text(e.trs[0]) + seq![' '] + rules_text(e.trs.drop_first()));
            }
        }
        assert(scan(head, 0, m) == Ok::<ExprScan, ParseError>(after));
        assert(finish(after) =~= e.trs);
    } else {
        lemma_scan_alignment_space(head, 0, m, e.db);
        assert forall|j: int| 0 <= j < rules.len() implies head[4 + j] == #[trigger] rules[j] by {}
        lemma_scan_rules(head, 4, after, e.trs);
        let last = ExprScan { trs: after.trs + e.trs, ..after };
        assert(last.trs =~= e.trs);
        assert(scan(head, head.len() as int, last) == Ok::<ExprScan, ParseError>(last));
    }
    assert(parse_spec(text)->Ok_0.trs == e.trs);
    assert(parse_spec(text)->Ok_0.sep == e.sep);
    assert(parse_spec(text)->Ok_0.db == e.db);
}

/// An expression of at most three rules, written out with the alignment
/// token behind the rules, parses to itself as well.
pub proof fn lemma_written_rules_first_parses(e: ExprView)
    requires
        e.wf(),
    ensures
        parse_spec(expr_text_rules_first(e)) == Ok::<ExprView, ParseError>(e),
{
    let rules = rules_text(e.trs);
    let head = rules + align_text(e.db);
    let text = expr_text_rules_first(e);
    lemma_rules_text_has_no_bar(e.trs);
    assert forall|j: int| 0 <= j < head.len() implies #[trigger] head[j] != '|' by {
        if j < rules.len() {
            assert(head[j] == rules[j]);
        } else {
            assert(head[j] == align_text(e.db)[j - rules.len()]);
        }
    }
    lemma_bar_after(head, e.sep, 0);
    assert(rules_part(text) =~= head);
    assert(separator_part(text) =~= e.sep);
    let m = initial_scan();
    assert forall|j: int| 0 <= j < rules.len() implies head[0 + j] == #[trigger] rules[j] by {}
    lemma_scan_rules(head, 0, m, e.trs);
    let after = ExprScan { trs: m.trs + e.trs, ..m };
    assert(after.trs =~= e.trs);
    assert forall|j: int| 0 <= j < 3 implies head[rules.len() + j] == #[trigger] align_text(
        e.db,
    )[j] by {}
    lemma_scan_alignment(head, rules.len() as int, after, e.db);
    let r = scan(head, 0, m)->Ok_0;
    assert(finish(r) == e.trs);
    assert(parse_spec(text)->Ok_0.trs == e.trs);
    assert(parse_spec(text)->Ok_0.sep == e.sep);
    assert(parse_spec(text)->Ok_0.db == e.db);
}

/// Where an alignment token was read, the character that would begin a
/// second one is refused, and the expression with it.
pub proof fn lemma_second_token_refused(e: Seq<char>, i: int, m: ExprScan)
    requires
        m.state is Start,
        m.aligned,
        0 <= i < e.len(),
        e[i] == '_' || e[i] == '1',
    ensures
        scan(e, i, m) == Err::<ExprScan, ParseError>(ParseError { index: i as usize, ch: e[i] }),
{
}

/// Behind a complete alignment token every character but the space is
/// refused, and inside a token every character that does not go on to one of
/// `1__`, `_1_` and `__1`: the space too.
pub proof fn lemma_token_is_exact(m: ExprScan, c: char)
    requires
        token_complete(m.state) || token_unfinished(m.state),
    ensures
        token_complete(m.state) ==> (step(m, c) is Some <==> c == ' '),
        token_complete(m.state) && c == ' ' ==> step(m, c)->Some_0.state is Start,
        token_unfinished(m.state) ==> (step(m, c) is Some ==> c == '_' || c == '1'),
        token_unfinished(m.state) && step(m, c) is Some ==> token_complete(step(m, c)->Some_0.state)
            || token_unfinished(step(m, c)->Some_0.state),
{
}

/// An expression that ends inside an alignment token is refused; the error
/// names its last character.
pub proof fn lemma_unfinished_token_refused(e: Seq<char>, m: ExprScan)
    requires
        token_unfinished(m.state),
        e.len() > 0,
    ensures
        scan(e, e.len() as int, m) == Err::<ExprScan, ParseError>(
            ParseError { index: (e.len() - 1) as usize, ch: e.last() },
        ),
{
}

/// The characters that a transform expression may hold before its `|`.
pub open spec fn in_alphabet(c: char) -> bool {
    tr_of(c) is Some || c == '_' || c == '1' || c == ' '
}

/// No other character is allowed in any state.
pub proof fn lemma_alphabet(m: ExprScan, c: char)
    requires
        !in_alphabet(c),
    ensures
        step(m, c) is None,
{
}

/// The scanner does not get past a character that no state allows.
pub proof fn lemma_scan_stops_at(e: Seq<char>, i: int, m: ExprScan, j: int)
    requires
        0 <= i <= j < e.len() <= usize::MAX,
        !in_alphabet(e[j]),
    ensures
        scan(e, i, m) matches Err(x) && i <= x.index <= j,
    decreases j - i,
{
    lemma_alphabet(m, e[j]);
    if i < j {
        match step(m, e[i]) {
            Some(next) => lemma_scan_stops_at(e, i + 1, next, j),
            None => {},
        }
    }
}

/// An expression that holds, before its first `|`, a character other than
/// `C`, `c`, `*`, `_`, `1` and the space does not parse, and the error lies
/// at that character or before it.
pub proof fn lemma_foreign_character_refused(text: Seq<char>, j: int)
    requires
        0 <= j < rules_part(text).len() <= usize::MAX,
        !in_alphabet(rules_part(text)[j]),
    ensures
        parse_spec(text) matches Err(x) && x.index <= j,
{
    lemma_scan_stops_at(rules_part(text), 0, initial_scan(), j);
}

} // verus!
