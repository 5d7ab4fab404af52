use fievar::expr::ExprParser;
use fievar::types::{Expr, NumAlign, ParseError, Tr, TrChars};

fn expr(db: NumAlign, sep: &str, trs: Vec<TrChars>) -> Result<Expr, ParseError> {
    Ok(Expr { db, sep: sep.to_string(), trs })
}

fn refused(index: usize, ch: char) -> Result<Expr, ParseError> {
    Err(ParseError { index, ch })
}

#[test]
fn one_rule_of_each_length() {
    assert_eq!(ExprParser::parse("C"), expr(NumAlign::Left, "", vec![TrChars::All(Tr::Upper)]));
    assert_eq!(ExprParser::parse("c"), expr(NumAlign::Left, "", vec![TrChars::All(Tr::Lower)]));
    assert_eq!(ExprParser::parse("*"), expr(NumAlign::Left, "", vec![TrChars::All(Tr::Keep)]));
    assert_eq!(
        ExprParser::parse("Cc"),
        expr(NumAlign::Left, "", vec![TrChars::FirstRest(Tr::Upper, Tr::Lower)])
    );
    assert_eq!(
        ExprParser::parse("c*C"),
        expr(NumAlign::Left, "", vec![TrChars::FirstMiddleLast(Tr::Lower, Tr::Keep, Tr::Upper)])
    );
}

#[test]
fn up_to_three_rules() {
    assert_eq!(
        ExprParser::parse("c Cc"),
        expr(
            NumAlign::Left,
            "",
            vec![TrChars::All(Tr::Lower), TrChars::FirstRest(Tr::Upper, Tr::Lower)]
        )
    );
    assert_eq!(
        ExprParser::parse("c C *"),
        expr(
            NumAlign::Left,
            "",
            vec![TrChars::All(Tr::Lower), TrChars::All(Tr::Upper), TrChars::All(Tr::Keep)]
        )
    );
    assert_eq!(
        ExprParser::parse("  c   C  "),
        expr(NumAlign::Left, "", vec![TrChars::All(Tr::Lower), TrChars::All(Tr::Upper)])
    );
    assert_eq!(
        ExprParser::parse("c C * "),
        expr(
            NumAlign::Left,
            "",
            vec![TrChars::All(Tr::Lower), TrChars::All(Tr::Upper), TrChars::All(Tr::Keep)]
        )
    );
}

#[test]
fn a_fourth_rule_is_refused() {
    assert_eq!(ExprParser::parse("c C * c"), refused(6, 'c'));
    assert_eq!(ExprParser::parse("c C * C"), refused(6, 'C'));
    assert_eq!(ExprParser::parse("cc CC ** *"), refused(9, '*'));
    assert_eq!(ExprParser::parse("c C *  Cc|_"), refused(7, 'C'));
}

#[test]
fn no_parsed_expression_holds_more_than_three_rules() {
    for text in ["", "c", "c C", "c C *", "c C * _1_", "CcC cCc CcC|x", "c C * c", "c C * c C"] {
        if let Ok(e) = ExprParser::parse(text) {
            assert!(e.trs.len() <= 3);
        }
    }
}

#[test]
fn a_fourth_character_in_a_rule_is_refused() {
    assert_eq!(ExprParser::parse("CcCc"), refused(3, 'c'));
    assert_eq!(ExprParser::parse("c c***"), refused(5, '*'));
}

#[test]
fn alignment_tokens() {
    assert_eq!(ExprParser::parse("1__"), expr(NumAlign::Left, "", vec![]));
    assert_eq!(ExprParser::parse("__1"), expr(NumAlign::Right, "", vec![]));
    assert_eq!(ExprParser::parse("_1_"), expr(NumAlign::Middle, "", vec![]));
    assert_eq!(
        ExprParser::parse("c _1_"),
        expr(NumAlign::Middle, "", vec![TrChars::All(Tr::Lower)])
    );
    assert_eq!(
        ExprParser::parse("c C * __1"),
        expr(
            NumAlign::Right,
            "",
            vec![TrChars::All(Tr::Lower), TrChars::All(Tr::Upper), TrChars::All(Tr::Keep)]
        )
    );
}

#[test]
fn an_alignment_token_has_three_characters() {
    assert_eq!(ExprParser::parse("1___"), refused(3, '_'));
    assert_eq!(ExprParser::parse("___1"), refused(2, '_'));
    assert_eq!(ExprParser::parse("_1__"), refused(3, '_'));
    assert_eq!(ExprParser::parse("_1__x"), refused(3, '_'));
    assert_eq!(ExprParser::parse("__1_"), refused(3, '_'));
    assert_eq!(ExprParser::parse("___"), refused(2, '_'));
}

#[test]
fn an_alignment_token_cut_short_by_the_end_is_refused_at_its_last_character() {
    assert_eq!(ExprParser::parse("1"), refused(0, '1'));
    assert_eq!(ExprParser::parse("1_"), refused(1, '_'));
    assert_eq!(ExprParser::parse("_"), refused(0, '_'));
    assert_eq!(ExprParser::parse("__"), refused(1, '_'));
    assert_eq!(ExprParser::parse("_1"), refused(1, '1'));
    assert_eq!(ExprParser::parse("c _1"), refused(3, '1'));
    assert_eq!(ExprParser::parse("c C 1_|_"), refused(5, '_'));
    assert_eq!(ExprParser::parse("_|_1_"), refused(0, '_'));
}

#[test]
fn an_alignment_token_cut_short_by_a_space_is_refused_at_the_space() {
    assert_eq!(ExprParser::parse("1 "), refused(1, ' '));
    assert_eq!(ExprParser::parse("1_ c"), refused(2, ' '));
    assert_eq!(ExprParser::parse("_ "), refused(1, ' '));
    assert_eq!(ExprParser::parse("__ c"), refused(2, ' '));
    assert_eq!(ExprParser::parse("_1 c"), refused(2, ' '));
}

#[test]
fn rules_may_follow_the_alignment_token() {
    assert_eq!(ExprParser::parse("1__ C"), expr(NumAlign::Left, "", vec![TrChars::All(Tr::Upper)]));
    assert_eq!(
        ExprParser::parse("_1_ c|_"),
        expr(NumAlign::Middle, "_", vec![TrChars::All(Tr::Lower)])
    );
    assert_eq!(
        ExprParser::parse("__1 c Cc *C*|"),
        expr(
            NumAlign::Right,
            "",
            vec![
                TrChars::All(Tr::Lower),
                TrChars::FirstRest(Tr::Upper, Tr::Lower),
                TrChars::FirstMiddleLast(Tr::Keep, Tr::Upper, Tr::Keep),
            ]
        )
    );
    assert_eq!(
        ExprParser::parse("c _1_ C|-"),
        expr(NumAlign::Middle, "-", vec![TrChars::All(Tr::Lower), TrChars::All(Tr::Upper)])
    );
    assert_eq!(ExprParser::parse("_1_  "), expr(NumAlign::Middle, "", vec![]));
    assert_eq!(ExprParser::parse("1__ c C * c"), refused(10, 'c'));
}

#[test]
fn characters_after_the_alignment_token_are_read() {
    assert_eq!(ExprParser::parse("1__ x"), refused(4, 'x'));
    assert_eq!(ExprParser::parse("__1 ?!"), refused(4, '?'));
    assert_eq!(ExprParser::parse("_1_ c x"), refused(6, 'x'));
    assert_eq!(ExprParser::parse("1__c"), refused(3, 'c'));
    assert_eq!(ExprParser::parse("__1C"), refused(3, 'C'));
}

#[test]
fn a_second_alignment_token_is_refused() {
    assert_eq!(ExprParser::parse("1__ _1_"), refused(4, '_'));
    assert_eq!(ExprParser::parse("_1_ 1__"), refused(4, '1'));
    assert_eq!(ExprParser::parse("c 1__ C __1"), refused(8, '_'));
    assert_eq!(ExprParser::parse("__1 __1"), refused(4, '_'));
}

#[test]
fn characters_that_an_alignment_token_does_not_allow() {
    assert_eq!(ExprParser::parse("1C"), refused(1, 'C'));
    assert_eq!(ExprParser::parse("1_1"), refused(2, '1'));
    assert_eq!(ExprParser::parse("11"), refused(1, '1'));
    assert_eq!(ExprParser::parse("_C"), refused(1, 'C'));
    assert_eq!(ExprParser::parse("_1c"), refused(2, 'c'));
    assert_eq!(ExprParser::parse("_11"), refused(2, '1'));
    assert_eq!(ExprParser::parse("_1_1"), refused(3, '1'));
    assert_eq!(ExprParser::parse("__c"), refused(2, 'c'));
    assert_eq!(ExprParser::parse("__11"), refused(3, '1'));
}

#[test]
fn characters_that_a_rule_does_not_allow() {
    assert_eq!(ExprParser::parse("x"), refused(0, 'x'));
    assert_eq!(ExprParser::parse("c_"), refused(1, '_'));
    assert_eq!(ExprParser::parse("c1"), refused(1, '1'));
    assert_eq!(ExprParser::parse("Cc1"), refused(2, '1'));
    assert_eq!(ExprParser::parse("CcC_"), refused(3, '_'));
    assert_eq!(ExprParser::parse("c \u{e9}"), refused(2, '\u{e9}'));
    assert_eq!(ExprParser::parse("\u{e9}\u{e9} x|"), refused(0, '\u{e9}'));
    assert_eq!(ExprParser::parse("c\tC"), refused(1, '\t'));
}

#[test]
fn the_separator_is_taken_as_it_stands() {
    assert_eq!(ExprParser::parse("|"), expr(NumAlign::Left, "", vec![]));
    assert_eq!(ExprParser::parse("|_"), expr(NumAlign::Left, "_", vec![]));
    assert_eq!(ExprParser::parse("| c C "), expr(NumAlign::Left, " c C ", vec![]));
    assert_eq!(ExprParser::parse("c|a|b"), expr(NumAlign::Left, "a|b", vec![TrChars::All(Tr::Lower)]));
    assert_eq!(ExprParser::parse("||"), expr(NumAlign::Left, "|", vec![]));
    assert_eq!(ExprParser::parse("c|\u{2192}x"), expr(NumAlign::Left, "\u{2192}x", vec![TrChars::All(Tr::Lower)]));
    assert_eq!(ExprParser::parse("x|c"), refused(0, 'x'));
}

fn action_char(t: Tr) -> char {
    match t {
        Tr::Upper => 'C',
        Tr::Lower => 'c',
        Tr::Keep => '*',
    }
}

fn written(e: &Expr) -> String {
    let mut text = String::new();
    for rule in &e.trs {
        match *rule {
            TrChars::All(t) => text.push(action_char(t)),
            TrChars::FirstRest(t, u) => {
                text.push(action_char(t));
                text.push(action_char(u));
            }
            TrChars::FirstMiddleLast(t, u, v) => {
                text.push(action_char(t));
                text.push(action_char(u));
                text.push(action_char(v));
            }
        }
        text.push(' ');
    }
    text.push_str(match e.db {
        NumAlign::Left => "1__",
        NumAlign::Middle => "_1_",
        NumAlign::Right => "__1",
    });
    text.push('|');
    text.push_str(&e.sep);
    text
}

fn written_token_first(e: &Expr) -> String {
    let mut text = String::new();
    text.push_str(match e.db {
        NumAlign::Left => "1__",
        NumAlign::Middle => "_1_",
        NumAlign::Right => "__1",
    });
    text.push(' ');
    for rule in &e.trs {
        match *rule {
            TrChars::All(t) => text.push(action_char(t)),
            TrChars::FirstRest(t, u) => {
                text.push(action_char(t));
                text.push(action_char(u));
            }
            TrChars::FirstMiddleLast(t, u, v) => {
                text.push(action_char(t));
                text.push(action_char(u));
                text.push(action_char(v));
            }
        }
        text.push(' ');
    }
    text.push('|');
    text.push_str(&e.sep);
    text
}

#[test]
fn an_expression_written_out_parses_to_itself() {
    let actions = [Tr::Upper, Tr::Lower, Tr::Keep];
    let mut rules = Vec::new();
    for t in actions {
        rules.push(TrChars::All(t));
        for u in actions {
            rules.push(TrChars::FirstRest(t, u));
            for v in actions {
                rules.push(TrChars::FirstMiddleLast(t, u, v));
            }
        }
    }
    for db in [NumAlign::Left, NumAlign::Middle, NumAlign::Right] {
        for sep in ["", "_", "|", " c C|"] {
            let none = Expr { db, sep: sep.to_string(), trs: vec![] };
            assert_eq!(ExprParser::parse(&written_token_first(&none)).as_ref(), Ok(&none));
            assert_eq!(ExprParser::parse(&written(&none)), Ok(none));
            for (k, a) in rules.iter().enumerate() {
                let one = Expr { db, sep: sep.to_string(), trs: vec![*a] };
                assert_eq!(ExprParser::parse(&written_token_first(&one)).as_ref(), Ok(&one));
                assert_eq!(ExprParser::parse(&written(&one)), Ok(one));
                let b = rules[(k + 7) % rules.len()];
                let c = rules[(k + 19) % rules.len()];
                let two = Expr { db, sep: sep.to_string(), trs: vec![*a, b] };
                assert_eq!(ExprParser::parse(&written_token_first(&two)).as_ref(), Ok(&two));
                assert_eq!(ExprParser::parse(&written(&two)), Ok(two));
                let three = Expr { db, sep: sep.to_string(), trs: vec![*a, b, c] };
                assert_eq!(ExprParser::parse(&written_token_first(&three)).as_ref(), Ok(&three));
                assert_eq!(ExprParser::parse(&written(&three)), Ok(three));
            }
        }
    }
}

#[test]
fn a_character_outside_the_alphabet_is_refused_wherever_it_stands() {
    for text in ["x", " x", "c x", "cx", "c C * x", "1__ x", "_1_ c x", "c __1 x", "c\u{e9}|"] {
        assert!(ExprParser::parse(text).is_err());
    }
}
