use fievar::apply::{tr_expr, transform_identifier};
use fievar::expr::ExprParser;
use fievar::types::{Expr, NumAlign, ParseError, Tr, TrChars, TransformError};
use fievar::words::FievarParser;

fn tr(name: &str, expr: &str) -> String {
    let e = ExprParser::parse(expr).unwrap();
    transform_identifier(name, &e)
}

#[test]
fn lower_case_everything() {
    assert_eq!(tr("AVeryLong0Variant", "c"), "averylong0variant");
}

#[test]
fn upper_case_everything() {
    assert_eq!(tr("AVeryLong1Variant", "C"), "AVERYLONG1VARIANT");
}

#[test]
fn digits_to_the_left() {
    assert_eq!(tr("AVeryLong2Variant", "1__|_"), "A_Very_Long2_Variant");
}

#[test]
fn digits_to_the_right() {
    assert_eq!(tr("AVeryLong3Variant", "__1|_"), "A_Very_Long_3Variant");
}

#[test]
fn digits_alone() {
    assert_eq!(tr("AVeryLong4Variant", "_1_|_"), "A_Very_Long_4_Variant");
}

#[test]
fn camel_case() {
    assert_eq!(tr("AVeryLong5Variant", "c Cc"), "aVeryLong5Variant");
}

#[test]
fn snake_case() {
    assert_eq!(tr("AVeryLong6Variant", "c|_"), "a_very_long6_variant");
}

#[test]
fn three_rules_alignment_and_separator() {
    assert_eq!(
        tr("LastVeryLong7Variant", "CcC cCc CcC _1_|*-*"),
        "LasT*-*vERy*-*lONg*-*7*-*VarianT"
    );
}

#[test]
fn empty_expression_drops_underscores() {
    assert_eq!(tr("access_token", ""), "accesstoken");
    assert_eq!(
        ExprParser::parse(""),
        Ok(Expr { db: NumAlign::Left, sep: String::new(), trs: vec![] })
    );
}

#[test]
fn tr_expr_runs_both_parsers() {
    assert_eq!(tr_expr("AVeryLong5Variant", "c Cc"), Ok("aVeryLong5Variant".to_string()));
    assert_eq!(
        tr_expr("mime_type", "c Cc"),
        Ok("mimeType".to_string())
    );
    assert_eq!(
        tr_expr("mime_type", "c Cx"),
        Err(TransformError::Expression(ParseError { index: 3, ch: 'x' }))
    );
    assert_eq!(tr_expr("mime-type", "c Cc"), Err(TransformError::Identifier));
    assert_eq!(tr_expr("", "c Cc"), Err(TransformError::Identifier));
    assert_eq!(
        tr_expr("", "?"),
        Err(TransformError::Expression(ParseError { index: 0, ch: '?' }))
    );
}

#[test]
fn words_of_an_acronym() {
    assert_eq!(FievarParser::parse("ABCd", NumAlign::Left), vec!["AB", "Cd"]);
    assert_eq!(FievarParser::parse("HTTPServer", NumAlign::Left), vec!["HTTP", "Server"]);
}

#[test]
fn parsed_rules() {
    let e = ExprParser::parse("CcC cCc CcC _1_|*-*").unwrap();
    assert_eq!(e.db, NumAlign::Middle);
    assert_eq!(e.sep, "*-*");
    assert_eq!(
        e.trs,
        vec![
            TrChars::FirstMiddleLast(Tr::Upper, Tr::Lower, Tr::Upper),
            TrChars::FirstMiddleLast(Tr::Lower, Tr::Upper, Tr::Lower),
            TrChars::FirstMiddleLast(Tr::Upper, Tr::Lower, Tr::Upper),
        ]
    );
}
