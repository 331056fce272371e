use flequit_ui::search::document::{QueryDocument, Segment};
use flequit_ui::search::due::{DueName, DueSpec};
use flequit_ui::search::parser::{parse, Expr, Parsed, SyntaxIssue, Term};
use flequit_ui::search::resolve::Reference;

/// Renders a tree compactly for assertions: `&(a,|(b,c))`, `!x`.
fn shape(expr: &Expr) -> String {
    match expr {
        Expr::And(items) => format!("&({})", join(items)),
        Expr::Or(items) => format!("|({})", join(items)),
        Expr::Not(inner) => format!("!{}", shape(inner)),
        Expr::Term(node) => node.source.text().to_string(),
    }
}

fn join(items: &[Expr]) -> String {
    items.iter().map(shape).collect::<Vec<_>>().join(",")
}

fn parsed(text: &str) -> (String, Vec<SyntaxIssue>) {
    let parsed = parse(&QueryDocument::from_text(text));
    (
        parsed.expr.as_ref().map(shape).unwrap_or_default(),
        parsed.issues,
    )
}

#[test]
fn not_binds_tighter_than_and_which_binds_tighter_than_or() {
    assert_eq!(parsed("a | b c").0, "|(a,&(b,c))");
    assert_eq!(parsed("-a b").0, "&(!a,b)");
    assert_eq!(parsed("(a | b) c").0, "&(|(a,b),c)");
    assert_eq!(parsed("a AND b OR NOT c").0, "|(&(a,b),!c)");
}

#[test]
fn half_typed_queries_are_repaired_and_reported() {
    assert_eq!(parsed("(a | b"), ("|(a,b)".into(), vec![]));
    assert_eq!(parsed("a |"), ("a".into(), vec![SyntaxIssue::StrayOr]));
    assert_eq!(parsed("| a"), ("a".into(), vec![SyntaxIssue::StrayOr]));
    assert_eq!(
        parsed("a | | b"),
        ("|(a,b)".into(), vec![SyntaxIssue::StrayOr])
    );
    assert_eq!(parsed(")a"), ("a".into(), vec![SyntaxIssue::StrayParen]));
    assert_eq!(parsed("() a"), ("a".into(), vec![]));
    assert_eq!(parsed("- a"), ("a".into(), vec![]));
    assert_eq!(parsed(""), (String::new(), vec![]));
}

#[test]
fn a_minus_before_a_confirmed_token_negates_it() {
    let document = QueryDocument::from_segments(vec![
        Segment::Text("a -".into()),
        Segment::Bound {
            text: "@今日".into(),
            reference: Reference::Due(DueSpec::Named(DueName::Today)),
        },
    ]);
    let parsed = parse(&document);
    let expr = parsed.expr.expect("a tree");
    assert_eq!(shape(&expr), "&(a,!@今日)");
    match &expr {
        Expr::And(items) => match &items[1] {
            Expr::Not(inner) => match inner.as_ref() {
                Expr::Term(node) => {
                    assert_eq!(node.term, Term::Ref(Reference::Due(DueSpec::Named(DueName::Today))));
                    assert_eq!(node.span, 3..10);
                }
                other => panic!("not a term: {other:?}"),
            },
            other => panic!("not a negation: {other:?}"),
        },
        other => panic!("not an AND: {other:?}"),
    }
}

#[test]
fn terms_keep_their_byte_ranges() {
    let parsed = parse(&QueryDocument::from_text("牛乳 #tag"));
    match parsed.expr {
        Some(Expr::And(items)) => {
            assert_eq!(items.len(), 2);
            match (&items[0], &items[1]) {
                (Expr::Term(first), Expr::Term(second)) => {
                    assert_eq!(first.span, 0..6);
                    assert_eq!(first.term, Term::Text("牛乳".into()));
                    assert_eq!(second.span, 7..11);
                    assert_eq!(second.term, Term::Tag("tag".into()));
                }
                other => panic!("not two terms: {other:?}"),
            }
        }
        other => panic!("not an AND: {other:?}"),
    }
}

#[test]
fn an_unclosed_group_at_the_end_reads_nothing() {
    let parsed: Parsed = parse(&QueryDocument::from_text("a ("));
    assert_eq!(parsed.expr.as_ref().map(shape), Some("a".to_string()));
    assert!(parsed.issues.is_empty());
    assert_eq!(Parsed::default().expr, None);
}

#[test]
fn precedence_orders_or_and_not_term() {
    let parsed = parse(&QueryDocument::from_text("a | -b c"));
    let expr = parsed.expr.expect("a tree");
    assert_eq!(expr.precedence(), 1);
    match &expr {
        Expr::Or(items) => {
            assert_eq!(items[0].precedence(), 4);
            assert_eq!(items[1].precedence(), 2);
            match &items[1] {
                Expr::And(inner) => assert_eq!(inner[0].precedence(), 3),
                other => panic!("not an AND: {other:?}"),
            }
        }
        other => panic!("not an OR: {other:?}"),
    }
    assert_eq!(expr.clone(), expr);
}
