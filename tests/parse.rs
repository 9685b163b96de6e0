use sqltree::ast::{Child, SqlBuilder, SyntaxTree};
use sqltree::kind::SyntaxKind;
use sqltree::lexer::{tokenize, AstError, Token};

fn build(s: &str) -> Result<SyntaxTree, AstError> {
    SqlBuilder::from(s.to_string()).build()
}

fn texts(v: &Vec<(SyntaxKind, String)>) -> Vec<(SyntaxKind, &str)> {
    v.iter().map(|(k, t)| (*k, t.as_str())).collect()
}

#[test]
fn select_all_from_table() {
    let tree = build("SELECT * FROM users").unwrap();
    assert_eq!(tree.statements.len(), 1);
    let st = &tree.statements[0];
    assert_eq!(texts(&st.columns), vec![(SyntaxKind::ALL, "*")]);
    let from = &st.from;
    assert_eq!(texts(from), vec![(SyntaxKind::IDENTIFIER, "users")]);
}

#[test]
fn column_list_keeps_commas() {
    let tree = build("SELECT a, b,c FROM t").unwrap();
    let st = &tree.statements[0];
    assert_eq!(
        texts(&st.columns),
        vec![
            (SyntaxKind::IDENTIFIER, "a"),
            (SyntaxKind::COMMA, ","),
            (SyntaxKind::IDENTIFIER, "b"),
            (SyntaxKind::COMMA, ","),
            (SyntaxKind::IDENTIFIER, "c"),
        ]
    );
}

#[test]
fn from_clause_drops_commas() {
    let tree = build("SELECT * FROM t, u").unwrap();
    let from = &tree.statements[0].from;
    assert_eq!(texts(from), vec![(SyntaxKind::IDENTIFIER, "t"), (SyntaxKind::IDENTIFIER, "u")]);
}

#[test]
fn trailing_comma_in_from_fails() {
    assert!(matches!(build("SELECT * FROM t,"), Err(AstError::TrailingComma)));
    assert!(matches!(build("SELECT * FROM t, *"), Err(AstError::TrailingComma)));
}

#[test]
fn comma_before_from_fails() {
    assert!(matches!(build("SELECT a, FROM t"), Err(AstError::TrailingComma)));
    assert!(matches!(build("SELECT a, * FROM t"), Err(AstError::TrailingComma)));
}

#[test]
fn invalid_token_comes_before_trailing_comma() {
    assert!(matches!(build("SELECT * FROM t, @"), Err(AstError::InvalidToken(_))));
}

#[test]
fn children_in_document_order() {
    let tree = build("SELECT a, b FROM t").unwrap();
    assert_eq!(tree.kind(), SyntaxKind::ROOT);
    assert!(matches!(tree.children()[..], [Child::Node(SyntaxKind::SELECT)]));
    let st = &tree.statements[0];
    assert_eq!(st.kind(), SyntaxKind::SELECT);
    let ch = st.children();
    assert_eq!(ch.len(), 4);
    assert!(matches!(&ch[0], Child::Token(SyntaxKind::IDENTIFIER, s) if s == "a"));
    assert!(matches!(&ch[1], Child::Token(SyntaxKind::COMMA, s) if s == ","));
    assert!(matches!(&ch[2], Child::Token(SyntaxKind::IDENTIFIER, s) if s == "b"));
    assert!(matches!(&ch[3], Child::Node(SyntaxKind::FROM)));
    let fc = st.from_children();
    assert_eq!(fc.len(), 1);
    assert!(matches!(&fc[0], Child::Token(SyntaxKind::IDENTIFIER, s) if s == "t"));
}

#[test]
fn invalid_token_is_reported() {
    match build("SELECT * FROM t @@@") {
        Err(AstError::InvalidToken(s)) => assert_eq!(s, "@@@"),
        _ => panic!("expected an invalid token"),
    }
    match build("SELECT * FROM t; @@@") {
        Err(AstError::InvalidToken(s)) => assert_eq!(s, ";"),
        _ => panic!("expected an invalid token"),
    }
}

#[test]
fn unclosed_quote_is_invalid() {
    match tokenize("FROM 'abc") {
        Err(AstError::InvalidToken(s)) => assert_eq!(s, "'abc"),
        _ => panic!("expected an invalid token"),
    }
}

#[test]
fn keywords_ignore_case() {
    for q in ["select * from t", "SELECT * FROM t", "SeLeCt * FrOm t"] {
        let tree = build(q).unwrap();
        let st = &tree.statements[0];
        assert_eq!(texts(&st.columns), vec![(SyntaxKind::ALL, "*")]);
        assert_eq!(texts(&st.from), vec![(SyntaxKind::IDENTIFIER, "t")]);
    }
    let toks = tokenize("sElEcT fRoM").unwrap();
    assert_eq!(toks[0].to_syntax(), (SyntaxKind::SELECT, "SELECT".to_string()));
    assert_eq!(toks[1].to_syntax(), (SyntaxKind::FROM, "FROM".to_string()));
}

#[test]
fn quotes_are_stripped() {
    let tree = build("SELECT * FROM 'my table'").unwrap();
    let from = &tree.statements[0].from;
    assert_eq!(texts(from), vec![(SyntaxKind::TEXT, "my table")]);
    let toks = tokenize("\"a 'b'\"").unwrap();
    assert!(matches!(&toks[0], Token::Text(t) if t == "a 'b'"));
}

#[test]
fn identifiers_keep_spelling() {
    let toks = tokenize("Selected _x1\tfrom2\n*,").unwrap();
    assert_eq!(toks.len(), 5);
    assert!(matches!(&toks[0], Token::Identifier(t) if t == "Selected"));
    assert!(matches!(&toks[1], Token::Identifier(t) if t == "_x1"));
    assert!(matches!(&toks[2], Token::Identifier(t) if t == "from2"));
    assert!(matches!(toks[3], Token::All));
    assert!(matches!(toks[4], Token::Comma));
}

#[test]
fn leading_tokens_are_passed_over() {
    let tree = build("t u SELECT * FROM v SELECT x FROM w").unwrap();
    assert_eq!(tree.statements.len(), 2);
    assert_eq!(texts(&tree.statements[1].from), vec![(SyntaxKind::IDENTIFIER, "w")]);
}

#[test]
fn empty_text_gives_empty_root() {
    assert_eq!(build("  \n ").unwrap().statements.len(), 0);
}

#[test]
fn leaf_texts_tokenize_again() {
    let src = "select a , b from 'x y' , c";
    let original: Vec<(SyntaxKind, String)> =
        tokenize(src).unwrap().iter().map(|t| t.to_syntax()).collect();
    let tree = build(src).unwrap();
    // Keywords stand as nodes and text literals lose their quotes, so both are
    // written back; FROM-clause commas are not kept in the tree.
    let mut text = String::new();
    for st in &tree.statements {
        text.push_str("SELECT ");
        for (_, t) in &st.columns {
            text.push_str(&format!("{} ", t));
        }
        text.push_str("FROM ");
        for (k, t) in &st.from {
            if *k == SyntaxKind::TEXT {
                text.push_str(&format!("'{}' ", t));
            } else {
                text.push_str(&format!("{} ", t));
            }
        }
    }
    let again: Vec<(SyntaxKind, String)> =
        tokenize(&text).unwrap().iter().map(|t| t.to_syntax()).collect();
    let without_from_commas: Vec<(SyntaxKind, String)> = original
        .iter()
        .enumerate()
        .filter(|(i, (k, _))| !(*k == SyntaxKind::COMMA && *i > 4))
        .map(|(_, p)| p.clone())
        .collect();
    assert_eq!(again, without_from_commas);
}

#[test]
fn raw_kinds_round_trip() {
    for r in 0u16..8 {
        assert_eq!(SyntaxKind::from_raw(r).unwrap().to_raw(), r);
    }
    assert!(SyntaxKind::from_raw(8).is_none());
    assert_eq!(SyntaxKind::ROOT.to_raw(), 7);
}
