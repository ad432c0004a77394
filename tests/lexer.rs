use scriptvm::lexer::{
    is_identifier, is_number, is_operator, operator_table, pre_lex, tokenize, trim, LexErr, Lexed, Literal, PreLexed, Token,
};

#[test]
fn identifiers() {
    assert!(is_identifier("abc"));
    assert!(is_identifier("_x1"));
    assert!(!is_identifier(""));
    assert!(!is_identifier("1a"));
    assert!(!is_identifier("a-b"));
    assert!(!is_identifier("a0"));
}

#[test]
fn numbers() {
    assert!(is_number("12"));
    assert!(is_number("1.5"));
    assert!(is_number("1e5"));
    assert!(is_number("1.2e3"));
    assert!(!is_number(""));
    assert!(!is_number(".5"));
    assert!(!is_number("e5"));
    assert!(!is_number("1."));
    assert!(!is_number("1.2.3"));
    assert!(!is_number("1e2e3"));
    assert!(!is_number("1.e2"));
    assert!(!is_number("1e.2"));
    assert!(!is_number("1a"));
}

#[test]
fn trimming() {
    assert_eq!(trim("  ab "), ("ab", 2, 4));
    assert_eq!(trim("ab"), ("ab", 0, 2));
    assert_eq!(trim(""), ("", 0, 0));
    assert_eq!(trim("   "), ("  ", 0, 2));
}

#[test]
fn operators() {
    let table = vec![("+", Token::Plus), ("<=", Token::LtOrEq), ("print", Token::Print)];
    assert_eq!(is_operator(&table, "<="), Some(Token::LtOrEq));
    assert_eq!(is_operator(&table, "print"), Some(Token::Print));
    assert_eq!(is_operator(&table, "-"), None);
}

#[test]
fn pre_lex_splits_at_quotes() {
    assert_eq!(
        pre_lex("a \"b\" c"),
        Ok(vec![PreLexed::Rest("a ", 0), PreLexed::String("b", 3), PreLexed::Rest(" c", 5)])
    );
    assert_eq!(pre_lex(""), Ok(vec![PreLexed::Rest("", 0)]));
    assert_eq!(pre_lex("a\\\"b"), Ok(vec![PreLexed::Rest("a\\\"b", 0)]));
}

#[test]
fn pre_lex_mismatched_quote() {
    assert_eq!(pre_lex("say \"x"), Err(LexErr::MismatchedQuotes(4)));
    assert_eq!(pre_lex("\"a\" \"b"), Err(LexErr::MismatchedQuotes(4)));
}

#[test]
fn tokenize_splits_operators_and_numbers() {
    let table = operator_table();
    let pieces = pre_lex("2+3").unwrap();
    assert_eq!(
        tokenize(&table, &pieces),
        Ok(vec![Lexed::Number("2", 0), Lexed::Operator(Token::Plus, 1), Lexed::Number("3", 2)])
    );
}

#[test]
fn tokenize_print_statement() {
    let table = operator_table();
    let pieces = pre_lex("print \"hi\" * 2").unwrap();
    assert_eq!(
        tokenize(&table, &pieces),
        Ok(vec![
            Lexed::Operator(Token::Print, 0),
            Lexed::Literal(Literal::String(b"hi".to_vec()), 7),
            Lexed::Operator(Token::Asterix, 11),
            Lexed::Number("2", 13),
        ])
    );
}

#[test]
fn tokenize_identifiers_and_keywords() {
    let table = operator_table();
    let pieces = pre_lex("x = 1.5").unwrap();
    assert_eq!(
        tokenize(&table, &pieces),
        Ok(vec![Lexed::Identifier("x", 0), Lexed::Operator(Token::Equals, 2), Lexed::Number("1.5", 4)])
    );
}

#[test]
fn tokenize_unknown_token() {
    let table = operator_table();
    let pieces = pre_lex("2 $").unwrap();
    assert_eq!(tokenize(&table, &pieces), Err(LexErr::UnknownToken(2, "$")));
}

#[test]
fn operator_table_spellings() {
    let table = operator_table();
    assert_eq!(table.len(), 14);
    assert_eq!(is_operator(&table, ">="), Some(Token::GtOrEq));
    assert_eq!(is_operator(&table, "\n"), Some(Token::LineBreak));
}
