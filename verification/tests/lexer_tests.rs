use overdrive::lexer::tokenize;

fn toks(s: &str) -> Vec<String> {
    tokenize(s)
}

#[test]
fn tokenize_simple_select() {
    assert_eq!(toks("SELECT * FROM users"), vec!["SELECT", "*", "FROM", "users"]);
}

#[test]
fn tokenize_where_with_operators() {
    assert_eq!(
        toks("SELECT name, age FROM users WHERE age >= 25 AND name != 'Bob'"),
        vec!["SELECT", "name", ",", "age", "FROM", "users", "WHERE", "age", ">=", "25", "AND", "name", "!=", "'Bob'"]
    );
}

#[test]
fn tokenize_double_quotes_become_single() {
    assert_eq!(toks("x = \"hello world\""), vec!["x", "=", "'hello world'"]);
}

#[test]
fn tokenize_escapes_inside_quotes() {
    assert_eq!(toks(r"'it\'s'"), vec!["'it's'"]);
}

#[test]
fn tokenize_unterminated_quote() {
    assert_eq!(toks("'abc"), vec!["'abc'"]);
}

#[test]
fn tokenize_json_object_is_one_token() {
    assert_eq!(
        toks("INSERT INTO users {\"name\": \"A\", \"tags\": {\"x\": 1}}"),
        vec!["INSERT", "INTO", "users", "{\"name\": \"A\", \"tags\": {\"x\": 1}}"]
    );
}

#[test]
fn tokenize_array_is_one_token() {
    assert_eq!(toks("[1, [2, 3]] x"), vec!["[1, [2, 3]]", "x"]);
}

#[test]
fn tokenize_aggregate_call() {
    assert_eq!(toks("SELECT COUNT(*) FROM t"), vec!["SELECT", "COUNT", "(", "*", ")", "FROM", "t"]);
}

#[test]
fn tokenize_operators() {
    assert_eq!(toks("a<b c<=d e=f g==h i!j"), vec!["a", "<", "b", "c", "<=", "d", "e", "=", "f", "g", "==", "h", "i", "!", "j"]);
}

#[test]
fn tokenize_empty_and_blank() {
    assert!(toks("").is_empty());
    assert!(toks("  \t\n ").is_empty());
}

#[test]
fn tokenize_leading_whitespace_is_ignored() {
    assert_eq!(toks("   SHOW TABLES"), toks("SHOW TABLES"));
}

#[test]
fn tokenize_tokens_are_never_empty() {
    for s in ["a ,b", "''", "\"\"", "x=1;", "{}", "(a)"] {
        for t in toks(s) {
            assert!(!t.is_empty());
            assert!(!t.chars().next().unwrap().is_whitespace());
        }
    }
    assert_eq!(toks("''"), vec!["''"]);
}

#[test]
fn tokenize_unicode_whitespace() {
    assert_eq!(toks("a\u{00A0}b\u{3000}c"), vec!["a", "b", "c"]);
}
