use overdrive::safe_query::{bind_params, find_danger, quote_param};
use overdrive::SdkError;

fn security(r: Result<String, SdkError>) -> String {
    match r {
        Err(SdkError::SecurityError(m)) => m,
        other => panic!("expected a security error, got {:?}", other),
    }
}

#[test]
fn binds_params_in_order() {
    let q = bind_params("SELECT * FROM users WHERE name = ? AND city = ?", &["Alice", "Paris"]).unwrap();
    assert_eq!(q, "SELECT * FROM users WHERE name = 'Alice' AND city = 'Paris'");
}

#[test]
fn doubles_single_quotes() {
    let q = bind_params("SELECT * FROM t WHERE n = ?", &["O'Brien"]).unwrap();
    assert_eq!(q, "SELECT * FROM t WHERE n = 'O''Brien'");
    assert_eq!(quote_param("it's"), "'it''s'".chars().collect::<Vec<char>>());
}

#[test]
fn refuses_injection() {
    let m = security(bind_params("SELECT * FROM users WHERE name = ?", &["Alice'; DROP TABLE users--"]));
    assert_eq!(m, "SQL injection detected in parameter: 'Alice'; DROP TABLE users--' contains forbidden token 'DROP'");
}

#[test]
fn refuses_lowercase_keywords_and_comments() {
    let m = security(bind_params("?", &["x", "drop it"]));
    assert_eq!(m, "SQL injection detected in parameter: 'drop it' contains forbidden token 'DROP'");
    let m = security(bind_params("?", &["a -- b"]));
    assert_eq!(m, "SQL injection detected in parameter: 'a -- b' contains forbidden token '--'");
    let m = security(bind_params("?", &["a /* b"]));
    assert_eq!(m, "SQL injection detected in parameter: 'a /* b' contains forbidden token '/*'");
    let m = security(bind_params("?", &["1 union select"]));
    assert_eq!(m, "SQL injection detected in parameter: '1 union select' contains forbidden token 'UNION'");
}

#[test]
fn refuses_documented_delete_and_semicolon() {
    let m = security(bind_params("?", &["delete everything"]));
    assert_eq!(m, "SQL injection detected in parameter: 'delete everything' contains forbidden token 'DELETE'");
    let m = security(bind_params("?", &["a; b"]));
    assert_eq!(m, "SQL injection detected in parameter: 'a; b' contains forbidden token ';'");
}

#[test]
fn first_token_in_list_order_is_named() {
    // EXEC is tried before EXECUTE, and both occur.
    assert_eq!(find_danger("execute"), Some("EXEC"));
    assert_eq!(find_danger("fine"), None);
    assert_eq!(find_danger("xp_cmdshell"), None);
}

#[test]
fn too_many_params() {
    let m = security(bind_params("SELECT ?", &["a", "b"]));
    assert_eq!(m, "More params than '?' placeholders in SQL template");
}

#[test]
fn too_few_params() {
    let m = security(bind_params("SELECT ? , ?", &["a"]));
    assert_eq!(m, "SQL template has 2 '?' placeholders but only 1 params were provided");
}

#[test]
fn no_params_no_placeholders() {
    assert_eq!(bind_params("SHOW TABLES", &[]).unwrap(), "SHOW TABLES");
}

#[test]
fn question_mark_inside_a_param_is_not_a_placeholder() {
    let q = bind_params("? ?", &["a?", "b"]).unwrap();
    assert_eq!(q, "'a?' 'b'");
    let q = bind_params("SELECT * FROM t WHERE a = ? AND b = ?", &["x?", "y"]).unwrap();
    assert_eq!(q, "SELECT * FROM t WHERE a = 'x?' AND b = 'y'");
}

#[test]
fn placeholders_counted_in_the_template_only() {
    let m = security(bind_params("a = ?", &["?", "b"]));
    assert_eq!(m, "More params than '?' placeholders in SQL template");
    let m = security(bind_params("a = ? AND b = ?", &["?"]));
    assert_eq!(m, "SQL template has 2 '?' placeholders but only 1 params were provided");
}

/// Reads an SQL string literal whose opening quote has been consumed: its text and the
/// number of characters it took, closing quote included.
fn read_literal(t: &[char]) -> Option<(String, usize)> {
    let mut out = String::new();
    let mut i = 0;
    while i < t.len() {
        if t[i] == '\'' {
            if i + 1 < t.len() && t[i + 1] == '\'' {
                out.push('\'');
                i += 2;
                continue;
            }
            return Some((out, i + 1));
        }
        out.push(t[i]);
        i += 1;
    }
    None
}

#[test]
fn quoted_param_is_one_literal() {
    for p in ["plain", "O'Brien", "'", "''", "a' OR '1'='1", ""] {
        let q = quote_param(p);
        assert_eq!(q[0], '\'');
        let mut text = q.clone();
        text.extend(" AND x = 1".chars());
        assert_eq!(read_literal(&text[1..]), Some((p.to_string(), q.len() - 1)));
    }
}

#[test]
fn bound_query_keeps_params_inside_literals() {
    let q = bind_params("SELECT * FROM t WHERE a = ? AND b = 1", &["x' OR '1'='1"]).unwrap();
    assert_eq!(q, "SELECT * FROM t WHERE a = 'x'' OR ''1''=''1' AND b = 1");
    let chars: Vec<char> = q.chars().collect();
    let start = q.find('\'').unwrap();
    let (text, len) = read_literal(&chars[start + 1..]).unwrap();
    assert_eq!(text, "x' OR '1'='1");
    assert_eq!(chars[start + 1 + len..].iter().collect::<String>(), " AND b = 1");
}
