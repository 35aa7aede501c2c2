use overdrive::json::{JsonNumber, JsonValue};
use overdrive::lexer::tokenize;
use overdrive::query_engine::{
    aggregate_result, affected_result, condition_holds, condition_value, filter_rows, finish_select, insert_result, parse_statement,
    parse_where, row_ids, row_passes, show_tables_result, try_parse_aggregate, Condition, LogicOp, NumberComparison, Statement,
};
use overdrive::SdkError;

fn s(x: &str) -> JsonValue {
    JsonValue::Str(x.to_string())
}

fn n(x: u64) -> JsonValue {
    JsonValue::Number(JsonNumber::PosInt(x))
}

fn obj(fields: Vec<(&str, JsonValue)>) -> JsonValue {
    JsonValue::Object(fields.into_iter().map(|(k, v)| (k.to_string(), v)).collect())
}

fn field<'a>(v: &'a JsonValue, k: &str) -> Option<&'a JsonValue> {
    v.get(k)
}

fn invalid(sql: &str) -> String {
    match parse_statement(sql) {
        Err(SdkError::InvalidQuery(m)) => m,
        other => panic!("expected an invalid query, got {:?}", other),
    }
}

#[test]
fn select_full_clause() {
    let st = parse_statement("  SELECT name, age FROM users WHERE age > 25 AND city = 'Paris' ORDER BY name DESC LIMIT 10 OFFSET 2 ;; ");
    match st {
        Ok(Some(Statement::Select(p))) => {
            assert_eq!(p.columns, vec!["name", "age"]);
            assert!(p.aggregates.is_empty());
            assert_eq!(p.table, "users");
            let w = p.where_clause.unwrap();
            assert_eq!(w.conditions.len(), 2);
            assert_eq!(w.conditions[0].column, "age");
            assert_eq!(w.conditions[0].op, ">");
            assert_eq!(w.conditions[0].value, "25");
            assert_eq!(w.conditions[1].column, "city");
            assert_eq!(w.conditions[1].value, "'Paris'");
            assert_eq!(w.ops, vec![LogicOp::And]);
            let o = p.order_by.unwrap();
            assert_eq!(o.column, "name");
            assert!(o.descending);
            assert_eq!(p.limit, Some(10));
            assert_eq!(p.offset, 2);
        }
        other => panic!("unexpected {:?}", other),
    }
}

#[test]
fn select_count_star() {
    match parse_statement("SELECT COUNT(*) FROM t") {
        Ok(Some(Statement::Select(p))) => {
            assert!(p.columns.is_empty());
            assert_eq!(p.aggregates, vec![("COUNT".to_string(), "*".to_string())]);
            assert_eq!(p.table, "t");
            assert!(p.where_clause.is_none());
            assert_eq!(p.limit, None);
            assert_eq!(p.offset, 0);
        }
        other => panic!("unexpected {:?}", other),
    }
}

#[test]
fn select_aggregates_lowercase_and_columns() {
    match parse_statement("select sum(price), avg(price) from orders") {
        Ok(Some(Statement::Select(p))) => {
            assert_eq!(
                p.aggregates,
                vec![("SUM".to_string(), "price".to_string()), ("AVG".to_string(), "price".to_string())]
            );
            assert_eq!(p.table, "orders");
        }
        other => panic!("unexpected {:?}", other),
    }
}

#[test]
fn select_limit_not_a_number() {
    match parse_statement("SELECT * FROM t LIMIT abc OFFSET x") {
        Ok(Some(Statement::Select(p))) => {
            assert_eq!(p.columns, vec!["*"]);
            assert_eq!(p.limit, None);
            assert_eq!(p.offset, 0);
        }
        other => panic!("unexpected {:?}", other),
    }
}

#[test]
fn select_limit_with_plus_sign() {
    match parse_statement("SELECT * FROM t LIMIT +5") {
        Ok(Some(Statement::Select(p))) => assert_eq!(p.limit, Some(5)),
        other => panic!("unexpected {:?}", other),
    }
}

#[test]
fn select_errors() {
    assert_eq!(invalid("SELECT name"), "Expected FROM keyword");
    assert_eq!(invalid("SELECT * FROM"), "Expected table name after FROM");
}

#[test]
fn empty_statements() {
    assert!(matches!(parse_statement(""), Ok(None)));
    assert!(matches!(parse_statement("   ;;  "), Ok(None)));
}

#[test]
fn unsupported_command() {
    assert_eq!(invalid("MERGE INTO t"), "Unsupported SQL command: MERGE");
    assert_eq!(invalid("explain select"), "Unsupported SQL command: EXPLAIN");
}

#[test]
fn insert_statement() {
    match parse_statement("INSERT INTO users {\"name\": \"Alice\", \"age\": 30}") {
        Ok(Some(Statement::Insert(p))) => {
            assert_eq!(p.table, "users");
            assert_eq!(p.json_text, "{\"name\": \"Alice\", \"age\": 30}");
        }
        other => panic!("unexpected {:?}", other),
    }
    assert_eq!(invalid("INSERT users {}"), "Expected INSERT INTO <table> {json}");
    assert_eq!(invalid("INSERT INTO users name"), "Expected JSON object after table name");
}

#[test]
fn update_statement() {
    match parse_statement("UPDATE users SET {\"age\": 31, \"x\": {\"y\": 1}} WHERE name = 'Alice'") {
        Ok(Some(Statement::Update(p))) => {
            assert_eq!(p.table, "users");
            assert_eq!(p.json_text, "{\"age\": 31, \"x\": {\"y\": 1}}");
            let w = p.where_clause.unwrap();
            assert_eq!(w.conditions.len(), 1);
            assert_eq!(w.conditions[0].column, "name");
            assert_eq!(w.conditions[0].value, "'Alice'");
        }
        other => panic!("unexpected {:?}", other),
    }
    match parse_statement("UPDATE users SET {\"active\": false}") {
        Ok(Some(Statement::Update(p))) => {
            assert_eq!(p.json_text, "{\"active\": false}");
            assert!(p.where_clause.is_none());
        }
        other => panic!("unexpected {:?}", other),
    }
    assert_eq!(invalid("UPDATE users"), "Expected UPDATE <table> SET {json}");
    assert_eq!(invalid("UPDATE users x {}"), "Expected SET keyword");
    assert_eq!(invalid("UPDATE users SET x"), "Expected {updates} after SET");
}

#[test]
fn update_with_multibyte_text_keeps_whole_object() {
    // The JSON object runs up to its matching closing brace, whatever characters it holds.
    match parse_statement("UPDATE t SET {\"a\": \"é\"} WHERE x = 1") {
        Ok(Some(Statement::Update(p))) => {
            assert_eq!(p.json_text, "{\"a\": \"é\"}");
            let w = p.where_clause.unwrap();
            assert_eq!(w.conditions[0].column, "x");
        }
        other => panic!("unexpected {:?}", other),
    }
    match parse_statement("UPDATE t SET {éé}") {
        Ok(Some(Statement::Update(p))) => {
            assert_eq!(p.json_text, "{éé}");
            assert!(p.where_clause.is_none());
        }
        other => panic!("unexpected {:?}", other),
    }
    match parse_statement("UPDATE people SET {\"name\":\"José\"}") {
        Ok(Some(Statement::Update(p))) => {
            assert_eq!(p.table, "people");
            assert_eq!(p.json_text, "{\"name\":\"José\"}");
        }
        other => panic!("unexpected {:?}", other),
    }
}

#[test]
fn update_with_unclosed_object_gives_empty_text() {
    match parse_statement("UPDATE t SET {\"a\": 1") {
        Ok(Some(Statement::Update(p))) => assert_eq!(p.json_text, ""),
        other => panic!("unexpected {:?}", other),
    }
}

#[test]
fn delete_statement() {
    match parse_statement("DELETE FROM logs WHERE level = 'debug' OR age > 30") {
        Ok(Some(Statement::Delete(p))) => {
            assert_eq!(p.table, "logs");
            let w = p.where_clause.unwrap();
            assert_eq!(w.conditions.len(), 2);
            assert_eq!(w.ops, vec![LogicOp::Or]);
        }
        other => panic!("unexpected {:?}", other),
    }
    match parse_statement("DELETE FROM logs") {
        Ok(Some(Statement::Delete(p))) => assert!(p.where_clause.is_none()),
        other => panic!("unexpected {:?}", other),
    }
    assert_eq!(invalid("DELETE logs x"), "Expected DELETE FROM <table>");
}

#[test]
fn table_statements() {
    assert!(matches!(parse_statement("CREATE TABLE users"), Ok(Some(Statement::CreateTable(t))) if t == "users"));
    assert!(matches!(parse_statement("create tb users"), Ok(Some(Statement::CreateTable(t))) if t == "users"));
    assert!(matches!(parse_statement("DROP TABLE users"), Ok(Some(Statement::DropTable(t))) if t == "users"));
    assert!(matches!(parse_statement("SHOW TABLES"), Ok(Some(Statement::ShowTables))));
    assert!(matches!(parse_statement("show tb"), Ok(Some(Statement::ShowTables))));
    assert_eq!(invalid("CREATE TABLE"), "Expected CREATE TABLE <name>");
    assert_eq!(invalid("CREATE INDEX idx"), "Expected CREATE TABLE");
    assert_eq!(invalid("DROP TABLE"), "Expected DROP TABLE <name>");
    assert_eq!(invalid("DROP VIEW v"), "Expected DROP TABLE");
    assert_eq!(invalid("SHOW"), "Expected SHOW TABLES");
    assert_eq!(invalid("SHOW USERS"), "Expected SHOW TABLES");
}

#[test]
fn try_parse_aggregate_cases() {
    let t = tokenize("COUNT ( * ) FROM");
    let mut pos = 0;
    assert_eq!(try_parse_aggregate(&t, &mut pos), Some(("COUNT".to_string(), "*".to_string())));
    assert_eq!(pos, 4);

    let t = tokenize("max(price");
    let mut pos = 0;
    assert_eq!(try_parse_aggregate(&t, &mut pos), Some(("MAX".to_string(), "price".to_string())));
    assert_eq!(pos, 3);

    let t = tokenize("name FROM");
    let mut pos = 0;
    assert_eq!(try_parse_aggregate(&t, &mut pos), None);
    assert_eq!(pos, 0);

    let t = tokenize("SUM (");
    let mut pos = 0;
    assert_eq!(try_parse_aggregate(&t, &mut pos), None);
    assert_eq!(pos, 2);

    let t = tokenize("AVG price");
    let mut pos = 0;
    assert_eq!(try_parse_aggregate(&t, &mut pos), None);
    assert_eq!(pos, 0);
}

#[test]
fn parse_where_stops_at_order() {
    let t = tokenize("a = 1 OR b < 2 ORDER BY a");
    let (w, end) = parse_where(&t, 0);
    assert_eq!(w.conditions.len(), 2);
    assert_eq!(w.ops, vec![LogicOp::Or]);
    assert_eq!(end, 7);
}

#[test]
fn row_passes_left_to_right() {
    assert!(row_passes(&vec![], &vec![]));
    assert!(row_passes(&vec![true, false], &vec![LogicOp::Or]));
    assert!(!row_passes(&vec![true, false], &vec![LogicOp::And]));
    // (false OR true) AND true, evaluated left to right
    assert!(row_passes(&vec![false, true, true], &vec![LogicOp::Or, LogicOp::And]));
    // (true AND false) OR true
    assert!(row_passes(&vec![true, false, true], &vec![LogicOp::And, LogicOp::Or]));
    // a connective with no condition after it is ignored
    assert!(row_passes(&vec![true], &vec![LogicOp::And]));
    // a condition with no connective before it is ignored
    assert!(row_passes(&vec![true, false], &vec![]));
}

#[test]
fn filter_rows_keeps_passing_rows_in_order() {
    let rows = vec![obj(vec![("_id", s("1"))]), obj(vec![("_id", s("2"))]), obj(vec![("_id", s("3"))])];
    let truth = vec![vec![true], vec![false], vec![true]];
    let out = filter_rows(rows, &truth, &vec![]);
    assert_eq!(row_ids(&out), vec!["1", "3"]);
}

#[test]
fn filter_rows_without_conditions_keeps_all() {
    let rows = vec![n(1), n(2)];
    let out = filter_rows(rows, &vec![vec![], vec![]], &vec![]);
    assert_eq!(out.len(), 2);
}

#[test]
fn finish_select_offset_limit_projection() {
    let rows: Vec<JsonValue> = (0..5)
        .map(|i| obj(vec![("_id", s(&i.to_string())), ("name", s("x")), ("age", n(i))]))
        .collect();
    let r = finish_select(rows, vec!["name,".to_string(), "age".to_string()], Some(2), 1);
    assert_eq!(r.rows.len(), 2);
    assert_eq!(r.columns, vec!["name,", "age"]);
    assert_eq!(r.rows_affected, 0);
    for (k, row) in r.rows.iter().enumerate() {
        assert!(field(row, "_id").is_none());
        assert_eq!(field(row, "age").and_then(|v| v.as_u64()), Some(k as u64 + 1));
        assert_eq!(field(row, "name").and_then(|v| v.as_str()), Some("x"));
    }
}

#[test]
fn finish_select_star_keeps_rows() {
    let rows = vec![obj(vec![("a", n(1))]), n(7)];
    let r = finish_select(rows, vec!["*".to_string()], None, 0);
    assert_eq!(r.rows.len(), 2);
    assert_eq!(field(&r.rows[0], "a").and_then(|v| v.as_u64()), Some(1));
    assert_eq!(r.rows[1].as_u64(), Some(7));
}

#[test]
fn finish_select_offset_past_end() {
    let rows = vec![n(1), n(2)];
    let r = finish_select(rows, vec![], Some(10), 2);
    assert!(r.rows.is_empty());
}

#[test]
fn finish_select_non_objects_pass_projection() {
    let rows = vec![n(1)];
    let r = finish_select(rows, vec!["a".to_string()], None, 0);
    assert_eq!(r.rows[0].as_u64(), Some(1));
}

#[test]
fn aggregate_result_keys() {
    let aggs = vec![("COUNT".to_string(), "*".to_string()), ("SUM".to_string(), "price".to_string())];
    let r = aggregate_result(&aggs, vec![n(3), JsonValue::Null]);
    assert_eq!(r.rows.len(), 1);
    assert!(r.columns.is_empty());
    assert_eq!(field(&r.rows[0], "COUNT(*)").and_then(|v| v.as_u64()), Some(3));
    assert!(matches!(field(&r.rows[0], "SUM(price)"), Some(JsonValue::Null)));
}

#[test]
fn row_ids_skips_rows_without_string_id() {
    let rows = vec![obj(vec![("_id", s("a"))]), obj(vec![("_id", n(5))]), n(1), obj(vec![("x", s("b")), ("_id", s("c"))])];
    assert_eq!(row_ids(&rows), vec!["a", "c"]);
}

#[test]
fn small_results() {
    let r = insert_result("abc".to_string());
    assert_eq!(r.rows_affected, 1);
    assert_eq!(r.columns, vec!["_id"]);
    assert_eq!(field(&r.rows[0], "_id").and_then(|v| v.as_str()), Some("abc"));

    let r = affected_result(4);
    assert_eq!(r.rows_affected, 4);
    assert!(r.rows.is_empty());

    let r = show_tables_result(vec!["a".to_string(), "b".to_string()]);
    assert_eq!(r.columns, vec!["table_name"]);
    assert_eq!(r.rows.len(), 2);
    assert_eq!(field(&r.rows[1], "table_name").and_then(|v| v.as_str()), Some("b"));
}

#[test]
fn and_or_clauses() {
    let and2 = vec![LogicOp::And, LogicOp::And];
    assert!(row_passes(&vec![true, true, true], &and2));
    assert!(!row_passes(&vec![true, true, false], &and2));
    assert!(!row_passes(&vec![false, true, true], &and2));
    let or2 = vec![LogicOp::Or, LogicOp::Or];
    assert!(row_passes(&vec![false, false, true], &or2));
    assert!(!row_passes(&vec![false, false, false], &or2));
}

#[test]
fn window_without_offset_or_limit_keeps_all() {
    let r = finish_select(vec![n(1), n(2), n(3)], vec![], None, 0);
    assert_eq!(r.rows.len(), 3);
    assert_eq!(r.rows[2].as_u64(), Some(3));
}

#[test]
fn surrounding_whitespace_is_ignored() {
    assert!(matches!(parse_statement(" \t SHOW TABLES \n"), Ok(Some(Statement::ShowTables))));
    assert_eq!(invalid("\u{3000}DROP VIEW v "), "Expected DROP TABLE");
}

#[test]
fn condition_values_lose_their_quotes() {
    assert_eq!(condition_value("'Paris'"), "Paris");
    assert_eq!(condition_value("''\"x\"''"), "x");
    assert_eq!(condition_value("\"'a'\""), "'a'");
    assert_eq!(condition_value("25"), "25");
    assert_eq!(condition_value("''"), "");
}

#[test]
fn select_list_commas_name_no_column() {
    match parse_statement("SELECT name, price FROM t") {
        Ok(Some(Statement::Select(p))) => assert_eq!(p.columns, vec!["name", "price"]),
        other => panic!("unexpected {:?}", other),
    }
    match parse_statement("SELECT COUNT(*), name FROM t") {
        Ok(Some(Statement::Select(p))) => {
            assert_eq!(p.columns, vec!["name"]);
            assert_eq!(p.aggregates, vec![("COUNT".to_string(), "*".to_string())]);
        }
        other => panic!("unexpected {:?}", other),
    }
}

fn cond(column: &str, op: &str, value: &str) -> Condition {
    Condition { column: column.to_string(), op: op.to_string(), value: value.to_string() }
}

#[test]
fn condition_on_missing_field_or_unknown_operator_fails() {
    assert!(!condition_holds(None, &cond("a", "=", "1"), true, None, ""));
    assert!(!condition_holds(None, &cond("a", "!=", "x"), false, None, ""));
    let v = s("x");
    assert!(!condition_holds(Some(&v), &cond("a", "LIKE", "x"), false, None, "\"x\""));
}

#[test]
fn condition_equality_on_text_and_numbers() {
    let v = s("Paris");
    assert!(condition_holds(Some(&v), &cond("city", "=", "'Paris'"), false, None, "\"Paris\""));
    assert!(condition_holds(Some(&v), &cond("city", "==", "\"Paris\""), false, None, "\"Paris\""));
    assert!(!condition_holds(Some(&v), &cond("city", "=", "'Rome'"), false, None, "\"Paris\""));
    assert!(condition_holds(Some(&v), &cond("city", "!=", "'Rome'"), false, None, "\"Paris\""));
    assert!(!condition_holds(Some(&v), &cond("city", "<>", "'Paris'"), false, None, "\"Paris\""));
    // A boolean field equals the text of its JSON form.
    let b = JsonValue::Bool(true);
    assert!(condition_holds(Some(&b), &cond("ok", "=", "true"), false, None, "true"));
    // Numbers go by the caller's comparison.
    let near = NumberComparison { near: true, order: 0 };
    let far = NumberComparison { near: false, order: 1 };
    let num = n(5);
    assert!(condition_holds(Some(&num), &cond("age", "=", "5"), true, Some(near), "5"));
    assert!(!condition_holds(Some(&num), &cond("age", "=", "4"), true, Some(far), "5"));
    assert!(condition_holds(Some(&num), &cond("age", "!=", "4"), true, Some(far), "5"));
    // A number compared with a non-number field: never equal, always unequal.
    assert!(!condition_holds(Some(&v), &cond("city", "=", "5"), true, None, "\"Paris\""));
    assert!(condition_holds(Some(&v), &cond("city", "!=", "5"), true, None, "\"Paris\""));
}

#[test]
fn condition_ordering() {
    let num = n(30);
    let above = NumberComparison { near: false, order: 1 };
    assert!(condition_holds(Some(&num), &cond("age", ">", "25"), true, Some(above), "30"));
    assert!(condition_holds(Some(&num), &cond("age", ">=", "25"), true, Some(above), "30"));
    assert!(!condition_holds(Some(&num), &cond("age", "<", "25"), true, Some(above), "30"));
    assert!(!condition_holds(Some(&num), &cond("age", "<=", "25"), true, Some(above), "30"));
    // Strings order by text.
    let v = s("banana");
    assert!(condition_holds(Some(&v), &cond("f", ">", "'apple'"), false, None, "\"banana\""));
    assert!(condition_holds(Some(&v), &cond("f", "<", "'cherry'"), false, None, "\"banana\""));
    assert!(condition_holds(Some(&v), &cond("f", "<=", "'banana'"), false, None, "\"banana\""));
    // Neither numbers nor a string field: the two read as equal.
    let b = JsonValue::Bool(false);
    assert!(!condition_holds(Some(&b), &cond("f", ">", "x"), false, None, "false"));
    assert!(condition_holds(Some(&b), &cond("f", ">=", "x"), false, None, "false"));
}
