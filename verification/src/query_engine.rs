//! Embedded SQL query engine: the parsing and row processing of
//!
//! - `SELECT [columns] FROM <table> [WHERE ...] [ORDER BY ...] [LIMIT n] [OFFSET n]`
//! - `INSERT INTO <table> {json}`
//! - `UPDATE <table> SET {json} [WHERE ...]`
//! - `DELETE FROM <table> [WHERE ...]`
//! - `CREATE TABLE <name>`, `DROP TABLE <name>`, `SHOW TABLES`
//! - `SELECT COUNT(*) FROM <table>` (and other aggregates)
//!
//! Reading and writing the tables, and comparing numbers, is done by the caller.

use vstd::prelude::*;
use crate::json::{JsonValue, Fields, distinct_keys, has_key, insert_field, key_index, obj_map, spec_get};
use crate::result::SdkError;
use crate::model::QueryResult;
use crate::text::{
    chars_of, find_char, first_index_of, is_keyword, keyword_is, parse_usize, parse_usize_spec,
    slice_of, str_eq, string_of, to_upper, trim_end_char, trim_end_matching, trim_whitespace,
    trim_ws, uppercase_of, all_ws, lemma_trim_ws_surrounding, trim_char, trim_matching,
    chars_eq, compare_text, text_order,
};
use crate::lexer::{lex, tokenize, views};
use crate::result::concat_str;

verus! {

broadcast use vstd::std_specs::vec::group_vec_axioms;

/// Whether the upper-case form of token `t` is the keyword `k`.
pub open spec fn kw(t: Seq<char>, k: &str) -> bool {
    is_keyword(t, k@)
}

// ---------------------------------------------------------------------------
// WHERE clauses
// ---------------------------------------------------------------------------

/// How two condition results are combined.
#[derive(Clone, Copy, PartialEq, Eq, Debug)]
pub enum LogicOp {
    And,
    Or,
}

/// One `column op value` condition of a WHERE clause, as written.
#[derive(Debug)]
pub struct Condition {
    pub column: String,
    pub op: String,
    pub value: String,
}

/// The conditions of a WHERE clause and the connectives between them.
#[derive(Debug)]
pub struct WhereClause {
    pub conditions: Vec<Condition>,
    pub ops: Vec<LogicOp>,
}

/// A condition's view: column, operator and value.
pub open spec fn cond_view(c: Condition) -> (Seq<char>, Seq<char>, Seq<char>) {
    (c.column@, c.op@, c.value@)
}

/// A sequence of conditions, as views.
pub open spec fn cond_views(cs: Seq<Condition>) -> Seq<(Seq<char>, Seq<char>, Seq<char>)> {
    cs.map_values(|c: Condition| cond_view(c))
}

impl WhereClause {
    /// The conditions, as views.
    pub open spec fn cond_views(&self) -> Seq<(Seq<char>, Seq<char>, Seq<char>)> {
        cond_views(self.conditions@)
    }
}

/// Tokens at which a WHERE clause ends.
pub open spec fn ends_where(t: Seq<char>) -> bool {
    kw(t, "ORDER") || kw(t, "LIMIT") || kw(t, "OFFSET") || kw(t, "GROUP")
}

/// The connective named by a token (one of `AND`, `OR`).
pub open spec fn op_of(t: Seq<char>) -> LogicOp {
    if kw(t, "AND") {
        LogicOp::And
    } else {
        LogicOp::Or
    }
}

/// The conditions and connectives of a WHERE clause whose first token is at `pos`, and the
/// position after the clause: conditions are token triples, each optionally followed by
/// `AND` or `OR`; the clause ends at `ORDER`, `LIMIT`, `OFFSET`, `GROUP`, or where fewer
/// than three tokens are left.
pub open spec fn where_spec(t: Seq<Seq<char>>, pos: int) -> (
    Seq<(Seq<char>, Seq<char>, Seq<char>)>,
    Seq<LogicOp>,
    int,
)
    decreases t.len() - pos,
{
    if pos < 0 || pos >= t.len() || ends_where(t[pos]) || pos + 2 >= t.len() {
        (seq![], seq![], pos)
    } else {
        let c = (t[pos], t[pos + 1], t[pos + 2]);
        let p = pos + 3;
        if p < t.len() && (kw(t[p], "AND") || kw(t[p], "OR")) {
            let (cs, os, e) = where_spec(t, p + 1);
            (seq![c] + cs, seq![op_of(t[p])] + os, e)
        } else {
            let (cs, os, e) = where_spec(t, p);
            (seq![c] + cs, os, e)
        }
    }
}

proof fn lemma_where_spec_end(t: Seq<Seq<char>>, pos: int)
    requires
        0 <= pos,
    ensures
        pos <= where_spec(t, pos).2,
        pos <= t.len() ==> where_spec(t, pos).2 <= t.len(),
    decreases t.len() - pos,
{
    if pos < 0 || pos >= t.len() || ends_where(t[pos]) || pos + 2 >= t.len() {
    } else {
        let p = pos + 3;
        if p < t.len() && (kw(t[p], "AND") || kw(t[p], "OR")) {
            lemma_where_spec_end(t, p + 1);
        } else {
            lemma_where_spec_end(t, p);
        }
    }
}

/// Reads the WHERE clause whose first token is at `pos`; returns it and the position
/// after it.
pub fn parse_where(tokens: &[String], pos: usize) -> (r: (WhereClause, usize))
    requires
        pos <= tokens@.len(),
    ensures
        r.0.cond_views() == where_spec(views(tokens@), pos as int).0,
        r.0.ops@ == where_spec(views(tokens@), pos as int).1,
        r.1 == where_spec(views(tokens@), pos as int).2,
{
    let ghost t = views(tokens@);
    let n = tokens.len();
    let mut conditions: Vec<Condition> = Vec::new();
    let mut ops: Vec<LogicOp> = Vec::new();
    let mut p = pos;
    loop
        invariant
            n == tokens@.len() == t.len(),
            t == views(tokens@),
            pos <= p <= n,
            cond_views(conditions@) + where_spec(t, p as int).0
                == where_spec(t, pos as int).0,
            ops@ + where_spec(t, p as int).1 == where_spec(t, pos as int).1,
            where_spec(t, p as int).2 == where_spec(t, pos as int).2,
        ensures
            cond_views(conditions@) == where_spec(t, pos as int).0,
            ops@ == where_spec(t, pos as int).1,
            p == where_spec(t, pos as int).2,
        decreases n - p,
    {
        if p >= n {
            assert(where_spec(t, p as int).0 =~= seq![]);
            assert(where_spec(t, p as int).1 =~= seq![]);
            assert(cond_views(conditions@) =~= where_spec(t, pos as int).0);
            assert(ops@ =~= where_spec(t, pos as int).1);
            break;
        }
        assert(t[p as int] == tokens@[p as int]@);
        let stop = keyword_is(tokens[p].as_str(), "ORDER") || keyword_is(tokens[p].as_str(), "LIMIT")
            || keyword_is(tokens[p].as_str(), "OFFSET") || keyword_is(
            tokens[p].as_str(),
            "GROUP",
        );
        if stop || n - p <= 2 {
            assert(where_spec(t, p as int).0 =~= seq![]);
            assert(where_spec(t, p as int).1 =~= seq![]);
            assert(cond_views(conditions@) =~= where_spec(t, pos as int).0);
            assert(ops@ =~= where_spec(t, pos as int).1);
            break;
        }
        let ghost cv0 = cond_views(conditions@);
        let ghost ops0 = ops@;
        let c = Condition {
            column: tokens[p].clone(),
            op: tokens[p + 1].clone(),
            value: tokens[p + 2].clone(),
        };
        assert(t[p + 1] == tokens@[p + 1]@);
        assert(t[p + 2] == tokens@[p + 2]@);
        assert(cond_view(c) == (t[p as int], t[p + 1], t[p + 2]));
        conditions.push(c);
        assert(cond_views(conditions@) =~= cv0.push(cond_view(c)));
        let q = p + 3;
        let mut next = q;
        if q < n {
            assert(t[q as int] == tokens@[q as int]@);
            let is_and = keyword_is(tokens[q].as_str(), "AND");
            let is_or = keyword_is(tokens[q].as_str(), "OR");
            if is_and || is_or {
                ops.push(if is_and { LogicOp::And } else { LogicOp::Or });
                assert(ops@ =~= ops0.push(op_of(t[q as int])));
                next = q + 1;
            }
        }
        proof {
            let (cs, os, e) = where_spec(t, next as int);
            assert(cv0.push(cond_view(c)) + cs =~= cv0 + (seq![cond_view(c)] + cs));
            assert(ops@ + os =~= ops0 + where_spec(t, p as int).1);
        }
        p = next;
    }
    (WhereClause { conditions, ops }, p)
}

/// The value of a condition as it is compared: without surrounding `'`, then without
/// surrounding `"`.
pub fn condition_value(value: &str) -> (r: String)
    ensures
        r@ == trim_char(trim_char(value@, '\''), '"'),
{
    let v = chars_of(value);
    let a = trim_matching(&v, '\'');
    let b = trim_matching(&a, '"');
    string_of(&b)
}

/// What the caller's number arithmetic says of a field and a condition's value, both
/// read as numbers: whether they lie within the float epsilon of each other, and how
/// the field is ordered against the value (-1, 0 or 1).
#[derive(Clone, Copy, Debug)]
pub struct NumberComparison {
    pub near: bool,
    pub order: i32,
}

/// How a field is ordered against a condition's cleaned value: by the numbers' order
/// where the value reads as a number and the field does too, else by text where the
/// field is a string, else as equal.
pub open spec fn field_order(
    f: JsonValue,
    clean: Seq<char>,
    value_is_number: bool,
    numbers: Option<NumberComparison>,
) -> int {
    if value_is_number && numbers is Some {
        numbers->0.order as int
    } else {
        match f {
            JsonValue::Str(s) => text_order(s@, clean),
            _ => 0,
        }
    }
}

/// Whether a row's field meets a condition `(column, op, value)`. A missing field or
/// an unknown operator never does. `=`/`==` and `!=`/`<>` compare numbers by `numbers`
/// when the value reads as a number, else texts: a string field by its text, and for
/// `=` also the field's JSON text without surrounding `"`; the ordering operators go by
/// `field_order`.
pub open spec fn condition_spec(
    field: Option<JsonValue>,
    c: (Seq<char>, Seq<char>, Seq<char>),
    value_is_number: bool,
    numbers: Option<NumberComparison>,
    field_text: Seq<char>,
) -> bool {
    let op = c.1;
    let clean = trim_char(trim_char(c.2, '\''), '"');
    match field {
        None => false,
        Some(f) => if op == "="@ || op == "=="@ {
            if value_is_number {
                numbers is Some && numbers->0.near
            } else {
                (f matches JsonValue::Str(s) && s@ == clean) || trim_char(field_text, '"') == clean
            }
        } else if op == "!="@ || op == "<>"@ {
            if value_is_number {
                !(numbers is Some && numbers->0.near)
            } else {
                !(f matches JsonValue::Str(s) && s@ == clean)
            }
        } else if op == ">"@ {
            field_order(f, clean, value_is_number, numbers) > 0
        } else if op == "<"@ {
            field_order(f, clean, value_is_number, numbers) < 0
        } else if op == ">="@ {
            field_order(f, clean, value_is_number, numbers) >= 0
        } else if op == "<="@ {
            field_order(f, clean, value_is_number, numbers) <= 0
        } else {
            false
        },
    }
}

fn order_of_field(
    f: &JsonValue,
    clean: &str,
    value_is_number: bool,
    numbers: Option<NumberComparison>,
) -> (r: i32)
    ensures
        r == field_order(*f, clean@, value_is_number, numbers),
{
    if value_is_number {
        if let Some(n) = numbers {
            return n.order;
        }
    }
    match f.as_str() {
        Some(s) => compare_text(s, clean),
        None => 0,
    }
}

/// Whether a row's field (`None` where the row lacks the column) meets `condition`.
/// The caller, which holds numbers as floats, says whether the condition's cleaned
/// value reads as a number, compares the two as numbers where both are
/// (`numbers`), and gives the field's JSON text.
pub fn condition_holds(
    field: Option<&JsonValue>,
    condition: &Condition,
    value_is_number: bool,
    numbers: Option<NumberComparison>,
    field_text: &str,
) -> (r: bool)
    ensures
        r == condition_spec(
            match field {
                Some(f) => Some(*f),
                None => None,
            },
            cond_view(*condition),
            value_is_number,
            numbers,
            field_text@,
        ),
{
    let f = match field {
        Some(f) => f,
        None => return false,
    };
    let clean = condition_value(condition.value.as_str());
    let op = condition.op.as_str();
    if str_eq(op, "=") || str_eq(op, "==") {
        if value_is_number {
            match numbers {
                Some(n) => n.near,
                None => false,
            }
        } else {
            let same_text = match f.as_str() {
                Some(s) => str_eq(s, clean.as_str()),
                None => false,
            };
            if same_text {
                true
            } else {
                let shown = trim_matching(&chars_of(field_text), '"');
                chars_eq(&shown, &chars_of(clean.as_str()))
            }
        }
    } else if str_eq(op, "!=") || str_eq(op, "<>") {
        if value_is_number {
            match numbers {
                Some(n) => !n.near,
                None => true,
            }
        } else {
            match f.as_str() {
                Some(s) => !str_eq(s, clean.as_str()),
                None => true,
            }
        }
    } else if str_eq(op, ">") {
        order_of_field(f, clean.as_str(), value_is_number, numbers) > 0
    } else if str_eq(op, "<") {
        order_of_field(f, clean.as_str(), value_is_number, numbers) < 0
    } else if str_eq(op, ">=") {
        order_of_field(f, clean.as_str(), value_is_number, numbers) >= 0
    } else if str_eq(op, "<=") {
        order_of_field(f, clean.as_str(), value_is_number, numbers) <= 0
    } else {
        false
    }
}

/// Where the field is present and the value reads as a number, `!=` holds exactly when
/// `=` does not.
pub proof fn law_numeric_inequality_negates_equality(
    f: JsonValue,
    column: Seq<char>,
    value: Seq<char>,
    numbers: Option<NumberComparison>,
    field_text: Seq<char>,
)
    ensures
        condition_spec(Some(f), (column, "!="@, value), true, numbers, field_text)
            == !condition_spec(Some(f), (column, "="@, value), true, numbers, field_text),
{
    reveal_strlit("!=");
    reveal_strlit("=");
    reveal_strlit("==");
    assert("!="@ != "="@) by {
        assert("!="@.len() != "="@.len());
    }
    assert("!="@ != "=="@) by {
        assert("!="@[0] != "=="@[0]);
    }
}

/// Whether a row passes a WHERE clause whose conditions came out as `truth`: the first
/// result, then each connective in turn combined with the next result (connectives
/// without a following condition are ignored). No conditions: every row passes.
pub open spec fn where_holds(truth: Seq<bool>, ops: Seq<LogicOp>) -> bool {
    if truth.len() == 0 {
        true
    } else {
        fold_where(truth, ops, 0, truth[0])
    }
}

/// The left fold of `where_holds`, from connective `i` on with running result `acc`.
pub open spec fn fold_where(truth: Seq<bool>, ops: Seq<LogicOp>, i: int, acc: bool) -> bool
    decreases ops.len() - i,
{
    if i < 0 || i >= ops.len() {
        acc
    } else {
        let next = if i + 1 < truth.len() {
            match ops[i] {
                LogicOp::And => acc && truth[i + 1],
                LogicOp::Or => acc || truth[i + 1],
            }
        } else {
            acc
        };
        fold_where(truth, ops, i + 1, next)
    }
}

/// Whether a row whose conditions came out as `truth` passes the clause with connectives `ops`.
pub fn row_passes(truth: &Vec<bool>, ops: &Vec<LogicOp>) -> (r: bool)
    ensures
        r == where_holds(truth@, ops@),
{
    if truth.len() == 0 {
        return true;
    }
    let mut acc = truth[0];
    let mut i: usize = 0;
    while i < ops.len()
        invariant
            truth@.len() > 0,
            i <= ops@.len(),
            fold_where(truth@, ops@, i as int, acc) == fold_where(truth@, ops@, 0, truth@[0]),
        decreases ops.len() - i,
    {
        if i + 1 < truth.len() {
            acc = match ops[i] {
                LogicOp::And => acc && truth[i + 1],
                LogicOp::Or => acc || truth[i + 1],
            };
        }
        i = i + 1;
    }
    acc
}

/// The rows whose entry in `keep` is true, in order.
pub open spec fn keep_rows(rows: Seq<JsonValue>, keep: Seq<bool>) -> Seq<JsonValue>
    decreases rows.len(),
{
    if rows.len() == 0 || keep.len() == 0 {
        seq![]
    } else {
        let rest = keep_rows(rows.drop_last(), keep.drop_last());
        if keep.last() {
            rest.push(rows.last())
        } else {
            rest
        }
    }
}

/// Which rows pass the clause, given each row's condition results.
pub open spec fn pass_mask(truth: Seq<Vec<bool>>, ops: Seq<LogicOp>) -> Seq<bool> {
    truth.map_values(|t: Vec<bool>| where_holds(t@, ops))
}

/// The rows that pass a WHERE clause; `truth[i][j]` is whether row `i` meets condition `j`.
pub fn filter_rows(rows: Vec<JsonValue>, truth: &Vec<Vec<bool>>, ops: &Vec<LogicOp>) -> (r: Vec<
    JsonValue,
>)
    requires
        truth@.len() == rows@.len(),
    ensures
        r@ == keep_rows(rows@, pass_mask(truth@, ops@)),
{
    let ghost all = rows@;
    let ghost mask = pass_mask(truth@, ops@);
    let n = rows.len();
    let mut out: Vec<JsonValue> = Vec::new();
    let mut i: usize = 0;
    for row in it: rows.into_iter()
        invariant
            it.seq() == all,
            all.len() == n,
            i == it.index(),
            i <= n,
            truth@.len() == all.len(),
            mask == pass_mask(truth@, ops@),
            out@ == keep_rows(all.take(i as int), mask.take(i as int)),
    {
        let keep = row_passes(&truth[i], ops);
        assert(all.take(i + 1).drop_last() =~= all.take(i as int));
        assert(mask.take(i + 1).drop_last() =~= mask.take(i as int));
        assert(all[i as int] == row);
        if keep {
            out.push(row);
        }
        i = i + 1;
    }
    assert(all.take(all.len() as int) =~= all);
    assert(mask.take(mask.len() as int) =~= mask);
    out
}

// ---------------------------------------------------------------------------
// SELECT
// ---------------------------------------------------------------------------

/// The aggregate function names.
pub open spec fn is_aggregate_name(u: Seq<char>) -> bool {
    u == "COUNT"@ || u == "SUM"@ || u == "AVG"@ || u == "MIN"@ || u == "MAX"@
}

/// What reading an aggregate call at a position finds.
pub enum AggregateScan {
    /// The token is not the start of an aggregate call; nothing is consumed.
    NotAggregate,
    /// `NAME ( arg [)]`: the upper-case name, the argument, and the position after the call.
    Found(Seq<char>, Seq<char>, int),
    /// `NAME (` at the very end of the input: the position after the parenthesis.
    Truncated(int),
}

/// Reads an aggregate call such as `COUNT ( * )` or `SUM ( col )` at `pos`.
pub open spec fn aggregate_at(t: Seq<Seq<char>>, pos: int) -> AggregateScan {
    let u = uppercase_of(t[pos]);
    if !is_aggregate_name(u) || pos + 1 >= t.len() || t[pos + 1] != "("@ {
        AggregateScan::NotAggregate
    } else if pos + 2 < t.len() {
        let p = pos + 3;
        AggregateScan::Found(u, t[pos + 2], if p < t.len() && t[p] == ")"@ { p + 1 } else { p })
    } else {
        AggregateScan::Truncated(pos + 2)
    }
}

/// Tries to read an aggregate function call like `COUNT(*)`, `SUM(col)`, `AVG(col)` at
/// `*pos`, moving `*pos` past what was read.
pub fn try_parse_aggregate(tokens: &[String], pos: &mut usize) -> (r: Option<(String, String)>)
    requires
        *old(pos) < tokens@.len(),
    ensures
        match aggregate_at(views(tokens@), *old(pos) as int) {
            AggregateScan::NotAggregate => r is None && *final(pos) == *old(pos),
            AggregateScan::Found(f, a, p) => r matches Some((rf, ra)) && rf@ == f && ra@ == a
                && *final(pos) == p,
            AggregateScan::Truncated(p) => r is None && *final(pos) == p,
        },
{
    let ghost t = views(tokens@);
    let n = tokens.len();
    let p0 = *pos;
    assert(t[p0 as int] == tokens@[p0 as int]@);
    let upper = to_upper(tokens[p0].as_str());
    let is_agg = str_eq(upper.as_str(), "COUNT") || str_eq(upper.as_str(), "SUM") || str_eq(
        upper.as_str(),
        "AVG",
    ) || str_eq(upper.as_str(), "MIN") || str_eq(upper.as_str(), "MAX");
    if !is_agg {
        return None;
    }
    if p0 + 1 >= n {
        return None;
    }
    assert(t[p0 + 1] == tokens@[p0 + 1]@);
    if !str_eq(tokens[p0 + 1].as_str(), "(") {
        return None;
    }
    let p = p0 + 2;
    *pos = p;
    if p >= n {
        return None;
    }
    assert(t[p as int] == tokens@[p as int]@);
    let arg = tokens[p].clone();
    let mut q = p + 1;
    if q < n {
        assert(t[q as int] == tokens@[q as int]@);
        if str_eq(tokens[q].as_str(), ")") {
            q = q + 1;
        }
    }
    *pos = q;
    Some((upper, arg))
}

/// A column name as a SELECT list gives it: the token without trailing commas.
pub open spec fn column_name(t: Seq<char>) -> Seq<char> {
    trim_end_char(t, ',')
}

/// The column names and aggregate calls of a SELECT list starting at `pos`, and the
/// position where the list stops (at `FROM`, or past the end of the input); the `,`
/// tokens between items name no column.
pub open spec fn select_items(t: Seq<Seq<char>>, pos: int) -> (
    Seq<Seq<char>>,
    Seq<(Seq<char>, Seq<char>)>,
    int,
)
    decreases t.len() - pos,
{
    if pos < 0 || pos >= t.len() || kw(t[pos], "FROM") {
        (seq![], seq![], pos)
    } else if t[pos] == ","@ {
        select_items(t, pos + 1)
    } else {
        match aggregate_at(t, pos) {
            AggregateScan::Found(f, a, p) => {
                if p > pos {
                    let (c, g, e) = select_items(t, p);
                    (c, seq![(f, a)] + g, e)
                } else {
                    (seq![], seq![], pos)
                }
            },
            AggregateScan::Truncated(p) => (seq![column_name(t[pos])], seq![], p),
            AggregateScan::NotAggregate => {
                let (c, g, e) = select_items(t, pos + 1);
                (seq![column_name(t[pos])] + c, g, e)
            },
        }
    }
}

/// The trailing-comma-free form of a token.
fn column_of(tok: &String) -> (r: String)
    ensures
        r@ == column_name(tok@),
{
    let v = chars_of(tok.as_str());
    let w = trim_end_matching(&v, ',');
    string_of(&w)
}

/// The ORDER BY column and direction (descending or not).
#[derive(Debug)]
pub struct OrderBy {
    pub column: String,
    pub descending: bool,
}

/// Reads `ORDER [BY] col [DESC|ASC]` at `q`; returns the column and direction, and the
/// position after the clause.
pub open spec fn order_spec(t: Seq<Seq<char>>, q: int) -> (Option<(Seq<char>, bool)>, int) {
    if 0 <= q < t.len() && kw(t[q], "ORDER") {
        let q1 = q + 1;
        let q2 = if q1 < t.len() && kw(t[q1], "BY") {
            q1 + 1
        } else {
            q1
        };
        if q2 < t.len() {
            let col = column_name(t[q2]);
            let q3 = q2 + 1;
            if q3 < t.len() && kw(t[q3], "DESC") {
                (Some((col, true)), q3 + 1)
            } else if q3 < t.len() && kw(t[q3], "ASC") {
                (Some((col, false)), q3 + 1)
            } else {
                (Some((col, false)), q3)
            }
        } else {
            (None, q2)
        }
    } else {
        (None, q)
    }
}

/// Reads `LIMIT n` at `q`: the limit (none when the count is missing or not a number) and
/// the position after the clause.
pub open spec fn limit_spec(t: Seq<Seq<char>>, q: int) -> (Option<usize>, int) {
    if 0 <= q < t.len() && kw(t[q], "LIMIT") {
        if q + 1 < t.len() {
            (parse_usize_spec(t[q + 1]), q + 2)
        } else {
            (None, q + 1)
        }
    } else {
        (None, q)
    }
}

/// Reads `OFFSET n` at `q`: the offset, zero when absent or not a number.
pub open spec fn offset_spec(t: Seq<Seq<char>>, q: int) -> usize {
    if 0 <= q < t.len() && kw(t[q], "OFFSET") && q + 1 < t.len() {
        match parse_usize_spec(t[q + 1]) {
            Some(n) => n,
            None => 0,
        }
    } else {
        0
    }
}

/// A parsed SELECT statement.
#[derive(Debug)]
pub struct SelectPlan {
    /// The selected column names (`*` for all), without trailing commas.
    pub columns: Vec<String>,
    /// The aggregate calls: upper-case function name and argument.
    pub aggregates: Vec<(String, String)>,
    /// The table read.
    pub table: String,
    /// The WHERE clause, when the statement has one.
    pub where_clause: Option<WhereClause>,
    /// The ORDER BY column and direction.
    pub order_by: Option<OrderBy>,
    /// The LIMIT, when given as a number.
    pub limit: Option<usize>,
    /// The OFFSET (zero when absent).
    pub offset: usize,
}

/// The parts of a SELECT statement as views.
pub struct SelectView {
    pub columns: Seq<Seq<char>>,
    pub aggregates: Seq<(Seq<char>, Seq<char>)>,
    pub table: Seq<char>,
    pub where_clause: Option<(Seq<(Seq<char>, Seq<char>, Seq<char>)>, Seq<LogicOp>)>,
    pub order_by: Option<(Seq<char>, bool)>,
    pub limit: Option<usize>,
    pub offset: usize,
}

/// The views of a list of aggregate calls.
pub open spec fn pair_views(v: Seq<(String, String)>) -> Seq<(Seq<char>, Seq<char>)> {
    v.map_values(|p: (String, String)| (p.0@, p.1@))
}

impl SelectPlan {
    /// This plan as views.
    pub open spec fn view(&self) -> SelectView {
        SelectView {
            columns: views(self.columns@),
            aggregates: pair_views(self.aggregates@),
            table: self.table@,
            where_clause: match self.where_clause {
                Some(w) => Some((w.cond_views(), w.ops@)),
                None => None,
            },
            order_by: match self.order_by {
                Some(o) => Some((o.column@, o.descending)),
                None => None,
            },
            limit: self.limit,
            offset: self.offset,
        }
    }
}

/// What a SELECT statement with tokens `t` means, or the message it is refused with.
pub open spec fn select_spec(t: Seq<Seq<char>>) -> Result<SelectView, Seq<char>> {
    let (cols, aggs, p) = select_items(t, 1);
    if p < 0 || p >= t.len() || !kw(t[p], "FROM") {
        Err("Expected FROM keyword"@)
    } else if p + 1 >= t.len() {
        Err("Expected table name after FROM"@)
    } else {
        let q = p + 2;
        let (wc, q2) = if q < t.len() && kw(t[q], "WHERE") {
            let (cs, os, e) = where_spec(t, q + 1);
            (Some((cs, os)), e)
        } else {
            (None, q)
        };
        let (order, q3) = order_spec(t, q2);
        let (limit, q4) = limit_spec(t, q3);
        Ok(
            SelectView {
                columns: cols,
                aggregates: aggs,
                table: t[p + 1],
                where_clause: wc,
                order_by: order,
                limit: limit,
                offset: offset_spec(t, q4),
            },
        )
    }
}

fn parse_order(tokens: &[String], q: usize) -> (r: (Option<OrderBy>, usize))
    requires
        q <= tokens@.len(),
    ensures
        r.1 == order_spec(views(tokens@), q as int).1,
        match order_spec(views(tokens@), q as int).0 {
            Some((c, d)) => r.0 matches Some(o) && o.column@ == c && o.descending == d,
            None => r.0 is None,
        },
{
    let ghost t = views(tokens@);
    let n = tokens.len();
    if q >= n {
        return (None, q);
    }
    assert(t[q as int] == tokens@[q as int]@);
    if !keyword_is(tokens[q].as_str(), "ORDER") {
        return (None, q);
    }
    let mut q2 = q + 1;
    if q2 < n {
        assert(t[q2 as int] == tokens@[q2 as int]@);
        if keyword_is(tokens[q2].as_str(), "BY") {
            q2 = q2 + 1;
        }
    }
    if q2 >= n {
        return (None, q2);
    }
    assert(t[q2 as int] == tokens@[q2 as int]@);
    let column = column_of(&tokens[q2]);
    let q3 = q2 + 1;
    if q3 < n {
        assert(t[q3 as int] == tokens@[q3 as int]@);
        if keyword_is(tokens[q3].as_str(), "DESC") {
            return (Some(OrderBy { column, descending: true }), q3 + 1);
        }
        if keyword_is(tokens[q3].as_str(), "ASC") {
            return (Some(OrderBy { column, descending: false }), q3 + 1);
        }
    }
    (Some(OrderBy { column, descending: false }), q3)
}

fn parse_limit(tokens: &[String], q: usize) -> (r: (Option<usize>, usize))
    requires
        q <= tokens@.len(),
    ensures
        r.0 == limit_spec(views(tokens@), q as int).0,
        r.1 == limit_spec(views(tokens@), q as int).1,
{
    let ghost t = views(tokens@);
    let n = tokens.len();
    if q >= n {
        return (None, q);
    }
    assert(t[q as int] == tokens@[q as int]@);
    if !keyword_is(tokens[q].as_str(), "LIMIT") {
        return (None, q);
    }
    if q + 1 >= n {
        return (None, q + 1);
    }
    assert(t[q + 1] == tokens@[q + 1]@);
    (parse_usize(tokens[q + 1].as_str()), q + 2)
}

fn parse_offset(tokens: &[String], q: usize) -> (r: usize)
    requires
        q <= tokens@.len(),
    ensures
        r == offset_spec(views(tokens@), q as int),
{
    let ghost t = views(tokens@);
    let n = tokens.len();
    if q >= n {
        return 0;
    }
    assert(t[q as int] == tokens@[q as int]@);
    if !keyword_is(tokens[q].as_str(), "OFFSET") || q + 1 >= n {
        return 0;
    }
    assert(t[q + 1] == tokens@[q + 1]@);
    match parse_usize(tokens[q + 1].as_str()) {
        Some(v) => v,
        None => 0,
    }
}

/// An `InvalidQuery` error with the given message.
pub fn invalid_query(msg: &str) -> (e: SdkError)
    ensures
        e matches SdkError::InvalidQuery(m) && m@ == msg@,
{
    SdkError::InvalidQuery(String::from_str(msg))
}

/// Whether `r` is the `InvalidQuery` error with message `msg`.
pub open spec fn is_invalid_query<T>(r: Result<T, SdkError>, msg: Seq<char>) -> bool {
    r matches Err(SdkError::InvalidQuery(m)) && m@ == msg
}

/// Parses a SELECT statement (the tokens begin with `SELECT`).
pub fn parse_select(tokens: &[String]) -> (r: Result<SelectPlan, SdkError>)
    ensures
        match select_spec(views(tokens@)) {
            Ok(v) => r matches Ok(plan) && plan.view() == v,
            Err(m) => is_invalid_query(r, m),
        },
{
    let ghost t = views(tokens@);
    let n = tokens.len();
    let mut columns: Vec<String> = Vec::new();
    let mut aggregates: Vec<(String, String)> = Vec::new();
    if n == 0 {
        return Err(invalid_query("Expected FROM keyword"));
    }
    let mut pos: usize = 1;
    assert(select_items(t, 1) == select_items(t, pos as int));
    while pos < n
        invariant
            n == tokens@.len() == t.len(),
            t == views(tokens@),
            1 <= pos <= n,
            views(columns@) + select_items(t, pos as int).0 == select_items(t, 1).0,
            pair_views(aggregates@) + select_items(t, pos as int).1 == select_items(t, 1).1,
            select_items(t, pos as int).2 == select_items(t, 1).2,
        ensures
            views(columns@) == select_items(t, 1).0,
            pair_views(aggregates@) == select_items(t, 1).1,
            pos == select_items(t, 1).2,
        decreases n - pos,
    {
        assert(t[pos as int] == tokens@[pos as int]@);
        if keyword_is(tokens[pos].as_str(), "FROM") {
            assert(views(columns@) =~= select_items(t, 1).0);
            assert(pair_views(aggregates@) =~= select_items(t, 1).1);
            break;
        }
        if str_eq(tokens[pos].as_str(), ",") {
            pos = pos + 1;
            continue;
        }
        let ghost c0 = views(columns@);
        let ghost a0 = pair_views(aggregates@);
        let ghost p0 = pos as int;
        let start = pos;
        let col = column_of(&tokens[pos]);
        match try_parse_aggregate(tokens, &mut pos) {
            Some(agg) => {
                aggregates.push(agg);
                proof {
                    let (cs, gs, e) = select_items(t, pos as int);
                    assert(pair_views(aggregates@) =~= a0.push((agg.0@, agg.1@)));
                    assert(pair_views(aggregates@) + gs =~= a0 + (seq![(agg.0@, agg.1@)] + gs));
                }
            },
            None => {
                columns.push(col);
                proof {
                    assert(views(columns@) =~= c0.push(col@));
                    match aggregate_at(t, p0) {
                        AggregateScan::Truncated(p) => {
                            assert(select_items(t, pos as int) == (
                                Seq::<Seq<char>>::empty(),
                                Seq::<(Seq<char>, Seq<char>)>::empty(),
                                pos as int,
                            ));
                            assert(views(columns@) + Seq::<Seq<char>>::empty() =~= c0 + seq![
                                column_name(t[p0]),
                            ]);
                            assert(a0 + Seq::<(Seq<char>, Seq<char>)>::empty() =~= a0);
                        },
                        _ => {
                            let (cs, gs, e) = select_items(t, pos + 1);
                            assert(views(columns@) + cs =~= c0 + (seq![column_name(t[p0])]
                                + cs));
                        },
                    }
                }
                if pos == start {
                    pos = pos + 1;
                }
            },
        }
    }
    let p = pos;
    if p >= n {
        return Err(invalid_query("Expected FROM keyword"));
    }
    assert(t[p as int] == tokens@[p as int]@);
    if !keyword_is(tokens[p].as_str(), "FROM") {
        return Err(invalid_query("Expected FROM keyword"));
    }
    if p + 1 >= n {
        return Err(invalid_query("Expected table name after FROM"));
    }
    assert(t[p + 1] == tokens@[p + 1]@);
    let table = tokens[p + 1].clone();
    let q = p + 2;
    let mut q2 = q;
    let mut where_clause: Option<WhereClause> = None;
    if q < n {
        assert(t[q as int] == tokens@[q as int]@);
        if keyword_is(tokens[q].as_str(), "WHERE") {
            let (w, e) = parse_where(tokens, q + 1);
            where_clause = Some(w);
            q2 = e;
        }
    }
    proof {
        lemma_where_spec_end(t, q + 1);
    }
    let (order_by, q3) = parse_order(tokens, q2);
    proof {
        if 0 <= q2 < t.len() && kw(t[q2 as int], "ORDER") {
        }
    }
    let (limit, q4) = parse_limit(tokens, q3);
    let offset = parse_offset(tokens, q4);
    let plan = SelectPlan { columns, aggregates, table, where_clause, order_by, limit, offset };
    Ok(plan)
}

// ---------------------------------------------------------------------------
// Shaping SELECT results
// ---------------------------------------------------------------------------

/// The rows left after skipping `offset` rows and keeping at most `limit`.
pub open spec fn window(rows: Seq<JsonValue>, offset: usize, limit: Option<usize>) -> Seq<
    JsonValue,
> {
    let a = if offset >= rows.len() {
        Seq::<JsonValue>::empty()
    } else {
        rows.skip(offset as int)
    };
    match limit {
        Some(l) => if l < a.len() {
            a.take(l as int)
        } else {
            a
        },
        None => a,
    }
}

/// Whether a column list asks for a projection (anything but nothing or a lone `*`).
pub open spec fn projects(columns: Seq<Seq<char>>) -> bool {
    columns.len() > 0 && !(columns.len() == 1 && columns[0] == "*"@)
}

/// Whether field `f` is kept by the projection on `columns`.
pub open spec fn field_selected(f: (String, JsonValue), columns: Seq<Seq<char>>) -> bool {
    columns.map_values(|c: Seq<char>| column_name(c)).contains(f.0@)
}

/// Whether `out` is `row` projected on `columns`: an object keeps exactly its fields
/// named by a column (trailing commas dropped), in order; any other value is unchanged.
pub open spec fn projected(out: JsonValue, row: JsonValue, columns: Seq<Seq<char>>) -> bool {
    match row {
        JsonValue::Object(fields) => out matches JsonValue::Object(kept) && kept@ == fields@.filter(
            |f: (String, JsonValue)| field_selected(f, columns),
        ),
        _ => out == row,
    }
}

/// Whether `name` is one of `list`.
pub fn contains_str(list: &Vec<String>, name: &str) -> (r: bool)
    ensures
        r == views(list@).contains(name@),
{
    let mut i: usize = 0;
    while i < list.len()
        invariant
            i <= list@.len(),
            forall|j: int| 0 <= j < i ==> list@[j]@ != name@,
        decreases list.len() - i,
    {
        if str_eq(list[i].as_str(), name) {
            assert(views(list@)[i as int] == name@);
            return true;
        }
        i = i + 1;
    }
    assert forall|j: int| 0 <= j < views(list@).len() implies views(list@)[j] != name@ by {
        assert(views(list@)[j] == list@[j]@);
    }
    false
}

fn project_row(row: JsonValue, cleaned: &Vec<String>, Ghost(columns): Ghost<Seq<Seq<char>>>) -> (r:
    JsonValue)
    requires
        views(cleaned@) == columns.map_values(|c: Seq<char>| column_name(c)),
    ensures
        projected(r, row, columns),
{
    match row {
        JsonValue::Object(fields) => {
            let ghost all = fields@;
            let ghost pred = |f: (String, JsonValue)| field_selected(f, columns);
            let mut kept: Fields = Vec::new();
            for f in it: fields.into_iter()
                invariant
                    it.seq() == all,
                    pred == (|f: (String, JsonValue)| field_selected(f, columns)),
                    views(cleaned@) == columns.map_values(|c: Seq<char>| column_name(c)),
                    kept@ == all.take(it.index() as int).filter(pred),
            {
                let ghost i = it.index();
                assert(all.take(i + 1).drop_last() =~= all.take(i));
                assert(all[i] == f);
                reveal_with_fuel(Seq::<_>::filter, 1);
                if contains_str(cleaned, f.0.as_str()) {
                    kept.push(f);
                }
            }
            assert(all.take(all.len() as int) =~= all);
            JsonValue::Object(kept)
        },
        other => other,
    }
}

/// Applies OFFSET, LIMIT and the column projection of a SELECT to rows already filtered
/// and ordered.
pub fn finish_select(rows: Vec<JsonValue>, columns: Vec<String>, limit: Option<usize>, offset: usize) -> (r: QueryResult)
    ensures
        r.columns@ == columns@,
        r.rows_affected == 0,
        r.rows@.len() == window(rows@, offset, limit).len(),
        forall|k: int|
            0 <= k < r.rows@.len() ==> if projects(views(columns@)) {
                projected(r.rows@[k], window(rows@, offset, limit)[k], views(columns@))
            } else {
                r.rows@[k] == window(rows@, offset, limit)[k]
            },
{
    let ghost all = rows@;
    let ghost cols = views(columns@);
    let ghost w = window(all, offset, limit);
    let project = columns.len() > 0 && !(columns.len() == 1 && str_eq(columns[0].as_str(), "*"));
    assert(project == projects(cols)) by {
        assert(cols.len() == columns@.len());
        if columns@.len() == 1 {
            assert(cols[0] == columns@[0]@);
        }
    }
    let mut cleaned: Vec<String> = Vec::new();
    let mut c: usize = 0;
    while c < columns.len()
        invariant
            c <= columns@.len(),
            cols == views(columns@),
            views(cleaned@) == cols.take(c as int).map_values(|x: Seq<char>| column_name(x)),
        decreases columns.len() - c,
    {
        let name = column_of(&columns[c]);
        let ghost before = views(cleaned@);
        cleaned.push(name);
        assert(cols[c as int] == columns@[c as int]@);
        assert(views(cleaned@) =~= before.push(name@));
        assert(cols.take(c + 1).map_values(|x: Seq<char>| column_name(x)) =~= cols.take(
            c as int,
        ).map_values(|x: Seq<char>| column_name(x)).push(column_name(cols[c as int])));
        assert(views(cleaned@) =~= cols.take(c + 1).map_values(|x: Seq<char>| column_name(x)));
        c = c + 1;
    }
    assert(cols.take(cols.len() as int) =~= cols);
    let n = rows.len();
    let mut out: Vec<JsonValue> = Vec::new();
    let mut i: usize = 0;
    for row in it: rows.into_iter()
        invariant
            it.seq() == all,
            all.len() == n,
            i == it.index(),
            i <= n,
            w == window(all, offset, limit),
            cols == views(columns@),
            project == projects(cols),
            views(cleaned@) == cols.map_values(|x: Seq<char>| column_name(x)),
            out@.len() == (if i <= offset { 0 } else { let k = (i - offset) as int; match limit { Some(l) => if k < l { k } else { l as int }, None => k } }),
            forall|k: int|
                0 <= k < out@.len() ==> if project {
                    projected(out@[k], all[offset + k], cols)
                } else {
                    out@[k] == all[offset + k]
                },
    {
        assert(all[i as int] == row);
        let within = i >= offset && match limit {
            Some(l) => i - offset < l,
            None => true,
        };
        if within {
            let ghost k = out@.len() as int;
            assert(k == i - offset);
            if project {
                let p = project_row(row, &cleaned, Ghost(cols));
                out.push(p);
            } else {
                out.push(row);
            }
        }
        i = i + 1;
    }
    proof {
        assert(out@.len() == w.len());
        assert forall|k: int| 0 <= k < out@.len() implies w[k] == all[offset + k] by {}
    }
    QueryResult { rows: out, columns, rows_affected: 0 }
}

// ---------------------------------------------------------------------------
// Aggregates
// ---------------------------------------------------------------------------

/// The result key of an aggregate call: `FUNC(arg)`.
pub open spec fn aggregate_key(func: Seq<char>, arg: Seq<char>) -> Seq<char> {
    func + "("@ + arg + ")"@
}

/// The aggregate row as a map: each call's key bound to its value, later calls winning.
pub open spec fn aggregate_map(aggs: Seq<(Seq<char>, Seq<char>)>, values: Seq<JsonValue>) -> Map<
    Seq<char>,
    JsonValue,
>
    decreases aggs.len(),
{
    if aggs.len() == 0 || values.len() == 0 {
        Map::empty()
    } else {
        aggregate_map(aggs.drop_last(), values.drop_last()).insert(
            aggregate_key(aggs.last().0, aggs.last().1),
            values.last(),
        )
    }
}

/// The one-row result of a SELECT with aggregates; `values[i]` is the value of `aggs[i]`.
pub fn aggregate_result(aggs: &Vec<(String, String)>, values: Vec<JsonValue>) -> (r: QueryResult)
    requires
        values@.len() == aggs@.len(),
    ensures
        r.rows@.len() == 1,
        r.rows@[0] matches JsonValue::Object(fields) && distinct_keys(fields@) && obj_map(fields@)
            == aggregate_map(pair_views(aggs@), values@),
        r.columns@.len() == 0,
        r.rows_affected == 0,
{
    let ghost all = values@;
    let ghost av = pair_views(aggs@);
    let mut fields: Fields = Vec::new();
    let mut i: usize = 0;
    let n = aggs.len();
    for v in it: values.into_iter()
        invariant
            it.seq() == all,
            i == it.index(),
            i <= n,
            n == aggs@.len() == all.len(),
            av == pair_views(aggs@),
            distinct_keys(fields@),
            obj_map(fields@) == aggregate_map(av.take(i as int), all.take(i as int)),
    {
        let (f, a) = (&aggs[i].0, &aggs[i].1);
        let k1 = concat_str(f.as_str(), "(");
        let k2 = concat_str(k1.as_str(), a.as_str());
        let key = concat_str(k2.as_str(), ")");
        assert(key@ == aggregate_key(av[i as int].0, av[i as int].1));
        assert(all[i as int] == v);
        assert(av.take(i + 1).drop_last() =~= av.take(i as int));
        assert(all.take(i + 1).drop_last() =~= all.take(i as int));
        insert_field(&mut fields, key, v);
        i = i + 1;
    }
    assert(av.take(n as int) =~= av);
    assert(all.take(n as int) =~= all);
    let mut rows: Vec<JsonValue> = Vec::new();
    rows.push(JsonValue::Object(fields));
    QueryResult { rows, columns: Vec::new(), rows_affected: 0 }
}

// ---------------------------------------------------------------------------
// Other statements
// ---------------------------------------------------------------------------

/// The value of the `_id` string field of each row that has one, in order.
pub open spec fn ids_of(rows: Seq<JsonValue>) -> Seq<Seq<char>>
    decreases rows.len(),
{
    if rows.len() == 0 {
        seq![]
    } else {
        let rest = ids_of(rows.drop_last());
        match spec_get(rows.last(), "_id"@) {
            Some(JsonValue::Str(s)) => rest.push(s@),
            _ => rest,
        }
    }
}

/// The `_id` of each row that has a string `_id`, in order.
pub fn row_ids(rows: &Vec<JsonValue>) -> (r: Vec<String>)
    ensures
        views(r@) == ids_of(rows@),
{
    let mut out: Vec<String> = Vec::new();
    let mut i: usize = 0;
    while i < rows.len()
        invariant
            i <= rows@.len(),
            views(out@) == ids_of(rows@.take(i as int)),
        decreases rows.len() - i,
    {
        assert(rows@.take(i + 1).drop_last() =~= rows@.take(i as int));
        let ghost before = views(out@);
        match rows[i].get("_id") {
            Some(v) => match v.as_str() {
                Some(s) => {
                    out.push(String::from_str(s));
                    assert(views(out@) =~= before.push(s@));
                },
                None => {},
            },
            None => {},
        }
        i = i + 1;
    }
    assert(rows@.take(rows@.len() as int) =~= rows@);
    out
}

/// The result of an INSERT: one row `{"_id": id}`, column `_id`, one row affected.
pub fn insert_result(id: String) -> (r: QueryResult)
    ensures
        r.rows@.len() == 1,
        r.rows@[0] matches JsonValue::Object(fields) && distinct_keys(fields@) && obj_map(fields@)
            == Map::<Seq<char>, JsonValue>::empty().insert("_id"@, JsonValue::Str(id)),
        views(r.columns@) == seq!["_id"@],
        r.rows_affected == 1,
{
    let row = JsonValue::single_field("_id", JsonValue::Str(id));
    let mut rows: Vec<JsonValue> = Vec::new();
    rows.push(row);
    let mut columns: Vec<String> = Vec::new();
    columns.push(String::from_str("_id"));
    assert(views(columns@) =~= seq!["_id"@]);
    QueryResult { rows, columns, rows_affected: 1 }
}

/// The result of an UPDATE or DELETE that affected `n` rows.
pub fn affected_result(n: usize) -> (r: QueryResult)
    ensures
        r.rows@.len() == 0,
        r.columns@.len() == 0,
        r.rows_affected == n,
{
    QueryResult { rows: Vec::new(), columns: Vec::new(), rows_affected: n }
}

/// The result of SHOW TABLES: one row `{"table_name": t}` per table, column `table_name`.
pub fn show_tables_result(tables: Vec<String>) -> (r: QueryResult)
    ensures
        r.rows@.len() == tables@.len(),
        forall|k: int|
            0 <= k < tables@.len() ==> (#[trigger] r.rows@[k] matches JsonValue::Object(fields) && distinct_keys(
                fields@,
            ) && obj_map(fields@) == Map::<Seq<char>, JsonValue>::empty().insert(
                "table_name"@,
                JsonValue::Str(tables@[k]),
            )),
        views(r.columns@) == seq!["table_name"@],
        r.rows_affected == 0,
{
    let ghost all = tables@;
    let mut rows: Vec<JsonValue> = Vec::new();
    for t in it: tables.into_iter()
        invariant
            it.seq() == all,
            rows@.len() == it.index(),
            forall|k: int|
                0 <= k < rows@.len() ==> (#[trigger] rows@[k] matches JsonValue::Object(fields)
                    && distinct_keys(fields@) && obj_map(fields@) == Map::<
                    Seq<char>,
                    JsonValue,
                >::empty().insert("table_name"@, JsonValue::Str(all[k]))),
    {
        assert(all[rows@.len() as int] == t);
        rows.push(JsonValue::single_field("table_name", JsonValue::Str(t)));
    }
    let mut columns: Vec<String> = Vec::new();
    columns.push(String::from_str("table_name"));
    assert(views(columns@) =~= seq!["table_name"@]);
    QueryResult { rows, columns, rows_affected: 0 }
}

// ---------------------------------------------------------------------------
// Statements
// ---------------------------------------------------------------------------

/// The end (exclusive) of the `{...}` object that starts a text, counting nesting of `{`
/// and `}` from position `i` with nesting `depth` before it; none if it never closes.
pub open spec fn brace_close(s: Seq<char>, i: int, depth: int) -> Option<int>
    decreases s.len() - i,
{
    if i < 0 || i >= s.len() {
        None
    } else {
        let d = depth + (if s[i] == '{' { 1int } else { 0int }) - (if s[i] == '}' {
            1int
        } else {
            0int
        });
        if d == 0 {
            Some(i + 1)
        } else {
            brace_close(s, i + 1, d)
        }
    }
}

/// The first position at or after `from` whose token is the keyword `k`.
pub open spec fn first_keyword(t: Seq<Seq<char>>, from: int, k: &str) -> Option<int>
    decreases t.len() - from,
{
    if from < 0 || from >= t.len() {
        None
    } else if kw(t[from], k) {
        Some(from)
    } else {
        first_keyword(t, from + 1, k)
    }
}

/// A WHERE clause as views.
pub type WhereView = (Seq<(Seq<char>, Seq<char>, Seq<char>)>, Seq<LogicOp>);

/// The WHERE clause of an UPDATE or DELETE whose `WHERE` keyword is at `w`.
pub open spec fn where_at(t: Seq<Seq<char>>, w: Option<int>) -> Option<WhereView> {
    match w {
        Some(p) => {
            let (cs, os, e) = where_spec(t, p + 1);
            Some((cs, os))
        },
        None => None,
    }
}

/// What a statement means once its text `r` and tokens `t` are known.
pub enum StatementView {
    Select(SelectView),
    /// Table and JSON text of an INSERT.
    Insert(Seq<char>, Seq<char>),
    /// Table, JSON text of the changes, and WHERE clause of an UPDATE.
    Update(Seq<char>, Seq<char>, Option<WhereView>),
    /// Table and WHERE clause of a DELETE.
    Delete(Seq<char>, Option<WhereView>),
    CreateTable(Seq<char>),
    DropTable(Seq<char>),
    ShowTables,
}

/// What an UPDATE means: table, the JSON text from the first `{` of the statement to its
/// matching `}` (nothing when it never closes), and the WHERE clause after `SET`.
pub open spec fn update_spec(t: Seq<Seq<char>>, r: Seq<char>) -> Result<StatementView, Seq<char>> {
    if t.len() < 3 {
        Err("Expected UPDATE <table> SET {json}"@)
    } else {
        match first_keyword(t, 0, "SET") {
            None => Err("Expected SET keyword"@),
            Some(set_pos) => match first_index_of(r, '{') {
                None => Err("Expected {updates} after SET"@),
                Some(b) => {
                    let sub = r.skip(b);
                    let end = match brace_close(sub, 0, 0) {
                        Some(e) => e,
                        None => 0,
                    };
                    Ok(
                        StatementView::Update(
                            t[1],
                            sub.take(end),
                            where_at(t, first_keyword(t, set_pos + 1, "WHERE")),
                        ),
                    )
                },
            },
        }
    }
}

/// What an INSERT means: the table and the text from the first `{` to the end.
pub open spec fn insert_spec(t: Seq<Seq<char>>, r: Seq<char>) -> Result<StatementView, Seq<char>> {
    if t.len() < 3 || !kw(t[1], "INTO") {
        Err("Expected INSERT INTO <table> {json}"@)
    } else {
        match first_index_of(r, '{') {
            None => Err("Expected JSON object after table name"@),
            Some(b) => Ok(StatementView::Insert(t[2], r.skip(b))),
        }
    }
}

/// What a DELETE means.
pub open spec fn delete_spec(t: Seq<Seq<char>>) -> Result<StatementView, Seq<char>> {
    if t.len() < 3 || !kw(t[1], "FROM") {
        Err("Expected DELETE FROM <table>"@)
    } else {
        Ok(
            StatementView::Delete(
                t[2],
                if 3 < t.len() && kw(t[3], "WHERE") {
                    where_at(t, Some(3))
                } else {
                    None
                },
            ),
        )
    }
}

/// What CREATE TABLE / DROP TABLE mean (`TB` may stand for `TABLE`).
pub open spec fn table_ddl_spec(t: Seq<Seq<char>>, create: bool) -> Result<StatementView, Seq<char>> {
    if t.len() < 3 {
        Err(if create { "Expected CREATE TABLE <name>"@ } else { "Expected DROP TABLE <name>"@ })
    } else if !kw(t[1], "TABLE") && !kw(t[1], "TB") {
        Err(if create { "Expected CREATE TABLE"@ } else { "Expected DROP TABLE"@ })
    } else if create {
        Ok(StatementView::CreateTable(t[2]))
    } else {
        Ok(StatementView::DropTable(t[2]))
    }
}

/// What SHOW TABLES means (`TABLE` and `TB` are accepted too).
pub open spec fn show_spec(t: Seq<Seq<char>>) -> Result<StatementView, Seq<char>> {
    if t.len() < 2 || (!kw(t[1], "TABLES") && !kw(t[1], "TABLE") && !kw(t[1], "TB")) {
        Err("Expected SHOW TABLES"@)
    } else {
        Ok(StatementView::ShowTables)
    }
}

/// The statement text that is parsed: surrounding whitespace and trailing `;` removed.
pub open spec fn clean_sql(s: Seq<char>) -> Seq<char> {
    trim_ws(trim_end_char(trim_ws(s), ';'))
}

/// What the SQL text `sql` means: nothing for an empty statement, the parsed statement,
/// or the message of the `InvalidQuery` error it is refused with.
pub open spec fn statement_spec(sql: Seq<char>) -> Result<Option<StatementView>, Seq<char>> {
    let r = clean_sql(sql);
    let t = lex(r);
    if r.len() == 0 || t.len() == 0 {
        Ok(None)
    } else {
        let first = uppercase_of(t[0]);
        let res = if first == "SELECT"@ {
            match select_spec(t) {
                Ok(v) => Ok(StatementView::Select(v)),
                Err(m) => Err(m),
            }
        } else if first == "INSERT"@ {
            insert_spec(t, r)
        } else if first == "UPDATE"@ {
            update_spec(t, r)
        } else if first == "DELETE"@ {
            delete_spec(t)
        } else if first == "CREATE"@ {
            table_ddl_spec(t, true)
        } else if first == "DROP"@ {
            table_ddl_spec(t, false)
        } else if first == "SHOW"@ {
            show_spec(t)
        } else {
            Err("Unsupported SQL command: "@ + first)
        };
        match res {
            Ok(v) => Ok(Some(v)),
            Err(m) => Err(m),
        }
    }
}

/// A parsed INSERT.
#[derive(Debug)]
pub struct InsertPlan {
    pub table: String,
    /// The JSON text of the document.
    pub json_text: String,
}

/// A parsed UPDATE.
#[derive(Debug)]
pub struct UpdatePlan {
    pub table: String,
    /// The JSON text of the changes.
    pub json_text: String,
    pub where_clause: Option<WhereClause>,
}

/// A parsed DELETE.
#[derive(Debug)]
pub struct DeletePlan {
    pub table: String,
    pub where_clause: Option<WhereClause>,
}

/// A parsed SQL statement.
#[derive(Debug)]
pub enum Statement {
    Select(SelectPlan),
    Insert(InsertPlan),
    Update(UpdatePlan),
    Delete(DeletePlan),
    CreateTable(String),
    DropTable(String),
    ShowTables,
}

/// A WHERE clause as views.
pub open spec fn where_view(w: Option<WhereClause>) -> Option<WhereView> {
    match w {
        Some(c) => Some((c.cond_views(), c.ops@)),
        None => None,
    }
}

impl Statement {
    /// This statement as views.
    pub open spec fn view(&self) -> StatementView {
        match self {
            Statement::Select(p) => StatementView::Select(p.view()),
            Statement::Insert(p) => StatementView::Insert(p.table@, p.json_text@),
            Statement::Update(p) => StatementView::Update(
                p.table@,
                p.json_text@,
                where_view(p.where_clause),
            ),
            Statement::Delete(p) => StatementView::Delete(p.table@, where_view(p.where_clause)),
            Statement::CreateTable(n) => StatementView::CreateTable(n@),
            Statement::DropTable(n) => StatementView::DropTable(n@),
            Statement::ShowTables => StatementView::ShowTables,
        }
    }
}

fn first_keyword_exec(tokens: &[String], from: usize, k: &str) -> (r: Option<usize>)
    requires
        from <= tokens@.len(),
    ensures
        r matches Some(i) ==> first_keyword(views(tokens@), from as int, k) == Some(i as int) && i
            < tokens@.len(),
        r is None ==> first_keyword(views(tokens@), from as int, k) is None,
{
    let ghost t = views(tokens@);
    let mut i = from;
    while i < tokens.len()
        invariant
            from <= i <= tokens@.len(),
            t == views(tokens@),
            first_keyword(t, i as int, k) == first_keyword(t, from as int, k),
        decreases tokens.len() - i,
    {
        assert(t[i as int] == tokens@[i as int]@);
        if keyword_is(tokens[i].as_str(), k) {
            return Some(i);
        }
        i = i + 1;
    }
    None
}

fn brace_end(sub: &Vec<char>) -> (r: usize)
    requires
        sub@.len() > 0,
        sub@[0] == '{',
    ensures
        r == match brace_close(sub@, 0, 0) {
            Some(e) => e,
            None => 0,
        },
{
    let n = sub.len();
    let mut depth: usize = 0;
    let mut i: usize = 0;
    while i < n
        invariant
            n == sub@.len(),
            sub@[0] == '{',
            i <= n,
            depth <= i,
            i == 0 ==> depth == 0,
            i > 0 ==> depth > 0,
            brace_close(sub@, i as int, depth as int) == brace_close(sub@, 0, 0),
        decreases n - i,
    {
        if sub[i] == '{' {
            depth = depth + 1;
        } else if sub[i] == '}' {
            depth = depth - 1;
        }
        if depth == 0 {
            return i + 1;
        }
        i = i + 1;
    }
    0
}

fn parse_update(tokens: &[String], r: &Vec<char>) -> (res: Result<UpdatePlan, SdkError>)
    ensures
        match update_spec(views(tokens@), r@) {
            Ok(v) => res matches Ok(p) && StatementView::Update(
                p.table@,
                p.json_text@,
                where_view(p.where_clause),
            ) == v,
            Err(m) => is_invalid_query(res, m),
        },
{
    let ghost t = views(tokens@);
    let n = tokens.len();
    if n < 3 {
        return Err(invalid_query("Expected UPDATE <table> SET {json}"));
    }
    let set_pos = match first_keyword_exec(tokens, 0, "SET") {
        Some(p) => p,
        None => return Err(invalid_query("Expected SET keyword")),
    };
    let b = match find_char(r, '{') {
        Some(b) => b,
        None => return Err(invalid_query("Expected {updates} after SET")),
    };
    let sub = slice_of(r, b, r.len());
    assert(sub@ =~= r@.skip(b as int));
    let end = brace_end(&sub);
    proof {
        lemma_brace_close_bound(sub@, 0, 0);
    }
    let json = slice_of(&sub, 0, end);
    assert(json@ =~= sub@.take(end as int));
    assert(t[1] == tokens@[1]@);
    let table = tokens[1].clone();
    let where_clause = match first_keyword_exec(tokens, set_pos + 1, "WHERE") {
        Some(w) => {
            let (c, _) = parse_where(tokens, w + 1);
            Some(c)
        },
        None => None,
    };
    Ok(UpdatePlan { table, json_text: string_of(&json), where_clause })
}

proof fn lemma_brace_close_bound(s: Seq<char>, i: int, depth: int)
    requires
        0 <= i,
    ensures
        brace_close(s, i, depth) matches Some(e) ==> i < e <= s.len(),
    decreases s.len() - i,
{
    if i < s.len() {
        let d = depth + (if s[i] == '{' { 1int } else { 0int }) - (if s[i] == '}' {
            1int
        } else {
            0int
        });
        if d != 0 {
            lemma_brace_close_bound(s, i + 1, d);
        }
    }
}

fn parse_table_ddl(tokens: &[String], create: bool) -> (res: Result<Statement, SdkError>)
    ensures
        match table_ddl_spec(views(tokens@), create) {
            Ok(v) => res matches Ok(st) && st.view() == v,
            Err(m) => is_invalid_query(res, m),
        },
{
    let ghost t = views(tokens@);
    if tokens.len() < 3 {
        return Err(
            invalid_query(
                if create {
                    "Expected CREATE TABLE <name>"
                } else {
                    "Expected DROP TABLE <name>"
                },
            ),
        );
    }
    assert(t[1] == tokens@[1]@);
    assert(t[2] == tokens@[2]@);
    if !keyword_is(tokens[1].as_str(), "TABLE") && !keyword_is(tokens[1].as_str(), "TB") {
        return Err(invalid_query(if create { "Expected CREATE TABLE" } else { "Expected DROP TABLE" }));
    }
    let name = tokens[2].clone();
    if create {
        Ok(Statement::CreateTable(name))
    } else {
        Ok(Statement::DropTable(name))
    }
}

/// Parses an SQL statement: surrounding whitespace and trailing `;` are dropped, the text
/// is tokenized, and the first keyword picks the statement: `Ok(None)` for an empty
/// statement, `Ok(Some(statement))`, or the `InvalidQuery` error that refuses it.
pub fn parse_statement(sql: &str) -> (res: Result<Option<Statement>, SdkError>)
    ensures
        match statement_spec(sql@) {
            Ok(None) => res matches Ok(None),
            Ok(Some(v)) => res matches Ok(Some(st)) && st.view() == v,
            Err(m) => is_invalid_query(res, m),
        },
{
    let v0 = chars_of(sql);
    let v1 = trim_whitespace(&v0);
    let v2 = trim_end_matching(&v1, ';');
    let v3 = trim_whitespace(&v2);
    let ghost r = v3@;
    assert(r == clean_sql(sql@));
    if v3.len() == 0 {
        return Ok(None);
    }
    let text = string_of(&v3);
    let tokens = tokenize(text.as_str());
    let ghost t = views(tokens@);
    assert(t == lex(r));
    if tokens.len() == 0 {
        return Ok(None);
    }
    assert(t[0] == tokens@[0]@);
    let first = to_upper(tokens[0].as_str());
    let fs = first.as_str();
    if str_eq(fs, "SELECT") {
        match parse_select(tokens.as_slice()) {
            Ok(p) => Ok(Some(Statement::Select(p))),
            Err(e) => Err(e),
        }
    } else if str_eq(fs, "INSERT") {
        if tokens.len() < 3 || !keyword_is(tokens[1].as_str(), "INTO") {
            return Err(invalid_query("Expected INSERT INTO <table> {json}"));
        }
        assert(t[1] == tokens@[1]@);
        assert(t[2] == tokens@[2]@);
        match find_char(&v3, '{') {
            None => Err(invalid_query("Expected JSON object after table name")),
            Some(b) => {
                let rest = slice_of(&v3, b, v3.len());
                assert(rest@ =~= r.skip(b as int));
                Ok(Some(Statement::Insert(InsertPlan { table: tokens[2].clone(), json_text: string_of(&rest) })))
            },
        }
    } else if str_eq(fs, "UPDATE") {
        match parse_update(tokens.as_slice(), &v3) {
            Ok(p) => Ok(Some(Statement::Update(p))),
            Err(e) => Err(e),
        }
    } else if str_eq(fs, "DELETE") {
        if tokens.len() < 3 || !keyword_is(tokens[1].as_str(), "FROM") {
            return Err(invalid_query("Expected DELETE FROM <table>"));
        }
        assert(t[1] == tokens@[1]@);
        assert(t[2] == tokens@[2]@);
        let table = tokens[2].clone();
        let mut where_clause: Option<WhereClause> = None;
        if 3 < tokens.len() {
            assert(t[3] == tokens@[3]@);
            if keyword_is(tokens[3].as_str(), "WHERE") {
                let (c, _) = parse_where(tokens.as_slice(), 4);
                where_clause = Some(c);
            }
        }
        Ok(Some(Statement::Delete(DeletePlan { table, where_clause })))
    } else if str_eq(fs, "CREATE") {
        match parse_table_ddl(tokens.as_slice(), true) {
            Ok(st) => Ok(Some(st)),
            Err(e) => Err(e),
        }
    } else if str_eq(fs, "DROP") {
        match parse_table_ddl(tokens.as_slice(), false) {
            Ok(st) => Ok(Some(st)),
            Err(e) => Err(e),
        }
    } else if str_eq(fs, "SHOW") {
        if tokens.len() < 2 {
            return Err(invalid_query("Expected SHOW TABLES"));
        }
        assert(t[1] == tokens@[1]@);
        if !keyword_is(tokens[1].as_str(), "TABLES") && !keyword_is(tokens[1].as_str(), "TABLE")
            && !keyword_is(tokens[1].as_str(), "TB") {
            return Err(invalid_query("Expected SHOW TABLES"));
        }
        Ok(Some(Statement::ShowTables))
    } else {
        let msg = concat_str("Unsupported SQL command: ", fs);
        Err(SdkError::InvalidQuery(msg))
    }
}

// ---------------------------------------------------------------------------
// Laws
// ---------------------------------------------------------------------------

proof fn lemma_fold_and(truth: Seq<bool>, ops: Seq<LogicOp>, i: int, acc: bool)
    requires
        0 <= i <= ops.len(),
        truth.len() <= ops.len() + 1,
        forall|k: int| 0 <= k < ops.len() ==> ops[k] == LogicOp::And,
    ensures
        fold_where(truth, ops, i, acc) == (acc && forall|k: int| i < k < truth.len() ==> truth[k]),
    decreases ops.len() - i,
{
    if i < ops.len() {
        let next = if i + 1 < truth.len() { acc && truth[i + 1] } else { acc };
        lemma_fold_and(truth, ops, i + 1, next);
        if acc && forall|k: int| i < k < truth.len() ==> truth[k] {
        } else if acc {
            let k = choose|k: int| i < k < truth.len() && !truth[k];
            if k == i + 1 {
            } else {
                assert(i + 1 < k);
            }
        }
    }
}

proof fn lemma_fold_or(truth: Seq<bool>, ops: Seq<LogicOp>, i: int, acc: bool)
    requires
        0 <= i <= ops.len(),
        truth.len() <= ops.len() + 1,
        forall|k: int| 0 <= k < ops.len() ==> ops[k] == LogicOp::Or,
    ensures
        fold_where(truth, ops, i, acc) == (acc || exists|k: int| i < k < truth.len() && truth[k]),
    decreases ops.len() - i,
{
    if i < ops.len() {
        let next = if i + 1 < truth.len() { acc || truth[i + 1] } else { acc };
        lemma_fold_or(truth, ops, i + 1, next);
        if exists|k: int| i < k < truth.len() && truth[k] {
            let k = choose|k: int| i < k < truth.len() && truth[k];
            if k == i + 1 {
            } else {
                assert(i + 1 < k && truth[k]);
            }
        }
    }
}

/// A clause whose conditions are all joined by `AND` holds exactly when every
/// condition holds.
pub proof fn law_and_clause(truth: Seq<bool>, ops: Seq<LogicOp>)
    requires
        truth.len() <= ops.len() + 1,
        forall|k: int| 0 <= k < ops.len() ==> ops[k] == LogicOp::And,
    ensures
        where_holds(truth, ops) == forall|k: int| 0 <= k < truth.len() ==> truth[k],
{
    if truth.len() > 0 {
        lemma_fold_and(truth, ops, 0, truth[0]);
        if !(forall|k: int| 0 <= k < truth.len() ==> truth[k]) {
            let k = choose|k: int| 0 <= k < truth.len() && !truth[k];
            if k > 0 {
                assert(0 < k < truth.len() && !truth[k]);
            }
        }
    }
}

/// A clause whose conditions are all joined by `OR` holds exactly when some condition
/// holds (a clause without conditions lets every row through).
pub proof fn law_or_clause(truth: Seq<bool>, ops: Seq<LogicOp>)
    requires
        truth.len() > 0,
        truth.len() <= ops.len() + 1,
        forall|k: int| 0 <= k < ops.len() ==> ops[k] == LogicOp::Or,
    ensures
        where_holds(truth, ops) == exists|k: int| 0 <= k < truth.len() && truth[k],
{
    lemma_fold_or(truth, ops, 0, truth[0]);
    if exists|k: int| 0 <= k < truth.len() && truth[k] {
        let k = choose|k: int| 0 <= k < truth.len() && truth[k];
        if k > 0 {
            assert(0 < k < truth.len() && truth[k]);
        }
    }
}

proof fn lemma_keep_all(rows: Seq<JsonValue>, keep: Seq<bool>)
    requires
        keep.len() == rows.len(),
        forall|k: int| 0 <= k < keep.len() ==> keep[k],
    ensures
        keep_rows(rows, keep) == rows,
    decreases rows.len(),
{
    if rows.len() > 0 {
        lemma_keep_all(rows.drop_last(), keep.drop_last());
        assert(keep.last());
        assert(rows.drop_last().push(rows.last()) =~= rows);
    }
}

/// Filtering keeps rows of the input, in their order, and never more of them.
pub proof fn law_filter_keeps_input_rows(rows: Seq<JsonValue>, keep: Seq<bool>)
    ensures
        keep_rows(rows, keep).len() <= rows.len(),
        forall|k: int| 0 <= k < keep_rows(rows, keep).len() ==> rows.contains(#[trigger] keep_rows(rows, keep)[k]),
    decreases rows.len(),
{
    if rows.len() > 0 && keep.len() > 0 {
        let rest = keep_rows(rows.drop_last(), keep.drop_last());
        law_filter_keeps_input_rows(rows.drop_last(), keep.drop_last());
        assert forall|k: int| 0 <= k < keep_rows(rows, keep).len() implies rows.contains(#[trigger] keep_rows(rows, keep)[k]) by {
            if k < rest.len() {
                let x = rest[k];
                assert(rows.drop_last().contains(x));
                let j = choose|j: int| 0 <= j < rows.drop_last().len() && rows.drop_last()[j] == x;
                assert(rows[j] == x);
            } else {
                assert(rows[rows.len() - 1] == rows.last());
            }
        }
    }
}

/// A WHERE clause without conditions lets every row through.
pub proof fn law_no_conditions_keep_all(rows: Seq<JsonValue>, truth: Seq<Vec<bool>>, ops: Seq<LogicOp>)
    requires
        truth.len() == rows.len(),
        forall|k: int| 0 <= k < truth.len() ==> (#[trigger] truth[k])@.len() == 0,
    ensures
        keep_rows(rows, pass_mask(truth, ops)) == rows,
{
    let mask = pass_mask(truth, ops);
    assert forall|k: int| 0 <= k < mask.len() implies mask[k] by {
        assert(truth[k]@.len() == 0);
    }
    lemma_keep_all(rows, mask);
}

/// OFFSET and LIMIT cut one contiguous stretch of rows: at most `limit` rows, starting at
/// row `offset`; none when the offset is past the last row; all rows without either.
pub proof fn law_window(rows: Seq<JsonValue>, offset: usize, limit: Option<usize>)
    ensures
        window(rows, offset, limit).len() <= rows.len(),
        limit matches Some(l) ==> window(rows, offset, limit).len() <= l,
        offset >= rows.len() ==> window(rows, offset, limit).len() == 0,
        forall|k: int| 0 <= k < window(rows, offset, limit).len() ==> #[trigger] window(rows, offset, limit)[k] == rows[offset + k],
        window(rows, 0, None) == rows,
{
    assert(rows.skip(0) =~= rows);
}

/// The names a projection on `columns` keeps.
pub open spec fn selected_names(columns: Seq<Seq<char>>) -> Set<Seq<char>> {
    columns.map_values(|c: Seq<char>| column_name(c)).to_set()
}

/// The fields of `f` a projection on `columns` keeps.
pub open spec fn kept_fields(f: Seq<(String, JsonValue)>, columns: Seq<Seq<char>>) -> Seq<(String, JsonValue)> {
    f.filter(|x: (String, JsonValue)| field_selected(x, columns))
}

proof fn lemma_filter_fields(f: Seq<(String, JsonValue)>, columns: Seq<Seq<char>>)
    ensures
        distinct_keys(f) ==> distinct_keys(kept_fields(f, columns)),
        forall|k: Seq<char>| #[trigger] has_key(kept_fields(f, columns), k)
            == (has_key(f, k) && selected_names(columns).contains(k)),
        forall|j: int| 0 <= j < kept_fields(f, columns).len()
            ==> f.contains(#[trigger] kept_fields(f, columns)[j]),
    decreases f.len(),
{
    let pred = |x: (String, JsonValue)| field_selected(x, columns);
    let names = columns.map_values(|c: Seq<char>| column_name(c));
    reveal_with_fuel(Seq::<_>::filter, 1);
    if f.len() > 0 {
        let g = f.drop_last();
        let kg = kept_fields(g, columns);
        let kept = kept_fields(f, columns);
        lemma_filter_fields(g, columns);
        assert(forall|j: int| 0 <= j < g.len() ==> f[j] == g[j]);
        assert forall|j: int| 0 <= j < kept.len() implies f.contains(#[trigger] kept[j]) by {
            if j < kg.len() {
                let x = kg[j];
                assert(g.contains(x));
                let i = choose|i: int| 0 <= i < g.len() && g[i] == x;
                assert(f[i] == x);
            } else {
                assert(f[f.len() - 1] == f.last());
            }
        }
        assert forall|k: Seq<char>| #[trigger] has_key(kept, k) == (has_key(f, k) && selected_names(columns).contains(k)) by {
            if has_key(kept, k) {
                let j = choose|j: int| 0 <= j < kept.len() && kept[j].0@ == k;
                assert(f.contains(kept[j]));
                let i = choose|i: int| 0 <= i < f.len() && f[i] == kept[j];
                assert(f[i].0@ == k);
                if j < kg.len() {
                    assert(has_key(kg, k));
                } else {
                    assert(pred(f.last()));
                    assert(names.contains(k));
                    assert(names.to_set().contains(k));
                }
            }
            if has_key(f, k) && selected_names(columns).contains(k) {
                let i = choose|i: int| 0 <= i < f.len() && f[i].0@ == k;
                assert(names.contains(k));
                if i < g.len() {
                    assert(g[i].0@ == k);
                    assert(has_key(g, k));
                    assert(has_key(kg, k));
                    let j = choose|j: int| 0 <= j < kg.len() && kg[j].0@ == k;
                    assert(kept[j].0@ == k);
                } else {
                    assert(pred(f.last()));
                    assert(kept[kept.len() - 1] == f.last());
                }
            }
        }
        if distinct_keys(f) {
            assert(distinct_keys(g));
            assert forall|a: int, b: int|
                0 <= a < kept.len() && 0 <= b < kept.len() && a != b implies kept[a].0@ != kept[b].0@ by {
                if a < kg.len() && b < kg.len() {
                } else if a < kg.len() || b < kg.len() {
                    let c = if a < kg.len() { a } else { b };
                    let x = kg[c];
                    assert(g.contains(x));
                    let i = choose|i: int| 0 <= i < g.len() && g[i] == x;
                    assert(f[i] == x);
                    assert(kept[kept.len() - 1] == f.last());
                    assert(i != f.len() - 1);
                }
            }
        }
    }
}

proof fn lemma_distinct_key_index(f: Seq<(String, JsonValue)>, i: int)
    requires
        distinct_keys(f),
        0 <= i < f.len(),
    ensures
        has_key(f, f[i].0@),
        key_index(f, f[i].0@) == i,
{
    let w = key_index(f, f[i].0@);
    assert(0 <= w < f.len() && f[w].0@ == f[i].0@);
}

/// Projecting an object keeps exactly the fields the columns name, with their values: as
/// a map, the row restricted to the column names.
pub proof fn law_projection_restricts(out: JsonValue, row: JsonValue, columns: Seq<Seq<char>>)
    requires
        row matches JsonValue::Object(fields) && distinct_keys(fields@),
        projected(out, row, columns),
    ensures
        out matches JsonValue::Object(kept) && distinct_keys(kept@)
            && obj_map(kept@) == obj_map(row->Object_0@).restrict(selected_names(columns)),
{
    let f = row->Object_0@;
    let kept = out->Object_0@;
    let pred = |x: (String, JsonValue)| field_selected(x, columns);
    assert(kept == kept_fields(f, columns));
    lemma_filter_fields(f, columns);
    let m = obj_map(kept);
    let r = obj_map(f).restrict(selected_names(columns));
    assert forall|k: Seq<char>| #[trigger] m.dom().contains(k) implies m[k] == r[k] by {
        let j = key_index(kept, k);
        assert(0 <= j < kept.len() && kept[j].0@ == k);
        assert(f.contains(kept[j]));
        let i = choose|i: int| 0 <= i < f.len() && f[i] == kept[j];
        lemma_distinct_key_index(f, i);
    }
    assert(m.dom() =~= r.dom());
    assert(m =~= r);
}

/// Whitespace around a statement changes neither what it means nor whether it is refused.
pub proof fn law_statement_ignores_surrounding_whitespace(w1: Seq<char>, s: Seq<char>, w2: Seq<char>)
    requires
        all_ws(w1),
        all_ws(w2),
    ensures
        statement_spec(w1 + s + w2) == statement_spec(s),
{
    lemma_trim_ws_surrounding(w1, s, w2);
}

/// In `ORDER BY col [dir]`, the sort is descending exactly when a `DESC` keyword follows
/// the column: `ASC`, or no direction, sorts ascending; an `ASC` is consumed.
pub proof fn law_order_direction(t: Seq<Seq<char>>, q: int)
    requires
        0 <= q,
        q + 2 < t.len(),
        kw(t[q], "ORDER"),
        kw(t[q + 1], "BY"),
    ensures
        order_spec(t, q).0 matches Some((c, d)) && c == column_name(t[q + 2])
            && d == (q + 3 < t.len() && kw(t[q + 3], "DESC")),
        q + 3 < t.len() && kw(t[q + 3], "ASC") ==> order_spec(t, q) == (
            Some((column_name(t[q + 2]), false)),
            q + 4,
        ),
{
    reveal_strlit("ASC");
    reveal_strlit("DESC");
    assert("ASC"@.len() != "DESC"@.len());
}

/// A SELECT sorts in descending order only when its text holds a `DESC` keyword.
pub proof fn law_descending_needs_desc(sql: Seq<char>)
    ensures
        statement_spec(sql) matches Ok(Some(StatementView::Select(v))) && v.order_by matches Some((
            c,
            d,
        )) && d ==> exists|j: int|
            0 <= j < lex(clean_sql(sql)).len() && kw(#[trigger] lex(clean_sql(sql))[j], "DESC"),
{
    let t = lex(clean_sql(sql));
    if let Ok(Some(StatementView::Select(v))) = statement_spec(sql) {
        if let Some((c, d)) = v.order_by {
            if d {
                reveal_strlit("SELECT");
                let r = clean_sql(sql);
                assert(r.len() > 0 && t.len() > 0);
                let first = uppercase_of(t[0]);
                lemma_keywords_distinct();
                assert(first == "SELECT"@);
                let (cols, aggs, p) = select_items(t, 1);
                let q = p + 2;
                let (wc, q2) = if q < t.len() && kw(t[q], "WHERE") {
                    let (cs, os, e) = where_spec(t, q + 1);
                    (Some((cs, os)), e)
                } else {
                    (None, q)
                };
                assert(v.order_by == order_spec(t, q2).0);
                let q1 = q2 + 1;
                let q3 = if q1 < t.len() && kw(t[q1], "BY") { q1 + 1 } else { q1 } + 1;
                assert(0 <= q3 < t.len() && kw(t[q3], "DESC"));
            }
        }
    }
}

/// The leading keywords of the statements are distinct texts.
proof fn lemma_keywords_distinct()
    ensures
        "SELECT"@ != "INSERT"@,
        "SELECT"@ != "UPDATE"@,
        "SELECT"@ != "DELETE"@,
        "SELECT"@ != "CREATE"@,
        "SELECT"@ != "DROP"@,
        "SELECT"@ != "SHOW"@,
{
    reveal_strlit("SELECT");
    reveal_strlit("INSERT");
    reveal_strlit("UPDATE");
    reveal_strlit("DELETE");
    reveal_strlit("CREATE");
    reveal_strlit("DROP");
    reveal_strlit("SHOW");
    assert("SELECT"@[0] != "INSERT"@[0]);
    assert("SELECT"@[0] != "UPDATE"@[0]);
    assert("SELECT"@[0] != "DELETE"@[0]);
    assert("SELECT"@[0] != "CREATE"@[0]);
    assert("SELECT"@.len() != "DROP"@.len());
    assert("SELECT"@.len() != "SHOW"@.len());
}

/// OFFSET and LIMIT keep exactly min(limit, rows left after the offset) rows: every
/// row after the offset when there is no limit or the limit is not smaller.
pub proof fn law_window_size(rows: Seq<JsonValue>, offset: usize, limit: Option<usize>)
    ensures
        window(rows, offset, limit).len() == match limit {
            None => if offset < rows.len() { rows.len() - offset } else { 0int },
            Some(l) => if offset >= rows.len() {
                0int
            } else if l >= rows.len() - offset {
                rows.len() - offset
            } else {
                l as int
            },
        },
{
}

/// Each of COUNT, SUM, AVG, MIN and MAX (in any case) followed by `( arg` is read as that
/// aggregate over `arg`, consuming the call and its `)`; in a SELECT list it becomes an
/// aggregate, not a column.
pub proof fn law_aggregate_call(t: Seq<Seq<char>>, pos: int)
    requires
        0 <= pos,
        pos + 2 < t.len(),
        t[pos + 1] == "("@,
        ({
            let u = uppercase_of(t[pos]);
            u == "COUNT"@ || u == "SUM"@ || u == "AVG"@ || u == "MIN"@ || u == "MAX"@
        }),
    ensures
        ({
            let p = if pos + 3 < t.len() && t[pos + 3] == ")"@ { pos + 4 } else { pos + 3 };
            &&& aggregate_at(t, pos) == AggregateScan::Found(uppercase_of(t[pos]), t[pos + 2], p)
            &&& t[pos] != ","@ ==> select_items(t, pos) == (
                select_items(t, p).0,
                seq![(uppercase_of(t[pos]), t[pos + 2])] + select_items(t, p).1,
                select_items(t, p).2,
            )
        }),
{
    reveal_strlit("COUNT");
    reveal_strlit("SUM");
    reveal_strlit("AVG");
    reveal_strlit("MIN");
    reveal_strlit("MAX");
    reveal_strlit("FROM");
    assert("FROM"@ != "COUNT"@ && "FROM"@ != "SUM"@ && "FROM"@ != "AVG"@ && "FROM"@ != "MIN"@
        && "FROM"@ != "MAX"@) by {
        assert("FROM"@[0] != "COUNT"@[0]);
        assert("FROM"@.len() != "SUM"@.len());
        assert("FROM"@.len() != "AVG"@.len());
        assert("FROM"@.len() != "MIN"@.len());
        assert("FROM"@.len() != "MAX"@.len());
    }
}

/// Whether a present field meets the condition `(column, op, value)`.
pub open spec fn meets(
    f: JsonValue,
    column: Seq<char>,
    op: Seq<char>,
    value: Seq<char>,
    value_is_number: bool,
    numbers: Option<NumberComparison>,
    field_text: Seq<char>,
) -> bool {
    condition_spec(Some(f), (column, op, value), value_is_number, numbers, field_text)
}

proof fn lemma_operators_distinct()
    ensures
        ({
            let ops = seq!["="@, "=="@, "!="@, "<>"@, ">"@, "<"@, ">="@, "<="@];
            forall|i: int, j: int| 0 <= i < j < 8 ==> ops[i] != ops[j]
        }),
{
    reveal_strlit("=");
    reveal_strlit("==");
    reveal_strlit("!=");
    reveal_strlit("<>");
    reveal_strlit(">");
    reveal_strlit("<");
    reveal_strlit(">=");
    reveal_strlit("<=");
    let ops = seq!["="@, "=="@, "!="@, "<>"@, ">"@, "<"@, ">="@, "<="@];
    assert forall|i: int, j: int| 0 <= i < j < 8 implies ops[i] != ops[j] by {
        if ops[i].len() == ops[j].len() {
            if ops[i][0] == ops[j][0] {
                assert(ops[i][1] != ops[j][1]);
            } else {
                assert(ops[i][0] != ops[j][0]);
            }
        }
    }
}

/// How the comparison operators of a WHERE condition relate, over every field, value and
/// number comparison: a missing field meets no condition; `>=` holds exactly when `<`
/// does not and `<=` exactly when `>` does not (so values that compare equal meet both);
/// where the value and the field are numbers, each operator follows the numbers' order
/// and nearness; for a string field and a non-numeric value, the ordering operators
/// follow the texts' order.
pub proof fn law_condition_operators(
    f: JsonValue,
    column: Seq<char>,
    value: Seq<char>,
    value_is_number: bool,
    numbers: Option<NumberComparison>,
    field_text: Seq<char>,
)
    ensures
        forall|op: Seq<char>|
            !#[trigger] condition_spec(None, (column, op, value), value_is_number, numbers, field_text),
        meets(f, column, ">="@, value, value_is_number, numbers, field_text)
            == !meets(f, column, "<"@, value, value_is_number, numbers, field_text),
        meets(f, column, "<="@, value, value_is_number, numbers, field_text)
            == !meets(f, column, ">"@, value, value_is_number, numbers, field_text),
        value_is_number ==> (numbers matches Some(n) ==> {
            &&& meets(f, column, ">"@, value, value_is_number, numbers, field_text) == (n.order > 0)
            &&& meets(f, column, "<"@, value, value_is_number, numbers, field_text) == (n.order < 0)
            &&& meets(f, column, ">="@, value, value_is_number, numbers, field_text) == (n.order >= 0)
            &&& meets(f, column, "<="@, value, value_is_number, numbers, field_text) == (n.order <= 0)
            &&& meets(f, column, "="@, value, value_is_number, numbers, field_text) == n.near
            &&& meets(f, column, "=="@, value, value_is_number, numbers, field_text) == n.near
            &&& meets(f, column, "!="@, value, value_is_number, numbers, field_text) == !n.near
            &&& meets(f, column, "<>"@, value, value_is_number, numbers, field_text) == !n.near
        }),
        !value_is_number ==> (f matches JsonValue::Str(s) ==> {
            let clean = trim_char(trim_char(value, '\''), '"');
            &&& meets(f, column, ">"@, value, value_is_number, numbers, field_text) == (text_order(s@, clean) > 0)
            &&& meets(f, column, "<"@, value, value_is_number, numbers, field_text) == (text_order(s@, clean) < 0)
            &&& meets(f, column, "!="@, value, value_is_number, numbers, field_text) == (s@ != clean)
        }),
{
    lemma_operators_distinct();
    let ops = seq!["="@, "=="@, "!="@, "<>"@, ">"@, "<"@, ">="@, "<="@];
    assert(ops[0] == "="@ && ops[1] == "=="@ && ops[2] == "!="@ && ops[3] == "<>"@);
    assert(ops[4] == ">"@ && ops[5] == "<"@ && ops[6] == ">="@ && ops[7] == "<="@);
}

/// `keep_rows(rows, keep)` is the subsequence of `rows` at the increasing positions
/// `idx`, which are exactly the positions whose `keep` entry is true.
proof fn lemma_keep_rows_positions(rows: Seq<JsonValue>, keep: Seq<bool>) -> (idx: Seq<int>)
    requires
        keep.len() == rows.len(),
    ensures
        idx.len() == keep_rows(rows, keep).len(),
        forall|j: int| 0 <= j < idx.len() ==> 0 <= #[trigger] idx[j] < rows.len() && keep[idx[j]]
            && keep_rows(rows, keep)[j] == rows[idx[j]],
        forall|j: int, k: int| 0 <= j < k < idx.len() ==> idx[j] < idx[k],
        forall|i: int| 0 <= i < rows.len() && keep[i] ==> idx.contains(i),
    decreases rows.len(),
{
    if rows.len() == 0 {
        seq![]
    } else {
        let last = rows.len() - 1;
        let prev = lemma_keep_rows_positions(rows.drop_last(), keep.drop_last());
        let rest = keep_rows(rows.drop_last(), keep.drop_last());
        let res = if keep.last() { prev.push(last) } else { prev };
        assert forall|i: int| 0 <= i < rows.len() && keep[i] implies res.contains(i) by {
            if i < last {
                assert(keep.drop_last()[i]);
                let w = choose|w: int| 0 <= w < prev.len() && prev[w] == i;
                assert(res[w] == i);
            } else {
                assert(res[prev.len() as int] == i);
            }
        }
        res
    }
}

/// Filtering by a WHERE clause keeps exactly the rows that pass it, in their order: the
/// result is the rows at increasing positions `idx`, every row at such a position passes
/// (so when none passes the result is empty), and every passing row is among them.
pub proof fn law_filter_exact(rows: Seq<JsonValue>, truth: Seq<Vec<bool>>, ops: Seq<LogicOp>) -> (idx: Seq<int>)
    requires
        truth.len() == rows.len(),
    ensures
        idx.len() == keep_rows(rows, pass_mask(truth, ops)).len(),
        forall|j: int| 0 <= j < idx.len() ==> 0 <= #[trigger] idx[j] < rows.len()
            && where_holds(truth[idx[j]]@, ops)
            && keep_rows(rows, pass_mask(truth, ops))[j] == rows[idx[j]],
        forall|j: int, k: int| 0 <= j < k < idx.len() ==> idx[j] < idx[k],
        forall|i: int| 0 <= i < rows.len() && where_holds(#[trigger] truth[i]@, ops) ==> idx.contains(i),
        (forall|i: int| 0 <= i < rows.len() ==> !where_holds(#[trigger] truth[i]@, ops))
            ==> keep_rows(rows, pass_mask(truth, ops)).len() == 0,
{
    let mask = pass_mask(truth, ops);
    let idx = lemma_keep_rows_positions(rows, mask);
    assert forall|i: int| 0 <= i < rows.len() && where_holds(#[trigger] truth[i]@, ops) implies idx.contains(i) by {
        assert(mask[i]);
    }
    if forall|i: int| 0 <= i < rows.len() ==> !where_holds(#[trigger] truth[i]@, ops) {
        if idx.len() > 0 {
            assert(mask[idx[0]]);
            assert(!where_holds(truth[idx[0]]@, ops));
        }
    }
    idx
}

proof fn lemma_clause_keywords_distinct()
    ensures
        "ORDER"@ != "WHERE"@,
        "FROM"@ != "SELECT"@,
        "SELECT"@ != "COUNT"@ && "SELECT"@ != "SUM"@ && "SELECT"@ != "AVG"@ && "SELECT"@ != "MIN"@
            && "SELECT"@ != "MAX"@,
        "FROM"@ != "COUNT"@ && "FROM"@ != "SUM"@ && "FROM"@ != "AVG"@ && "FROM"@ != "MIN"@
            && "FROM"@ != "MAX"@,
{
    reveal_strlit("ORDER");
    reveal_strlit("WHERE");
    reveal_strlit("FROM");
    reveal_strlit("SELECT");
    reveal_strlit("COUNT");
    reveal_strlit("SUM");
    reveal_strlit("AVG");
    reveal_strlit("MIN");
    reveal_strlit("MAX");
    assert("ORDER"@[0] != "WHERE"@[0]);
    assert("FROM"@.len() != "SELECT"@.len());
    assert("SELECT"@.len() != "COUNT"@.len());
    assert("SELECT"@.len() != "SUM"@.len());
    assert("SELECT"@.len() != "AVG"@.len());
    assert("SELECT"@.len() != "MIN"@.len());
    assert("SELECT"@.len() != "MAX"@.len());
    assert("FROM"@[0] != "COUNT"@[0]);
    assert("FROM"@.len() != "SUM"@.len());
    assert("FROM"@.len() != "AVG"@.len());
    assert("FROM"@.len() != "MIN"@.len());
    assert("FROM"@.len() != "MAX"@.len());
}

/// `SELECT col FROM tbl ORDER BY c [dir]` selects `col` from `tbl` sorted by `c`, in
/// descending order exactly when `dir` is a `DESC` keyword: with `ASC`, or with no
/// direction, the order is ascending.
pub proof fn law_select_order_by(sql: Seq<char>)
    requires
        ({
            let t = lex(clean_sql(sql));
            &&& 7 <= t.len() <= 8
            &&& kw(t[0], "SELECT")
            &&& t[1] != ","@ && !kw(t[1], "FROM") && !is_aggregate_name(uppercase_of(t[1]))
            &&& kw(t[2], "FROM")
            &&& kw(t[4], "ORDER") && kw(t[5], "BY")
        }),
    ensures
        ({
            let t = lex(clean_sql(sql));
            statement_spec(sql) matches Ok(Some(StatementView::Select(v))) && v.table == t[3]
                && v.columns == seq![column_name(t[1])] && v.aggregates.len() == 0
                && v.order_by == Some((column_name(t[6]), t.len() == 8 && kw(t[7], "DESC")))
        }),
{
    let t = lex(clean_sql(sql));
    lemma_clause_keywords_distinct();
    lemma_keywords_distinct();
    if clean_sql(sql).len() == 0 {
        assert(lex(clean_sql(sql)).len() == 0);
    }
    assert(select_items(t, 2) == (Seq::<Seq<char>>::empty(), Seq::<(Seq<char>, Seq<char>)>::empty(), 2int));
    assert(aggregate_at(t, 1) == AggregateScan::NotAggregate);
    assert(select_items(t, 1).0 =~= seq![column_name(t[1])]);
    law_order_direction(t, 4);
}

/// `SELECT F ( a ) FROM tbl`, for F one of COUNT, SUM, AVG, MIN and MAX in any case,
/// asks for the one aggregate (F upper-cased, a) over `tbl` and selects no column.
pub proof fn law_select_aggregate(sql: Seq<char>)
    requires
        ({
            let t = lex(clean_sql(sql));
            let u = uppercase_of(t[1]);
            &&& t.len() == 7
            &&& kw(t[0], "SELECT")
            &&& t[1] != ","@
            &&& u == "COUNT"@ || u == "SUM"@ || u == "AVG"@ || u == "MIN"@ || u == "MAX"@
            &&& t[2] == "("@ && t[4] == ")"@
            &&& kw(t[5], "FROM")
        }),
    ensures
        ({
            let t = lex(clean_sql(sql));
            statement_spec(sql) matches Ok(Some(StatementView::Select(v))) && v.table == t[6]
                && v.aggregates == seq![(uppercase_of(t[1]), t[3])] && v.columns.len() == 0
        }),
{
    let t = lex(clean_sql(sql));
    lemma_clause_keywords_distinct();
    lemma_keywords_distinct();
    if clean_sql(sql).len() == 0 {
        assert(lex(clean_sql(sql)).len() == 0);
    }
    law_aggregate_call(t, 1);
    assert(select_items(t, 5) == (Seq::<Seq<char>>::empty(), Seq::<(Seq<char>, Seq<char>)>::empty(), 5int));
    assert(select_items(t, 1).1 =~= seq![(uppercase_of(t[1]), t[3])]);
}

} // verus!
