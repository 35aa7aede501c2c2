//! Binding user-supplied parameters into SQL templates.
//!
//! Each `?` placeholder of a template is replaced, in order, by the next parameter,
//! quoted with `'` and with every `'` inside it doubled. Parameters that contain a
//! dangerous SQL token are refused.

use vstd::prelude::*;
use crate::result::{SdkError, concat_str};
use crate::text::{
    chars_of, contains_chars, contains_seq, count_char, count_chars, decimal, string_of,
    to_upper, uppercase_of, usize_to_text,
};

verus! {

/// The tokens that mark a parameter as an injection attempt, in the order they are tried.
pub open spec fn dangerous_tokens() -> Seq<Seq<char>> {
    seq![
        "DROP"@,
        "TRUNCATE"@,
        "ALTER"@,
        "EXEC"@,
        "EXECUTE"@,
        "--"@,
        ";--"@,
        "/*"@,
        "*/"@,
        "xp_"@,
        "UNION"@,
        "DELETE"@,
        ";"@,
    ]
}

/// The first dangerous token (from position `i` of the list on) that occurs in `u`.
pub open spec fn first_danger_from(u: Seq<char>, i: int) -> Option<Seq<char>>
    decreases dangerous_tokens().len() - i,
{
    if i < 0 || i >= dangerous_tokens().len() {
        None
    } else if contains_seq(u, dangerous_tokens()[i]) {
        Some(dangerous_tokens()[i])
    } else {
        first_danger_from(u, i + 1)
    }
}

/// The first dangerous token found in the upper-case form of parameter `p`, if any.
pub open spec fn danger_in(p: Seq<char>) -> Option<Seq<char>> {
    first_danger_from(uppercase_of(p), 0)
}

/// The first parameter (from position `i` on) that holds a dangerous token, and that token.
pub open spec fn first_bad_param(params: Seq<Seq<char>>, i: int) -> Option<(Seq<char>, Seq<char>)>
    decreases params.len() - i,
{
    if i < 0 || i >= params.len() {
        None
    } else {
        match danger_in(params[i]) {
            Some(d) => Some((params[i], d)),
            None => first_bad_param(params, i + 1),
        }
    }
}

/// `p` with every `'` doubled (SQL string escaping).
pub open spec fn escape(p: Seq<char>) -> Seq<char>
    decreases p.len(),
{
    if p.len() == 0 {
        seq![]
    } else {
        escape(p.drop_last()) + if p.last() == '\'' {
            seq!['\'', '\'']
        } else {
            seq![p.last()]
        }
    }
}

/// A parameter as it is written into the query: `'` + escaped text + `'`.
pub open spec fn quoted(p: Seq<char>) -> Seq<char> {
    seq!['\''] + escape(p) + seq!['\'']
}

/// The template `t` with its `?` placeholders replaced, in order, by the values: the
/// i-th placeholder of the template by the i-th value, and text inside a value never
/// taken for a placeholder. Placeholders left over stay as they are; none when there are
/// more values than placeholders.
pub open spec fn substitute(t: Seq<char>, vals: Seq<Seq<char>>) -> Option<Seq<char>>
    decreases t.len(),
{
    if t.len() == 0 {
        if vals.len() == 0 {
            Some(seq![])
        } else {
            None
        }
    } else if t[0] == '?' && vals.len() > 0 {
        prepend(vals[0], substitute(t.skip(1), vals.drop_first()))
    } else {
        prepend(seq![t[0]], substitute(t.skip(1), vals))
    }
}

/// `head` followed by the text in `o`, if there is one.
pub open spec fn prepend(head: Seq<char>, o: Option<Seq<char>>) -> Option<Seq<char>> {
    match o {
        Some(r) => Some(head + r),
        None => None,
    }
}

/// The message for a refused parameter.
pub open spec fn injection_message(p: Seq<char>, d: Seq<char>) -> Seq<char> {
    "SQL injection detected in parameter: '"@ + p + "' contains forbidden token '"@ + d + "'"@
}

/// The message for a template with too few placeholders.
pub open spec fn too_many_params_message() -> Seq<char> {
    "More params than '?' placeholders in SQL template"@
}

/// The message for a template with more placeholders than parameters.
pub open spec fn too_few_params_message(placeholders: nat, params: nat) -> Seq<char> {
    "SQL template has "@ + decimal(placeholders) + " '?' placeholders but only "@ + decimal(
        params,
    ) + " params were provided"@
}

/// What binding `params` into `template` gives: the query text, or the message of the
/// `SecurityError` it is refused with.
pub open spec fn bind_spec(template: Seq<char>, params: Seq<Seq<char>>) -> Result<Seq<char>, Seq<char>> {
    match first_bad_param(params, 0) {
        Some((p, d)) => Err(injection_message(p, d)),
        None => match substitute(template, params.map_values(|p: Seq<char>| quoted(p))) {
            None => Err(too_many_params_message()),
            Some(s) => if params.len() < count_char(template, '?') {
                Err(too_few_params_message(count_char(template, '?'), params.len()))
            } else {
                Ok(s)
            },
        },
    }
}

/// The views of a slice of string slices.
pub open spec fn str_views(v: Seq<&str>) -> Seq<Seq<char>> {
    v.map_values(|s: &str| s@)
}

fn dangerous_token(i: usize) -> (r: &'static str)
    requires
        i < 13,
    ensures
        r@ == dangerous_tokens()[i as int],
{
    if i == 0 { "DROP" }
    else if i == 1 { "TRUNCATE" }
    else if i == 2 { "ALTER" }
    else if i == 3 { "EXEC" }
    else if i == 4 { "EXECUTE" }
    else if i == 5 { "--" }
    else if i == 6 { ";--" }
    else if i == 7 { "/*" }
    else if i == 8 { "*/" }
    else if i == 9 { "xp_" }
    else if i == 10 { "UNION" }
    else if i == 11 { "DELETE" }
    else { ";" }
}

/// The first dangerous token in the upper-case form of `p`, if any.
pub fn find_danger(p: &str) -> (r: Option<&'static str>)
    ensures
        r matches Some(d) ==> danger_in(p@) == Some(d@),
        r is None ==> danger_in(p@) is None,
{
    let upper = to_upper(p);
    let u = chars_of(upper.as_str());
    let mut i: usize = 0;
    assert(dangerous_tokens().len() == 13);
    while i < 13
        invariant
            i <= 13,
            u@ == uppercase_of(p@),
            first_danger_from(u@, i as int) == first_danger_from(u@, 0),
        decreases 13 - i,
    {
        let d = dangerous_token(i);
        let dv = chars_of(d);
        if contains_chars(&u, &dv) {
            return Some(d);
        }
        i = i + 1;
    }
    None
}

/// `p` quoted with `'`, every `'` inside doubled.
pub fn quote_param(p: &str) -> (r: Vec<char>)
    ensures
        r@ == quoted(p@),
{
    let v = chars_of(p);
    let mut out: Vec<char> = Vec::new();
    out.push('\'');
    let mut i: usize = 0;
    while i < v.len()
        invariant
            i <= v@.len(),
            out@ == seq!['\''] + escape(v@.take(i as int)),
        decreases v.len() - i,
    {
        assert(v@.take(i + 1).drop_last() =~= v@.take(i as int));
        if v[i] == '\'' {
            out.push('\'');
            out.push('\'');
        } else {
            out.push(v[i]);
        }
        i = i + 1;
        assert(out@ =~= seq!['\''] + escape(v@.take(i as int)));
    }
    assert(v@.take(v@.len() as int) =~= v@);
    out.push('\'');
    assert(out@ =~= quoted(p@));
    out
}

/// Binds `params` into the placeholders of `sql_template`: the SQL text that is run by
/// `query_safe`, or a `SecurityError` when a parameter holds a dangerous token, when there
/// are more parameters than placeholders, or fewer.
pub fn bind_params(sql_template: &str, params: &[&str]) -> (r: Result<String, SdkError>)
    ensures
        match bind_spec(sql_template@, str_views(params@)) {
            Ok(s) => r matches Ok(q) && q@ == s,
            Err(m) => r matches Err(SdkError::SecurityError(e)) && e@ == m,
        },
{
    let ghost ps = str_views(params@);
    let n = params.len();
    // Refuse any parameter that holds a dangerous token.
    let mut quoted_vals: Vec<Vec<char>> = Vec::new();
    let mut i: usize = 0;
    while i < n
        invariant
            n == params@.len() == ps.len(),
            ps == str_views(params@),
            i <= n,
            first_bad_param(ps, i as int) == first_bad_param(ps, 0),
            quoted_vals@.len() == i,
            forall|k: int| 0 <= k < i ==> #[trigger] quoted_vals@[k]@ == quoted(ps[k]),
        decreases n - i,
    {
        assert(ps[i as int] == params@[i as int]@);
        match find_danger(params[i]) {
            Some(d) => {
                let m1 = concat_str("SQL injection detected in parameter: '", params[i]);
                let m2 = concat_str(m1.as_str(), "' contains forbidden token '");
                let m3 = concat_str(m2.as_str(), d);
                let m4 = concat_str(m3.as_str(), "'");
                return Err(SdkError::SecurityError(m4));
            },
            None => {},
        }
        quoted_vals.push(quote_param(params[i]));
        i = i + 1;
    }
    assert(first_bad_param(ps, 0) is None);
    let ghost vals = ps.map_values(|p: Seq<char>| quoted(p));
    // Replace the placeholders of the template, in order.
    let tv = chars_of(sql_template);
    let mut out: Vec<char> = Vec::new();
    let mut j: usize = 0;
    let mut k: usize = 0;
    assert(tv@.skip(0) =~= tv@);
    assert(vals.skip(0) =~= vals);
    assert(prepend(seq![], substitute(tv@, vals)) == substitute(tv@, vals)) by {
        match substitute(tv@, vals) {
            Some(r) => assert(Seq::<char>::empty() + r =~= r),
            None => {},
        }
    }
    while k < tv.len()
        invariant
            first_bad_param(ps, 0) is None,
            ps == str_views(params@),
            tv@ == sql_template@,
            n == ps.len() == quoted_vals@.len() == vals.len(),
            vals == ps.map_values(|p: Seq<char>| quoted(p)),
            forall|x: int| 0 <= x < n ==> #[trigger] quoted_vals@[x]@ == quoted(ps[x]),
            j <= n,
            k <= tv@.len(),
            substitute(tv@, vals) == prepend(out@, substitute(tv@.skip(k as int), vals.skip(j as int))),
        decreases tv.len() - k,
    {
        let c = tv[k];
        let ghost rest = tv@.skip(k as int);
        let ghost before = out@;
        assert(rest[0] == c);
        assert(rest.skip(1) =~= tv@.skip(k + 1));
        if c == '?' && j < n {
            let val = &quoted_vals[j];
            assert(vals.skip(j as int)[0] == val@);
            assert(vals.skip(j as int).drop_first() =~= vals.skip(j + 1));
            let mut m: usize = 0;
            while m < val.len()
                invariant
                    m <= val@.len(),
                    out@ == before + val@.take(m as int),
                decreases val.len() - m,
            {
                out.push(val[m]);
                m = m + 1;
                assert(out@ =~= before + val@.take(m as int));
            }
            assert(val@.take(val@.len() as int) =~= val@);
            proof {
                lemma_prepend_assoc(before, val@, substitute(tv@.skip(k + 1), vals.skip(j + 1)));
            }
            j = j + 1;
        } else {
            out.push(c);
            proof {
                lemma_prepend_assoc(before, seq![c], substitute(tv@.skip(k + 1), vals.skip(j as int)));
            }
        }
        k = k + 1;
    }
    assert(tv@.skip(k as int).len() == 0);
    if j < n {
        assert(substitute(tv@, vals) is None);
        return Err(
            SdkError::SecurityError(
                String::from_str("More params than '?' placeholders in SQL template"),
            ),
        );
    }
    assert(vals.skip(j as int).len() == 0);
    assert(substitute(tv@, vals) == Some(out@)) by {
        assert(out@ + Seq::<char>::empty() =~= out@);
    }
    let placeholders = count_chars(&tv, '?');
    if n < placeholders {
        let m1 = concat_str("SQL template has ", usize_to_text(placeholders).as_str());
        let m2 = concat_str(m1.as_str(), " '?' placeholders but only ");
        let m3 = concat_str(m2.as_str(), usize_to_text(n).as_str());
        let m4 = concat_str(m3.as_str(), " params were provided");
        return Err(SdkError::SecurityError(m4));
    }
    Ok(string_of(&out))
}

// ---------------------------------------------------------------------------
// Laws
// ---------------------------------------------------------------------------

proof fn lemma_first_bad_param(params: Seq<Seq<char>>, i: int)
    requires
        0 <= i,
    ensures
        first_bad_param(params, i) is None <==> forall|k: int| i <= k < params.len() ==> (#[trigger] danger_in(params[k])) is None,
        first_bad_param(params, i) matches Some((p, d)) ==> exists|k: int| i <= k < params.len() && params[k] == p && danger_in(params[k]) == Some(d),
    decreases params.len() - i,
{
    if i < params.len() {
        lemma_first_bad_param(params, i + 1);
    }
}

/// A bound query is only produced when no parameter holds a dangerous token; a parameter
/// that holds one gets the query refused, naming the first such parameter and token.
pub proof fn law_refuses_dangerous(template: Seq<char>, params: Seq<Seq<char>>)
    ensures
        bind_spec(template, params) is Ok ==> forall|k: int| 0 <= k < params.len() ==> (#[trigger] danger_in(params[k])) is None,
        (exists|k: int| 0 <= k < params.len() && (#[trigger] danger_in(params[k])) is Some) ==> (
            bind_spec(template, params) matches Err(m) && exists|k: int, d: Seq<char>|
                0 <= k < params.len() && danger_in(params[k]) == Some(d) && #[trigger] injection_message(params[k], d) == m),
{
    lemma_first_bad_param(params, 0);
    if let Some((p, d)) = first_bad_param(params, 0) {
        let k = choose|k: int| 0 <= k < params.len() && params[k] == p && danger_in(params[k]) == Some(d);
        assert(0 <= k < params.len() && danger_in(params[k]) == Some(d) && injection_message(params[k], d) == injection_message(p, d));
    }
}

proof fn lemma_count_concat(a: Seq<char>, b: Seq<char>, c: char)
    ensures
        count_char(a + b, c) == count_char(a, c) + count_char(b, c),
    decreases b.len(),
{
    if b.len() > 0 {
        lemma_count_concat(a, b.drop_last(), c);
        assert((a + b).drop_last() =~= a + b.drop_last());
    } else {
        assert(a + b =~= a);
    }
}

proof fn lemma_count_single(x: char, c: char)
    ensures
        count_char(seq![x], c) == (if x == c { 1nat } else { 0nat }),
{
    assert(seq![x].drop_last() =~= Seq::<char>::empty());
    assert(seq![x].last() == x);
    assert(count_char(Seq::<char>::empty(), c) == 0);
    assert(count_char(seq![x], c) == count_char(seq![x].drop_last(), c) + if x == c { 1nat } else { 0nat });
}

/// The character a parameter character is escaped to.
spec fn escaped_char(x: char) -> Seq<char> {
    if x == '\'' {
        seq!['\'', '\'']
    } else {
        seq![x]
    }
}

proof fn lemma_escape_count(p: Seq<char>)
    ensures
        count_char(escape(p), '?') == count_char(p, '?'),
    decreases p.len(),
{
    if p.len() > 0 {
        let x = p.last();
        lemma_escape_count(p.drop_last());
        let tail = escaped_char(x);
        assert(escape(p) == escape(p.drop_last()) + tail);
        lemma_count_concat(escape(p.drop_last()), tail, '?');
        lemma_count_single(x, '?');
        if x == '\'' {
            assert(tail =~= seq!['\''] + seq!['\'']);
            lemma_count_concat(seq!['\''], seq!['\''], '?');
            lemma_count_single('\'', '?');
        }
    }
}

proof fn lemma_quoted_count(p: Seq<char>)
    ensures
        count_char(quoted(p), '?') == count_char(p, '?'),
{
    lemma_escape_count(p);
    lemma_count_concat(seq!['\''], escape(p), '?');
    lemma_count_concat(seq!['\''] + escape(p), seq!['\''], '?');
    lemma_count_single('\'', '?');
}

proof fn lemma_prepend_assoc(a: Seq<char>, b: Seq<char>, o: Option<Seq<char>>)
    ensures
        prepend(a, prepend(b, o)) == prepend(a + b, o),
{
    match o {
        Some(r) => assert(a + (b + r) =~= a + b + r),
        None => {},
    }
}

proof fn lemma_count_first(t: Seq<char>)
    requires
        t.len() > 0,
    ensures
        count_char(t, '?') == count_char(t.skip(1), '?') + if t[0] == '?' { 1nat } else { 0nat },
{
    assert(t =~= seq![t[0]] + t.skip(1));
    lemma_count_concat(seq![t[0]], t.skip(1), '?');
    lemma_count_single(t[0], '?');
}

proof fn lemma_substitute_count(t: Seq<char>, vals: Seq<Seq<char>>)
    ensures
        substitute(t, vals) is Some <==> vals.len() <= count_char(t, '?'),
        (forall|x: int| 0 <= x < vals.len() ==> count_char(#[trigger] vals[x], '?') == 0) ==> (
            substitute(t, vals) matches Some(r) ==> count_char(r, '?') + vals.len() == count_char(t, '?')),
    decreases t.len(),
{
    if t.len() == 0 {
    } else {
        lemma_count_first(t);
        if t[0] == '?' && vals.len() > 0 {
            let v2 = vals.drop_first();
            lemma_substitute_count(t.skip(1), v2);
            assert(forall|x: int| 0 <= x < v2.len() ==> v2[x] == vals[x + 1]);
            if let Some(r) = substitute(t.skip(1), v2) {
                lemma_count_concat(vals[0], r, '?');
            }
        } else {
            lemma_substitute_count(t.skip(1), vals);
            if let Some(r) = substitute(t.skip(1), vals) {
                lemma_count_concat(seq![t[0]], r, '?');
                lemma_count_single(t[0], '?');
            }
        }
    }
}

/// With parameters that hold no dangerous token, binding succeeds exactly when there
/// are as many parameters as placeholders; with more parameters the query is refused as
/// having too few placeholders, with fewer as having too many. When no parameter holds a
/// `?`, the bound query holds none either.
pub proof fn law_placeholders_match(template: Seq<char>, params: Seq<Seq<char>>)
    requires
        forall|k: int| 0 <= k < params.len() ==> (#[trigger] danger_in(params[k])) is None,
    ensures
        params.len() == count_char(template, '?') ==> bind_spec(template, params) is Ok,
        params.len() == count_char(template, '?') && (forall|k: int|
            0 <= k < params.len() ==> count_char(#[trigger] params[k], '?') == 0) ==> (bind_spec(
            template,
            params,
        ) matches Ok(q) && count_char(q, '?') == 0),
        params.len() > count_char(template, '?') ==> bind_spec(template, params) == Err::<Seq<char>, Seq<char>>(too_many_params_message()),
        params.len() < count_char(template, '?') ==> bind_spec(template, params) == Err::<Seq<char>, Seq<char>>(
            too_few_params_message(count_char(template, '?'), params.len())),
{
    lemma_first_bad_param(params, 0);
    let vals = params.map_values(|p: Seq<char>| quoted(p));
    if forall|k: int| 0 <= k < params.len() ==> count_char(#[trigger] params[k], '?') == 0 {
        assert forall|k: int| 0 <= k < vals.len() implies count_char(#[trigger] vals[k], '?') == 0 by {
            lemma_quoted_count(params[k]);
        }
    }
    lemma_substitute_count(template, vals);
}

/// Reads back an escaped text: every `''` becomes one `'`.
pub open spec fn unescape(s: Seq<char>) -> Seq<char>
    decreases s.len(),
{
    if s.len() == 0 {
        seq![]
    } else if s.len() >= 2 && s[0] == '\'' && s[1] == '\'' {
        seq!['\''] + unescape(s.skip(2))
    } else {
        seq![s[0]] + unescape(s.skip(1))
    }
}

proof fn lemma_escape_prepend(c: char, p: Seq<char>)
    ensures
        escape(seq![c] + p) == escaped_char(c) + escape(p),
    decreases p.len(),
{
    if p.len() == 0 {
        assert(seq![c] + p =~= seq![c]);
        assert(seq![c].drop_last() =~= Seq::<char>::empty());
        assert(escape(seq![c]) == escape(Seq::<char>::empty()) + escaped_char(c));
        assert(escape(seq![c]) =~= escaped_char(c));
        assert(escaped_char(c) + escape(p) =~= escaped_char(c));
    } else {
        let q = seq![c] + p;
        lemma_escape_prepend(c, p.drop_last());
        assert(q.drop_last() =~= seq![c] + p.drop_last());
        assert(q.last() == p.last());
        assert(escape(q) == escape(q.drop_last()) + escaped_char(q.last()));
        assert(escape(p) == escape(p.drop_last()) + escaped_char(p.last()));
        assert(escape(q) =~= escaped_char(c) + escape(p));
    }
}

/// Escaping loses nothing: reading the escaped text back gives the parameter.
pub proof fn law_escape_reversible(p: Seq<char>)
    ensures
        unescape(escape(p)) == p,
    decreases p.len(),
{
    if p.len() > 0 {
        let c = p[0];
        let rest = p.skip(1);
        assert(p =~= seq![c] + rest);
        lemma_escape_prepend(c, rest);
        law_escape_reversible(rest);
        let e = escape(p);
        if c == '\'' {
            assert(e.skip(2) =~= escape(rest));
        } else {
            assert(e.skip(1) =~= escape(rest));
        }
    }
}

/// How SQL reads a string literal whose opening quote has been consumed: characters up to
/// the closing `'`, a doubled `''` standing for one `'`. The text read and the number of
/// characters consumed (closing quote included); none when the literal never closes.
pub open spec fn read_literal(t: Seq<char>) -> Option<(Seq<char>, nat)>
    decreases t.len(),
{
    if t.len() == 0 {
        None
    } else if t[0] == '\'' {
        if t.len() >= 2 && t[1] == '\'' {
            match read_literal(t.skip(2)) {
                Some((b, n)) => Some((seq!['\''] + b, n + 2)),
                None => None,
            }
        } else {
            Some((seq![], 1))
        }
    } else {
        match read_literal(t.skip(1)) {
            Some((b, n)) => Some((seq![t[0]] + b, n + 1)),
            None => None,
        }
    }
}

/// A bound parameter cannot break out of its string literal: SQL reads the quoted
/// parameter back as one literal that holds exactly the parameter and ends at its
/// closing quote, whatever text follows (unless that text starts with a quote).
pub proof fn law_quoted_param_reads_back(p: Seq<char>, rest: Seq<char>)
    requires
        rest.len() == 0 || rest[0] != '\'',
    ensures
        quoted(p)[0] == '\'',
        read_literal((quoted(p) + rest).skip(1)) == Some((p, (quoted(p).len() - 1) as nat)),
{
    assert((quoted(p) + rest).skip(1) =~= escape(p) + seq!['\''] + rest);
    lemma_read_escaped(p, rest);
}

proof fn lemma_read_escaped(p: Seq<char>, rest: Seq<char>)
    requires
        rest.len() == 0 || rest[0] != '\'',
    ensures
        read_literal(escape(p) + seq!['\''] + rest) == Some((p, escape(p).len() + 1)),
    decreases p.len(),
{
    let t = escape(p) + seq!['\''] + rest;
    if p.len() == 0 {
        assert(escape(p) =~= Seq::<char>::empty());
        assert(t =~= seq!['\''] + rest);
        assert(t[0] == '\'');
        if t.len() >= 2 {
            assert(t[1] == rest[0]);
        }
    } else {
        let c = p[0];
        let tail = p.skip(1);
        assert(p =~= seq![c] + tail);
        lemma_escape_prepend(c, tail);
        lemma_read_escaped(tail, rest);
        let u = escape(tail) + seq!['\''] + rest;
        if c == '\'' {
            assert(t =~= seq!['\'', '\''] + u);
            assert(t.skip(2) =~= u);
            assert(t[0] == '\'' && t[1] == '\'');
            assert(seq!['\''] + tail =~= p);
        } else {
            assert(t =~= seq![c] + u);
            assert(t.skip(1) =~= u);
            assert(t[0] == c);
            assert(seq![c] + tail =~= p);
        }
    }
}

/// The first placeholder of a template takes the first value, and the rest of the
/// template is bound with the remaining values: text inside a value is never taken for
/// a placeholder.
pub proof fn law_placeholder_gets_value(t1: Seq<char>, t2: Seq<char>, v: Seq<char>, vs: Seq<Seq<char>>)
    requires
        count_char(t1, '?') == 0,
    ensures
        substitute(t1 + seq!['?'] + t2, seq![v] + vs) == prepend(t1 + v, substitute(t2, vs)),
    decreases t1.len(),
{
    let t = t1 + seq!['?'] + t2;
    let vals = seq![v] + vs;
    if t1.len() == 0 {
        assert(t[0] == '?');
        assert(t.skip(1) =~= t2);
        assert(vals.drop_first() =~= vs);
        assert(t1 + v =~= v);
    } else {
        lemma_count_first(t1);
        assert(t[0] == t1[0]);
        assert(t1[0] != '?');
        assert(t.skip(1) =~= t1.skip(1) + seq!['?'] + t2);
        law_placeholder_gets_value(t1.skip(1), t2, v, vs);
        lemma_prepend_assoc(seq![t1[0]], t1.skip(1) + v, substitute(t2, vs));
        assert(seq![t1[0]] + (t1.skip(1) + v) =~= t1 + v);
    }
}

} // verus!
