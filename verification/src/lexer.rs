//! Splitting SQL text into tokens.

use vstd::prelude::*;
use crate::text::{chars_of, is_whitespace, is_ws, slice_of, string_of};

verus! {

/// Characters that end a bare word.
pub open spec fn is_word_stop(c: char) -> bool {
    is_ws(c) || c == ',' || c == '(' || c == ')' || c == '{' || c == '[' || c == '>' || c == '<'
        || c == '=' || c == '!'
}

/// Characters that start a comparison operator.
pub open spec fn is_operator_start(c: char) -> bool {
    c == '>' || c == '<' || c == '!' || c == '='
}

/// Characters that form a token on their own.
pub open spec fn is_punct(c: char) -> bool {
    c == ',' || c == '(' || c == ')' || c == '*'
}

/// The contents of a quoted string that starts at `i` (just after the opening quote `q`),
/// with backslash escapes resolved, and the position just after the closing quote
/// (or the end of the input when the quote is never closed).
pub open spec fn scan_quoted(s: Seq<char>, i: int, q: char) -> (Seq<char>, int)
    decreases s.len() - i,
{
    if i < 0 || i >= s.len() {
        (seq![], i)
    } else if s[i] == q {
        (seq![], i + 1)
    } else if s[i] == '\\' && i + 1 < s.len() {
        let (rest, j) = scan_quoted(s, i + 2, q);
        (seq![s[i + 1]] + rest, j)
    } else {
        let (rest, j) = scan_quoted(s, i + 1, q);
        (seq![s[i]] + rest, j)
    }
}

/// The end (exclusive) of a bracketed group whose nesting depth is `depth` before `i`:
/// just after the bracket that brings the depth back to zero, or the end of the input.
pub open spec fn scan_group(s: Seq<char>, i: int, open: char, close: char, depth: int) -> int
    decreases s.len() - i,
{
    if i < 0 || i >= s.len() {
        i
    } else {
        let d = depth + (if s[i] == open { 1int } else { 0int }) - (if s[i] == close {
            1int
        } else {
            0int
        });
        if d == 0 {
            i + 1
        } else {
            scan_group(s, i + 1, open, close, d)
        }
    }
}

/// The end (exclusive) of the bare word that starts at `i`.
pub open spec fn scan_word(s: Seq<char>, i: int) -> int
    decreases s.len() - i,
{
    if i < 0 || i >= s.len() || is_word_stop(s[i]) {
        i
    } else {
        scan_word(s, i + 1)
    }
}

/// The closing bracket for an opening one.
pub open spec fn closer(c: char) -> char {
    if c == '{' {
        '}'
    } else {
        ']'
    }
}

/// The token that starts at the non-whitespace position `i`, and the position after it.
pub open spec fn next_token(s: Seq<char>, i: int) -> (Seq<char>, int) {
    let c = s[i];
    if c == '\'' || c == '"' {
        let (body, j) = scan_quoted(s, i + 1, c);
        (seq!['\''] + body + seq!['\''], j)
    } else if c == '{' || c == '[' {
        let j = scan_group(s, i, c, closer(c), 0);
        (s.subrange(i, j), j)
    } else if is_operator_start(c) {
        if i + 1 < s.len() && s[i + 1] == '=' {
            (s.subrange(i, i + 2), i + 2)
        } else {
            (s.subrange(i, i + 1), i + 1)
        }
    } else if is_punct(c) {
        (s.subrange(i, i + 1), i + 1)
    } else {
        let j = scan_word(s, i);
        (s.subrange(i, j), j)
    }
}

proof fn lemma_scan_quoted_bounds(s: Seq<char>, i: int, q: char)
    requires
        0 <= i <= s.len(),
    ensures
        i <= scan_quoted(s, i, q).1 <= s.len(),
    decreases s.len() - i,
{
    if i < s.len() {
        if s[i] == q {
        } else if s[i] == '\\' && i + 1 < s.len() {
            lemma_scan_quoted_bounds(s, i + 2, q);
        } else {
            lemma_scan_quoted_bounds(s, i + 1, q);
        }
    }
}

proof fn lemma_scan_group_bounds(s: Seq<char>, i: int, open: char, close: char, depth: int)
    requires
        0 <= i < s.len(),
    ensures
        i < scan_group(s, i, open, close, depth) <= s.len(),
    decreases s.len() - i,
{
    let d = depth + (if s[i] == open { 1int } else { 0int }) - (if s[i] == close {
        1int
    } else {
        0int
    });
    if d != 0 {
        if i + 1 < s.len() {
            lemma_scan_group_bounds(s, i + 1, open, close, d);
        } else {
            assert(scan_group(s, i + 1, open, close, d) == i + 1);
        }
    }
}

proof fn lemma_scan_word_bounds(s: Seq<char>, i: int)
    requires
        0 <= i <= s.len(),
    ensures
        i <= scan_word(s, i) <= s.len(),
        forall|k: int| i <= k < scan_word(s, i) ==> !is_word_stop(s[k]),
    decreases s.len() - i,
{
    if i < s.len() && !is_word_stop(s[i]) {
        lemma_scan_word_bounds(s, i + 1);
    }
}

/// The token that starts at a non-whitespace position is never empty and lies within the input.
pub proof fn lemma_next_token_advances(s: Seq<char>, i: int)
    requires
        0 <= i < s.len(),
        !is_ws(s[i]),
    ensures
        i < next_token(s, i).1 <= s.len(),
        next_token(s, i).0.len() > 0,
{
    let c = s[i];
    if c == '\'' || c == '"' {
        lemma_scan_quoted_bounds(s, i + 1, c);
    } else if c == '{' || c == '[' {
        lemma_scan_group_bounds(s, i, c, closer(c), 0);
    } else if is_operator_start(c) {
    } else if is_punct(c) {
    } else {
        lemma_scan_word_bounds(s, i);
        assert(!is_word_stop(c));
        if i + 1 <= s.len() {
            lemma_scan_word_bounds(s, i + 1);
        }
        assert(scan_word(s, i) == scan_word(s, i + 1));
    }
}

/// The tokens of `s` from position `i` on: whitespace separates tokens; quoted strings
/// (with `'` or `"`, backslash escapes) become one token re-quoted with `'`; a `{...}` or
/// `[...]` group (nesting of its own bracket kind) is one token; `>`, `<`, `!`, `=`
/// optionally followed by `=` form an operator; `,` `(` `)` `*` stand alone; anything
/// else is a bare word.
pub open spec fn lex_from(s: Seq<char>, i: int) -> Seq<Seq<char>>
    decreases s.len() - i,
{
    if i < 0 || i >= s.len() {
        seq![]
    } else if is_ws(s[i]) {
        lex_from(s, i + 1)
    } else {
        let (tok, j) = next_token(s, i);
        proof {
            lemma_next_token_advances(s, i);
        }
        seq![tok] + lex_from(s, j)
    }
}

/// The tokens of the SQL text `s`.
pub open spec fn lex(s: Seq<char>) -> Seq<Seq<char>> {
    lex_from(s, 0)
}

/// The first character of the token that starts at a non-whitespace position: the
/// character itself, or `'` for a quoted string.
proof fn lemma_next_token_first(s: Seq<char>, i: int)
    requires
        0 <= i < s.len(),
        !is_ws(s[i]),
    ensures
        next_token(s, i).0[0] == (if s[i] == '"' { '\'' } else { s[i] }),
{
    lemma_next_token_advances(s, i);
    let c = s[i];
    if c == '\'' || c == '"' {
        let (body, j) = scan_quoted(s, i + 1, c);
        assert((seq!['\''] + body + seq!['\''])[0] == '\'');
    }
}

/// Whether a token is non-empty and does not start with whitespace.
pub open spec fn is_solid(t: Seq<char>) -> bool {
    t.len() > 0 && !is_ws(t[0])
}

/// Every token is a non-empty piece of text that does not start with whitespace.
pub proof fn law_tokens_nonempty(s: Seq<char>)
    ensures
        forall|k: int| 0 <= k < lex(s).len() ==> is_solid(#[trigger] lex(s)[k]),
{
    lemma_lex_from_tokens(s, 0);
}

proof fn lemma_lex_from_tokens(s: Seq<char>, i: int)
    requires
        0 <= i,
    ensures
        forall|k: int| 0 <= k < lex_from(s, i).len() ==> is_solid(#[trigger] lex_from(s, i)[k]),
    decreases s.len() - i,
{
    if i >= s.len() {
    } else if is_ws(s[i]) {
        lemma_lex_from_tokens(s, i + 1);
        assert(lex_from(s, i) == lex_from(s, i + 1));
    } else {
        let (tok, j) = next_token(s, i);
        lemma_next_token_advances(s, i);
        lemma_next_token_first(s, i);
        lemma_lex_from_tokens(s, j);
        let rest = lex_from(s, j);
        assert(lex_from(s, i) == seq![tok] + rest);
        assert forall|k: int| 0 <= k < lex_from(s, i).len() implies is_solid(#[trigger] lex_from(s, i)[k]) by {
            if k > 0 {
                assert(lex_from(s, i)[k] == rest[k - 1]);
            } else {
                assert(lex_from(s, i)[0] == tok);
                assert(!is_ws('\''));
                assert(!is_ws(tok[0]));
            }
        }
    }
}

/// Leading whitespace does not change the tokens of a text.
pub proof fn law_leading_whitespace(w: Seq<char>, s: Seq<char>)
    requires
        forall|k: int| 0 <= k < w.len() ==> is_ws(#[trigger] w[k]),
    ensures
        lex(w + s) == lex(s),
{
    lemma_lex_skip_ws(w, s, 0);
    lemma_lex_from_shift(w, s, 0);
}

proof fn lemma_lex_skip_ws(w: Seq<char>, s: Seq<char>, i: int)
    requires
        0 <= i <= w.len(),
        forall|k: int| 0 <= k < w.len() ==> is_ws(#[trigger] w[k]),
    ensures
        lex_from(w + s, i) == lex_from(w + s, w.len() as int),
    decreases w.len() - i,
{
    if i < w.len() {
        assert((w + s)[i] == w[i]);
        lemma_lex_skip_ws(w, s, i + 1);
    }
}

/// Scanning `w + s` from `w.len() + i` is scanning `s` from `i`, shifted.
proof fn lemma_lex_from_shift(w: Seq<char>, s: Seq<char>, i: int)
    requires
        0 <= i,
    ensures
        lex_from(w + s, w.len() + i) == lex_from(s, i),
    decreases s.len() - i,
{
    let t = w + s;
    let o = w.len() as int;
    if i >= s.len() {
    } else {
        assert(t[o + i] == s[i]);
        if is_ws(s[i]) {
            lemma_lex_from_shift(w, s, i + 1);
        } else {
            lemma_next_token_shift(w, s, i);
            lemma_next_token_advances(s, i);
            lemma_lex_from_shift(w, s, next_token(s, i).1);
        }
    }
}

proof fn lemma_scan_quoted_shift(w: Seq<char>, s: Seq<char>, i: int, q: char)
    requires
        0 <= i,
    ensures
        scan_quoted(w + s, w.len() + i, q) == (scan_quoted(s, i, q).0, w.len() + scan_quoted(s, i, q).1),
    decreases s.len() - i,
{
    let t = w + s;
    let o = w.len() as int;
    if i < s.len() {
        assert(t[o + i] == s[i]);
        if i + 1 < s.len() {
            assert(t[o + i + 1] == s[i + 1]);
        }
        if s[i] == q {
        } else if s[i] == '\\' && i + 1 < s.len() {
            lemma_scan_quoted_shift(w, s, i + 2, q);
        } else {
            lemma_scan_quoted_shift(w, s, i + 1, q);
        }
    }
}

proof fn lemma_scan_group_shift(w: Seq<char>, s: Seq<char>, i: int, open: char, close: char, depth: int)
    requires
        0 <= i,
    ensures
        scan_group(w + s, w.len() + i, open, close, depth) == w.len() + scan_group(s, i, open, close, depth),
    decreases s.len() - i,
{
    let t = w + s;
    let o = w.len() as int;
    if i < s.len() {
        assert(t[o + i] == s[i]);
        let d = depth + (if s[i] == open { 1int } else { 0int }) - (if s[i] == close {
            1int
        } else {
            0int
        });
        if d != 0 {
            lemma_scan_group_shift(w, s, i + 1, open, close, d);
        }
    }
}

proof fn lemma_scan_word_shift(w: Seq<char>, s: Seq<char>, i: int)
    requires
        0 <= i,
    ensures
        scan_word(w + s, w.len() + i) == w.len() + scan_word(s, i),
    decreases s.len() - i,
{
    let t = w + s;
    let o = w.len() as int;
    if i < s.len() {
        assert(t[o + i] == s[i]);
        if !is_word_stop(s[i]) {
            lemma_scan_word_shift(w, s, i + 1);
        }
    }
}

proof fn lemma_next_token_shift(w: Seq<char>, s: Seq<char>, i: int)
    requires
        0 <= i < s.len(),
        !is_ws(s[i]),
    ensures
        next_token(w + s, w.len() + i) == (next_token(s, i).0, w.len() + next_token(s, i).1),
{
    let t = w + s;
    let o = w.len() as int;
    let c = s[i];
    assert(t[o + i] == c);
    lemma_next_token_advances(s, i);
    if c == '\'' || c == '"' {
        lemma_scan_quoted_shift(w, s, i + 1, c);
    } else if c == '{' || c == '[' {
        lemma_scan_group_shift(w, s, i, c, closer(c), 0);
        let j = scan_group(s, i, c, closer(c), 0);
        assert(t.subrange(o + i, o + j) =~= s.subrange(i, j));
    } else if is_operator_start(c) {
        if i + 1 < s.len() {
            assert(t[o + i + 1] == s[i + 1]);
        }
        if i + 1 < s.len() && s[i + 1] == '=' {
            assert(t.subrange(o + i, o + i + 2) =~= s.subrange(i, i + 2));
        } else {
            assert(t.subrange(o + i, o + i + 1) =~= s.subrange(i, i + 1));
        }
    } else if is_punct(c) {
        assert(t.subrange(o + i, o + i + 1) =~= s.subrange(i, i + 1));
    } else {
        lemma_scan_word_shift(w, s, i);
        lemma_scan_word_bounds(s, i);
        let j = scan_word(s, i);
        assert(t.subrange(o + i, o + j) =~= s.subrange(i, j));
    }
}

/// The character views of a vector of strings.
pub open spec fn views(v: Seq<String>) -> Seq<Seq<char>> {
    v.map_values(|t: String| t@)
}

fn scan_quoted_exec(s: &Vec<char>, start: usize, q: char) -> (r: (Vec<char>, usize))
    requires
        start <= s@.len(),
    ensures
        r.0@ == scan_quoted(s@, start as int, q).0,
        r.1 == scan_quoted(s@, start as int, q).1,
{
    let n = s.len();
    let mut acc: Vec<char> = Vec::new();
    let mut i = start;
    proof {
        lemma_scan_quoted_bounds(s@, start as int, q);
    }
    while i < n && s[i] != q
        invariant
            n == s@.len(),
            start <= i <= n,
            acc@ + scan_quoted(s@, i as int, q).0 == scan_quoted(s@, start as int, q).0,
            scan_quoted(s@, i as int, q).1 == scan_quoted(s@, start as int, q).1,
        decreases n - i,
    {
        let ghost old_acc = acc@;
        if s[i] == '\\' && i + 1 < n {
            acc.push(s[i + 1]);
            assert(acc@ + scan_quoted(s@, i + 2, q).0 =~= old_acc + scan_quoted(s@, i as int, q).0);
            i = i + 2;
        } else {
            acc.push(s[i]);
            assert(acc@ + scan_quoted(s@, i + 1, q).0 =~= old_acc + scan_quoted(s@, i as int, q).0);
            i = i + 1;
        }
    }
    if i < n {
        assert(acc@ =~= acc@ + scan_quoted(s@, i as int, q).0);
        (acc, i + 1)
    } else {
        assert(acc@ =~= acc@ + scan_quoted(s@, i as int, q).0);
        (acc, i)
    }
}

fn scan_group_exec(s: &Vec<char>, start: usize, open: char, close: char) -> (j: usize)
    requires
        start < s@.len(),
        s@[start as int] == open,
        open != close,
    ensures
        j == scan_group(s@, start as int, open, close, 0),
{
    let n = s.len();
    let mut depth: usize = 0;
    let mut i = start;
    loop
        invariant
            n == s@.len(),
            s@[start as int] == open,
            open != close,
            start <= i < n,
            depth <= i - start,
            i == start ==> depth == 0,
            i > start ==> depth > 0,
            scan_group(s@, i as int, open, close, depth as int) == scan_group(
                s@,
                start as int,
                open,
                close,
                0,
            ),
        decreases n - i,
    {
        let ch = s[i];
        if ch == open {
            depth = depth + 1;
        } else if ch == close {
            depth = depth - 1;
        }
        if depth == 0 {
            return i + 1;
        }
        if i + 1 >= n {
            assert(scan_group(s@, i + 1, open, close, depth as int) == i + 1);
            return i + 1;
        }
        i = i + 1;
    }
}

fn scan_word_exec(s: &Vec<char>, start: usize) -> (j: usize)
    requires
        start <= s@.len(),
    ensures
        j == scan_word(s@, start as int),
{
    let n = s.len();
    let mut i = start;
    while i < n && !is_word_stop_exec(s[i])
        invariant
            n == s@.len(),
            start <= i <= n,
            scan_word(s@, i as int) == scan_word(s@, start as int),
        decreases n - i,
    {
        i = i + 1;
    }
    i
}

fn is_word_stop_exec(c: char) -> (r: bool)
    ensures
        r == is_word_stop(c),
{
    is_whitespace(c) || c == ',' || c == '(' || c == ')' || c == '{' || c == '[' || c == '>' || c
        == '<' || c == '=' || c == '!'
}

fn next_token_exec(s: &Vec<char>, i: usize) -> (r: (Vec<char>, usize))
    requires
        i < s@.len(),
        !is_ws(s@[i as int]),
    ensures
        r.0@ == next_token(s@, i as int).0,
        r.1 == next_token(s@, i as int).1,
{
    proof {
        lemma_next_token_advances(s@, i as int);
    }
    let n = s.len();
    let c = s[i];
    if c == '\'' || c == '"' {
        let (body, j) = scan_quoted_exec(s, i + 1, c);
        let mut tok: Vec<char> = Vec::new();
        tok.push('\'');
        let mut k: usize = 0;
        while k < body.len()
            invariant
                k <= body@.len(),
                tok@ == seq!['\''] + body@.subrange(0, k as int),
            decreases body.len() - k,
        {
            tok.push(body[k]);
            k = k + 1;
            assert(tok@ =~= seq!['\''] + body@.subrange(0, k as int));
        }
        tok.push('\'');
        assert(tok@ =~= seq!['\''] + body@ + seq!['\'']);
        (tok, j)
    } else if c == '{' || c == '[' {
        let close = if c == '{' { '}' } else { ']' };
        let j = scan_group_exec(s, i, c, close);
        (slice_of(s, i, j), j)
    } else if c == '>' || c == '<' || c == '!' || c == '=' {
        if i + 1 < s.len() && s[i + 1] == '=' {
            (slice_of(s, i, i + 2), i + 2)
        } else {
            (slice_of(s, i, i + 1), i + 1)
        }
    } else if c == ',' || c == '(' || c == ')' || c == '*' {
        (slice_of(s, i, i + 1), i + 1)
    } else {
        let j = scan_word_exec(s, i);
        (slice_of(s, i, j), j)
    }
}

/// Splits SQL text into tokens, keeping quoted strings and JSON objects or arrays whole.
pub fn tokenize(input: &str) -> (tokens: Vec<String>)
    ensures
        views(tokens@) == lex(input@),
{
    let s = chars_of(input);
    let n = s.len();
    let mut out: Vec<String> = Vec::new();
    let mut i: usize = 0;
    while i < n
        invariant
            n == s@.len(),
            s@ == input@,
            i <= n,
            views(out@) + lex_from(s@, i as int) == lex(s@),
        decreases n - i,
    {
        if is_whitespace(s[i]) {
            i = i + 1;
        } else {
            let ghost before = views(out@);
            let (tok, j) = next_token_exec(&s, i);
            proof {
                lemma_next_token_advances(s@, i as int);
            }
            let t = string_of(&tok);
            out.push(t);
            assert(views(out@) =~= before.push(tok@));
            assert(views(out@) + lex_from(s@, j as int) =~= before + lex_from(s@, i as int));
            i = j;
        }
    }
    out
}

} // verus!
