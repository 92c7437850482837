//! Template expansion: `{name}` placeholders resolved from variables (and,
//! optionally, an environment snapshot), then a pass that unescapes `\{` and `\}`.
//!
//! A placeholder is recognised at a position holding a character other than a
//! backslash, followed by `{`, a run of word characters, and `}`. That leading
//! character is kept in the output. Matches are taken left to right and do not
//! overlap, so a placeholder at the very start of a template, or one directly
//! after another placeholder, is not recognised.
use vstd::prelude::*;
use crate::table::StringMap;
use crate::text::{
    chars_of, lemma_replaced_absent, lemma_replaced_match_at_start,
    lemma_replaced_no_match_at_start, lemma_replaced_plain_prefix, push_all, replace_chars,
    replaced, string_of,
};

verus! {

/// Whether `c` belongs to the Unicode word class `\w` of regular expressions.
pub uninterp spec fn word_char(c: char) -> bool;

/// The upper-case form of `s` under Unicode case mapping.
pub uninterp spec fn upper_of(s: Seq<char>) -> Seq<char>;

/// Relies on `regex_syntax::is_word_character`, the definition of `\w` used by
/// the regex crate (Alphabetic, Join_Control, Decimal_Number, Mark and
/// Connector_Punctuation).
#[verifier::external_body]
fn is_word_char(c: char) -> (r: bool)
    ensures
        r == word_char(c),
{
    regex_syntax::is_word_character(c)
}

/// Relies on `str::to_uppercase`: the result depends on the characters alone.
#[verifier::external_body]
fn to_upper(s: &str) -> (r: String)
    ensures
        r@ == upper_of(s@),
{
    s.to_uppercase()
}

/// A character of a placeholder name: a word character. Braces and the
/// backslash are never word characters; they are excluded here explicitly.
pub open spec fn name_char(c: char) -> bool {
    c != '{' && c != '}' && c != '\\' && word_char(c)
}

/// Whether `c` may stand in a placeholder name.
pub fn is_name_char(c: char) -> (r: bool)
    ensures
        r == name_char(c),
{
    c != '{' && c != '}' && c != '\\' && is_word_char(c)
}

/// The index just past the run of name characters in `t` that starts at `k`.
pub open spec fn word_run_end(t: Seq<char>, k: int) -> int
    decreases t.len() - k,
{
    if 0 <= k < t.len() && name_char(t[k]) {
        word_run_end(t, k + 1)
    } else {
        k
    }
}

/// The length of the placeholder match at the start of `t`, if one is there:
/// a non-backslash character, `{`, word characters, `}`.
pub open spec fn placeholder_len(t: Seq<char>) -> Option<int> {
    if t.len() >= 2 && t[0] != '\\' && t[1] == '{' && word_run_end(t, 2) < t.len()
        && t[word_run_end(t, 2)] == '}' {
        Some(word_run_end(t, 2) + 1)
    } else {
        None
    }
}

/// The value a placeholder name resolves to: the environment under the
/// upper-cased name first, when an environment is given, then the variables.
pub open spec fn resolved(
    name: Seq<char>,
    vars: Map<Seq<char>, Seq<char>>,
    env: Option<Map<Seq<char>, Seq<char>>>,
) -> Option<Seq<char>> {
    if env is Some && env->Some_0.contains_key(upper_of(name)) {
        Some(env->Some_0[upper_of(name)])
    } else if vars.contains_key(name) {
        Some(vars[name])
    } else {
        None
    }
}

pub proof fn lemma_word_run_bounds(t: Seq<char>, k: int)
    requires
        0 <= k <= t.len(),
    ensures
        k <= word_run_end(t, k) <= t.len(),
        forall|j: int| k <= j < word_run_end(t, k) ==> name_char(#[trigger] t[j]),
    decreases t.len() - k,
{
    if k < t.len() && name_char(t[k]) {
        lemma_word_run_bounds(t, k + 1);
    }
}

/// The placeholder pass: each recognised placeholder whose name resolves is
/// replaced by its leading character and the value; others stay as they are.
pub open spec fn substituted(
    t: Seq<char>,
    vars: Map<Seq<char>, Seq<char>>,
    env: Option<Map<Seq<char>, Seq<char>>>,
) -> Seq<char>
    decreases t.len(),
{
    if t.len() == 0 {
        Seq::empty()
    } else if placeholder_len(t) is Some {
        let e = placeholder_len(t)->Some_0;
        proof {
            lemma_word_run_bounds(t, 2);
        }
        let piece = match resolved(t.subrange(2, e - 1), vars, env) {
            Some(v) => seq![t[0]] + v,
            None => t.subrange(0, e),
        };
        piece + substituted(t.subrange(e, t.len() as int), vars, env)
    } else {
        seq![t[0]] + substituted(t.drop_first(), vars, env)
    }
}

/// The unescape pass: `\{` becomes `{`, then `\}` becomes `}`.
pub open spec fn unescaped(s: Seq<char>) -> Seq<char> {
    replaced(replaced(s, seq!['\\', '{'], seq!['{']), seq!['\\', '}'], seq!['}'])
}

/// Full expansion of a template.
pub open spec fn expanded(
    t: Seq<char>,
    vars: Map<Seq<char>, Seq<char>>,
    env: Option<Map<Seq<char>, Seq<char>>>,
) -> Seq<char> {
    unescaped(substituted(t, vars, env))
}

/// The view of an optional environment snapshot.
pub open spec fn env_view(env: Option<&StringMap>) -> Option<Map<Seq<char>, Seq<char>>> {
    match env {
        Some(m) => Some(m@),
        None => None,
    }
}

proof fn lemma_word_run_shift(t: Seq<char>, i: int, k: int)
    requires
        0 <= i <= t.len(),
        0 <= k <= t.len() - i,
    ensures
        word_run_end(t.subrange(i, t.len() as int), k) == word_run_end(t, i + k) - i,
    decreases t.len() - i - k,
{
    if k < t.len() - i && name_char(t[i + k]) {
        lemma_word_run_shift(t, i, k + 1);
    }
}

/// The end of the word-character run of `t` that starts at `k`.
fn word_run_from(t: &Vec<char>, k: usize) -> (e: usize)
    requires
        k <= t@.len(),
    ensures
        e as int == word_run_end(t@, k as int),
        k <= e <= t@.len(),
{
    let n = t.len();
    let mut j: usize = k;
    while j < n && is_name_char(t[j])
        invariant
            n == t@.len(),
            k <= j <= n,
            word_run_end(t@, j as int) == word_run_end(t@, k as int),
        decreases n - j,
    {
        j = j + 1;
    }
    j
}

/// The end of the placeholder match that starts at index `i` of `t`, if any.
fn placeholder_at(t: &Vec<char>, i: usize) -> (r: Option<usize>)
    requires
        i <= t@.len(),
    ensures
        match r {
            Some(e) => placeholder_len(t@.subrange(i as int, t@.len() as int)) == Some(e - i)
                && i + 3 <= e <= t@.len(),
            None => placeholder_len(t@.subrange(i as int, t@.len() as int)) is None,
        },
{
    let n = t.len();
    let ghost u = t@.subrange(i as int, n as int);
    if n - i < 2 || t[i] == '\\' || t[i + 1] != '{' {
        return None;
    }
    proof {
        lemma_word_run_shift(t@, i as int, 2);
    }
    let e = word_run_from(t, i + 2);
    if e < n && t[e] == '}' {
        Some(e + 1)
    } else {
        None
    }
}

/// The characters of `t` from `a` up to `b`.
fn slice_chars(t: &Vec<char>, a: usize, b: usize) -> (r: Vec<char>)
    requires
        a <= b <= t@.len(),
    ensures
        r@ == t@.subrange(a as int, b as int),
{
    let mut r: Vec<char> = Vec::new();
    let mut j: usize = a;
    while j < b
        invariant
            a <= j <= b,
            b <= t@.len(),
            r@ == t@.subrange(a as int, j as int),
        decreases b - j,
    {
        r.push(t[j]);
        j = j + 1;
        assert(r@ =~= t@.subrange(a as int, j as int));
    }
    r
}

/// Resolves a placeholder name: the environment under the upper-cased name
/// first, when an environment is given, then the variables.
pub fn resolve(name: &str, vars: &StringMap, env: Option<&StringMap>) -> (r: Option<String>)
    ensures
        match r {
            Some(v) => resolved(name@, vars@, env_view(env)) == Some(v@),
            None => resolved(name@, vars@, env_view(env)) is None,
        },
{
    if let Some(e) = env {
        let upper = to_upper(name);
        if let Some(v) = e.get(upper.as_str()) {
            return Some(v.clone());
        }
    }
    match vars.get(name) {
        Some(v) => Some(v.clone()),
        None => None,
    }
}

/// The placeholder pass over the characters of a template.
pub fn substitute(t: &Vec<char>, vars: &StringMap, env: Option<&StringMap>) -> (r: Vec<char>)
    ensures
        r@ == substituted(t@, vars@, env_view(env)),
{
    let ghost vs = vars@;
    let ghost es = env_view(env);
    let n = t.len();
    let mut out: Vec<char> = Vec::new();
    let mut i: usize = 0;
    assert(t@.subrange(0, n as int) =~= t@);
    while i < n
        invariant
            n == t@.len(),
            i <= n,
            vs == vars@,
            es == env_view(env),
            out@ + substituted(t@.subrange(i as int, n as int), vs, es) == substituted(t@, vs, es),
        decreases n - i,
    {
        let ghost u = t@.subrange(i as int, n as int);
        let ghost before = out@;
        assert(u.len() > 0 && u[0] == t@[i as int]);
        match placeholder_at(t, i) {
            Some(e) => {
                let name_chars = slice_chars(t, i + 2, e - 1);
                assert(name_chars@ =~= u.subrange(2, (e - i) - 1));
                let name = string_of(&name_chars);
                assert(name@ == u.subrange(2, (e - i) - 1));
                let res = resolve(name.as_str(), vars, env);
                match res {
                    Some(v) => {
                        out.push(t[i]);
                        let vc = chars_of(v.as_str());
                        push_all(&mut out, &vc);
                        assert(out@ =~= before + seq![u[0]] + v@);
                        assert(resolved(u.subrange(2, (e - i) - 1), vs, es) == Some(v@));
                    }
                    None => {
                        let whole = slice_chars(t, i, e);
                        assert(whole@ =~= u.subrange(0, e - i));
                        push_all(&mut out, &whole);
                        assert(out@ =~= before + u.subrange(0, e - i));
                        assert(resolved(u.subrange(2, (e - i) - 1), vs, es) is None);
                    }
                }
                assert(u.subrange(e - i, u.len() as int) =~= t@.subrange(e as int, n as int));
                assert(substituted(u, vs, es) == (match resolved(u.subrange(2, (e - i) - 1), vs, es) {
                    Some(v) => seq![u[0]] + v,
                    None => u.subrange(0, e - i),
                }) + substituted(t@.subrange(e as int, n as int), vs, es));
                i = e;
            }
            None => {
                assert(u.drop_first() =~= t@.subrange(i + 1, n as int));
                out.push(t[i]);
                assert(out@ =~= before + seq![u[0]]);
                assert(substituted(u, vs, es) == seq![u[0]] + substituted(t@.subrange(i + 1, n as int), vs, es));
                i = i + 1;
            }
        }
        assert(out@ + substituted(t@.subrange(i as int, n as int), vs, es) =~= before + substituted(u, vs, es));
    }
    assert(t@.subrange(n as int, n as int) =~= Seq::<char>::empty());
    assert(out@ =~= substituted(t@, vs, es));
    out
}

/// Expands a template: placeholders are resolved, then `\{` and `\}` are
/// unescaped.
pub fn expand(template: &str, vars: &StringMap, env: Option<&StringMap>) -> (r: String)
    ensures
        r@ == expanded(template@, vars@, env_view(env)),
{
    let t = chars_of(template);
    let s = substitute(&t, vars, env);
    let open_from: Vec<char> = vec!['\\', '{'];
    let open_to: Vec<char> = vec!['{'];
    let close_from: Vec<char> = vec!['\\', '}'];
    let close_to: Vec<char> = vec!['}'];
    let a = replace_chars(&s, &open_from, &open_to);
    let b = replace_chars(&a, &close_from, &close_to);
    assert(open_from@ =~= seq!['\\', '{']);
    assert(open_to@ =~= seq!['{']);
    assert(close_from@ =~= seq!['\\', '}']);
    assert(close_to@ =~= seq!['}']);
    string_of(&b)
}

/// The template `x{name}` followed by `rest`.
pub open spec fn placeholder_template(x: char, name: Seq<char>, rest: Seq<char>) -> Seq<char> {
    seq![x, '{'] + name + seq!['}'] + rest
}

/// The template `x\{name}` followed by `rest`.
pub open spec fn escaped_template(x: char, name: Seq<char>, rest: Seq<char>) -> Seq<char> {
    seq![x, '\\', '{'] + name + seq!['}'] + rest
}

/// Whether every character of `name` may stand in a placeholder name.
pub open spec fn is_name(name: Seq<char>) -> bool {
    forall|j: int| 0 <= j < name.len() ==> name_char(#[trigger] name[j])
}

proof fn lemma_run_over_name(x: char, name: Seq<char>, rest: Seq<char>, k: int)
    requires
        is_name(name),
        2 <= k <= name.len() + 2,
    ensures
        word_run_end(placeholder_template(x, name, rest), k) == name.len() + 2,
    decreases name.len() + 2 - k,
{
    let t = placeholder_template(x, name, rest);
    if k < name.len() + 2 {
        assert(t[k] == name[k - 2]);
        lemma_run_over_name(x, name, rest, k + 1);
    } else {
        assert(t[k] == '}');
    }
}

/// A recognised placeholder at the start of a template is replaced by what
/// its name resolves to, or kept when the name does not resolve, and the scan
/// goes on after it.
proof fn lemma_placeholder_at_start(
    x: char,
    name: Seq<char>,
    rest: Seq<char>,
    vars: Map<Seq<char>, Seq<char>>,
    env: Option<Map<Seq<char>, Seq<char>>>,
)
    requires
        x != '\\',
        is_name(name),
    ensures
        substituted(placeholder_template(x, name, rest), vars, env) == (match resolved(name, vars, env) {
            Some(v) => seq![x] + v,
            None => seq![x, '{'] + name + seq!['}'],
        }) + substituted(rest, vars, env),
{
    let t = placeholder_template(x, name, rest);
    let e: int = name.len() as int + 3;
    lemma_run_over_name(x, name, rest, 2);
    assert(placeholder_len(t) == Some(e));
    assert(t.subrange(2, e - 1) =~= name);
    assert(t.subrange(0, e) =~= seq![x, '{'] + name + seq!['}']);
    assert(t.subrange(e, t.len() as int) =~= rest);
}

/// The first character of a nonempty template always opens its placeholder pass.
proof fn lemma_substituted_first(
    t: Seq<char>,
    vars: Map<Seq<char>, Seq<char>>,
    env: Option<Map<Seq<char>, Seq<char>>>,
)
    requires
        t.len() > 0,
    ensures
        substituted(t, vars, env).len() > 0,
        substituted(t, vars, env)[0] == t[0],
{
    if placeholder_len(t) is Some {
        lemma_word_run_bounds(t, 2);
    }
}

/// Text without `{`, followed by text that does not start with `{`, passes
/// through the placeholder pass unchanged.
proof fn lemma_substituted_no_open(
    a: Seq<char>,
    b: Seq<char>,
    vars: Map<Seq<char>, Seq<char>>,
    env: Option<Map<Seq<char>, Seq<char>>>,
)
    requires
        forall|j: int| 0 <= j < a.len() ==> a[j] != '{',
        b.len() > 0,
        b[0] != '{',
    ensures
        substituted(a + b, vars, env) == a + substituted(b, vars, env),
    decreases a.len(),
{
    if a.len() > 0 {
        let t = a + b;
        assert(t[1] != '{');
        assert(placeholder_len(t) is None);
        assert(t.drop_first() =~= a.drop_first() + b);
        lemma_substituted_no_open(a.drop_first(), b, vars, env);
        assert(seq![a[0]] + (a.drop_first() + substituted(b, vars, env)) =~= a + substituted(b, vars, env));
    } else {
        assert(a + b =~= b);
        assert(a + substituted(b, vars, env) =~= substituted(b, vars, env));
    }
}

/// Text without backslashes goes through the unescape pass unchanged, in
/// front of whatever follows it.
proof fn lemma_unescaped_plain_prefix(a: Seq<char>, b: Seq<char>)
    requires
        forall|j: int| 0 <= j < a.len() ==> a[j] != '\\',
    ensures
        unescaped(a + b) == a + unescaped(b),
{
    let f1 = seq!['\\', '{'];
    let f2 = seq!['\\', '}'];
    lemma_replaced_plain_prefix(a, b, f1, seq!['{']);
    lemma_replaced_plain_prefix(a, replaced(b, f1, seq!['{']), f2, seq!['}']);
}

/// A template with no backslash, and with no `{` or no `}`, expands to itself.
pub proof fn law_plain_template_unchanged(
    t: Seq<char>,
    vars: Map<Seq<char>, Seq<char>>,
    env: Option<Map<Seq<char>, Seq<char>>>,
)
    requires
        forall|i: int| 0 <= i < t.len() ==> t[i] != '\\',
        (forall|i: int| 0 <= i < t.len() ==> t[i] != '{') || (forall|i: int| 0 <= i < t.len() ==> t[i] != '}'),
    ensures
        expanded(t, vars, env) == t,
{
    lemma_substituted_identity(t, vars, env);
    lemma_replaced_absent(t, seq!['\\', '{'], seq!['{']);
    lemma_replaced_absent(t, seq!['\\', '}'], seq!['}']);
}

proof fn lemma_substituted_identity(
    t: Seq<char>,
    vars: Map<Seq<char>, Seq<char>>,
    env: Option<Map<Seq<char>, Seq<char>>>,
)
    requires
        (forall|i: int| 0 <= i < t.len() ==> t[i] != '{') || (forall|i: int| 0 <= i < t.len() ==> t[i] != '}'),
    ensures
        substituted(t, vars, env) == t,
    decreases t.len(),
{
    if t.len() > 0 {
        if t.len() >= 2 {
            lemma_word_run_bounds(t, 2);
        }
        assert(placeholder_len(t) is None);
        let u = t.drop_first();
        assert forall|i: int| 0 <= i < u.len() implies u[i] == t[i + 1] by {}
        lemma_substituted_identity(u, vars, env);
        assert(seq![t[0]] + u =~= t);
    }
}

/// A placeholder `x{name}` whose name is a variable, with no environment
/// consulted, is replaced by `x` and the variable's value; where neither `x`
/// nor the value holds a backslash, the expansion starts with them and goes
/// on with the expansion of the rest.
pub proof fn law_placeholder_from_vars(
    x: char,
    name: Seq<char>,
    rest: Seq<char>,
    vars: Map<Seq<char>, Seq<char>>,
)
    requires
        x != '\\',
        is_name(name),
        vars.contains_key(name),
    ensures
        substituted(placeholder_template(x, name, rest), vars, None) == seq![x] + vars[name]
            + substituted(rest, vars, None),
        (forall|j: int| 0 <= j < vars[name].len() ==> vars[name][j] != '\\') ==> expanded(
            placeholder_template(x, name, rest),
            vars,
            None,
        ) == seq![x] + vars[name] + expanded(rest, vars, None),
{
    lemma_placeholder_at_start(x, name, rest, vars, None);
    let a = seq![x] + vars[name];
    if forall|j: int| 0 <= j < vars[name].len() ==> vars[name][j] != '\\' {
        assert forall|j: int| 0 <= j < a.len() implies a[j] != '\\' by {
            if j > 0 {
                assert(a[j] == vars[name][j - 1]);
            }
        }
        lemma_unescaped_plain_prefix(a, substituted(rest, vars, None));
    }
}

/// An escaped placeholder `x\{name}` is not resolved: the expansion starts
/// with the literal text `x{name}`.
pub proof fn law_escaped_placeholder_literal(
    x: char,
    name: Seq<char>,
    rest: Seq<char>,
    vars: Map<Seq<char>, Seq<char>>,
    env: Option<Map<Seq<char>, Seq<char>>>,
)
    requires
        is_name(name),
    ensures
        ({
            let lit = seq![x, '{'] + name + seq!['}'];
            let out = expanded(escaped_template(x, name, rest), vars, env);
            out.len() >= lit.len() && out.subrange(0, lit.len() as int) == lit
        }),
{
    let t = escaped_template(x, name, rest);
    let t1 = seq!['\\', '{'] + name + seq!['}'] + rest;
    let t2 = seq!['{'] + name + seq!['}'] + rest;
    let tail = seq!['}'] + rest;
    // The placeholder pass passes over x, the backslash, the brace and the name.
    assert(placeholder_len(t) is None);
    assert(t.drop_first() =~= t1);
    assert(placeholder_len(t1) is None);
    assert(t1.drop_first() =~= t2);
    assert forall|j: int| 0 <= j < name.len() implies name[j] != '{' by {
        assert(name_char(name[j]));
    }
    assert(t2 =~= seq!['{'] + (name + tail));
    if name.len() > 0 {
        assert(name_char(name[0]));
    }
    assert(t2[1] != '{');
    assert(placeholder_len(t2) is None);
    assert(t2.drop_first() =~= name + tail);
    lemma_substituted_no_open(name, tail, vars, env);
    let st = substituted(tail, vars, env);
    lemma_substituted_first(tail, vars, env);
    let s = substituted(t, vars, env);
    assert(t[0] == x && t1[0] == '\\' && t2[0] == '{');
    assert(s == seq![x] + substituted(t1, vars, env));
    assert(substituted(t1, vars, env) == seq!['\\'] + substituted(t2, vars, env));
    assert(substituted(t2, vars, env) == seq!['{'] + substituted(name + tail, vars, env));
    assert(s =~= seq![x, '\\', '{'] + name + st);
    // The unescape pass turns the backslash and brace into a brace.
    let f1 = seq!['\\', '{'];
    let f2 = seq!['\\', '}'];
    let b1 = seq!['\\', '{'] + name + st;
    assert(s =~= seq![x] + b1);
    if x == '\\' {
        assert(b1[0] == '\\' && b1[1] == '{');
        assert((seq![x] + b1).subrange(0, 2) != f1);
    }
    lemma_replaced_no_match_at_start(x, b1, f1, seq!['{']);
    assert(b1 =~= f1 + (name + st));
    lemma_replaced_match_at_start(name + st, f1, seq!['{']);
    assert forall|j: int| 0 <= j < name.len() implies name[j] != f1[0] by {
        assert(name_char(name[j]));
    }
    lemma_replaced_plain_prefix(name, st, f1, seq!['{']);
    assert(st =~= seq!['}'] + st.drop_first());
    lemma_replaced_no_match_at_start('}', st.drop_first(), f1, seq!['{']);
    let r1 = replaced(st.drop_first(), f1, seq!['{']);
    let p1 = replaced(s, f1, seq!['{']);
    assert(p1 =~= seq![x, '{'] + name + seq!['}'] + r1);
    // The second pass keeps that prefix.
    let lit = seq![x, '{'] + name + seq!['}'];
    let c = seq!['{'] + name + seq!['}'];
    assert forall|j: int| 0 <= j < c.len() implies c[j] != f2[0] by {
        if 1 <= j < c.len() - 1 {
            assert(c[j] == name[j - 1]);
            assert(name_char(name[j - 1]));
        }
    }
    lemma_replaced_plain_prefix(c, r1, f2, seq!['}']);
    if x == '\\' {
        assert((seq![x] + (c + r1)).subrange(0, 2) != f2);
    }
    lemma_replaced_no_match_at_start(x, c + r1, f2, seq!['}']);
    assert(p1 =~= seq![x] + (c + r1));
    let out = replaced(p1, f2, seq!['}']);
    assert(out =~= lit + replaced(r1, f2, seq!['}']));
    assert(out.subrange(0, lit.len() as int) =~= lit);
}

/// With an environment given, a placeholder whose upper-cased name is set
/// there takes the environment's value, whatever the variables hold.
pub proof fn law_env_precedence(
    x: char,
    name: Seq<char>,
    rest: Seq<char>,
    vars: Map<Seq<char>, Seq<char>>,
    env: Map<Seq<char>, Seq<char>>,
)
    requires
        x != '\\',
        is_name(name),
        env.contains_key(upper_of(name)),
    ensures
        substituted(placeholder_template(x, name, rest), vars, Some(env)) == seq![x] + env[upper_of(name)]
            + substituted(rest, vars, Some(env)),
{
    lemma_placeholder_at_start(x, name, rest, vars, Some(env));
}

/// A placeholder that neither the environment (when given) nor the variables
/// resolve is kept verbatim.
pub proof fn law_unresolved_kept(
    x: char,
    name: Seq<char>,
    rest: Seq<char>,
    vars: Map<Seq<char>, Seq<char>>,
    env: Option<Map<Seq<char>, Seq<char>>>,
)
    requires
        x != '\\',
        is_name(name),
        resolved(name, vars, env) is None,
    ensures
        substituted(placeholder_template(x, name, rest), vars, env) == seq![x, '{'] + name + seq!['}']
            + substituted(rest, vars, env),
{
    lemma_placeholder_at_start(x, name, rest, vars, env);
}

} // verus!
