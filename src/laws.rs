//! Properties of the grammar that relate several parses or whole families of texts.
use vstd::prelude::*;
use crate::ast::{SpecValue, SpecFact, SpecRule, SpecProgram};
use crate::grammar::{
    starts_ident, value_at, SyntaxError, Expected, Label, fail, is_space, is_ident, is_ident_char, char_at, skip_space,
    ident_end, prop_at, props_at, fact_at, clauses_at, rule_at, rules_at, program_of,
    lemma_skip_space, lemma_ident_end, lemma_prop_at, lemma_props_at, lemma_fact_at, lemma_clauses_at,
    lemma_rule_at,
};

verus! {

/// Parsing is a function of the text alone: the same text always gives the
/// same program, or the same error at the same position with the same label.
pub proof fn law_parse_deterministic(a: Seq<char>, b: Seq<char>)
    requires
        a == b,
    ensures
        program_of(a) == program_of(b),
        program_of(a) matches Err(x) ==> program_of(b) matches Err(y) && x.pos == y.pos
            && x.expected == y.expected && x.label == y.label,
{
}

proof fn lemma_ident_run(s: Seq<char>, i: int, n: int)
    requires
        0 <= i <= n <= s.len(),
        forall|k: int| i <= k < n ==> is_ident_char(#[trigger] s[k]),
        n == s.len() || !is_ident_char(s[n]),
    ensures
        ident_end(s, i) == n,
    decreases n - i,
{
    if i < n {
        lemma_ident_run(s, i + 1, n);
    }
}

proof fn lemma_skip_space_shift(a: Seq<char>, b: Seq<char>, k: int)
    requires
        0 <= k <= b.len(),
    ensures
        skip_space(a + b, a.len() + k) == a.len() + skip_space(b, k),
    decreases b.len() - k,
{
    if k < b.len() {
        assert((a + b)[a.len() + k] == b[k]);
        if is_space(b[k]) {
            lemma_skip_space_shift(a, b, k + 1);
        }
    }
}

/// A property written without a value reads as the identifier value of its
/// own name: `name` and `name: name` give the same property, and both are
/// followed by the same rest of the text, provided the rest does not go on
/// with the identifier or with a `:`.
pub proof fn law_prop_shorthand(name: Seq<char>, rest: Seq<char>)
    requires
        is_ident(name),
        rest.len() == 0 || !is_ident_char(rest[0]),
        !char_at(rest, skip_space(rest, 0), ':'),
    ensures
        prop_at(name + rest, 0) == Ok::<_, SyntaxError>(((name, SpecValue::Id(name)), name.len() as int)),
        prop_at(name + seq![':'] + name + rest, 0) == Ok::<_, SyntaxError>(
            ((name, SpecValue::Id(name)), 2 * name.len() + 1 as int),
        ),
{
    let n = name.len() as int;
    let s1 = name + rest;
    lemma_ident_run(s1, 0, n);
    lemma_skip_space_shift(name, rest, 0);
    lemma_skip_space(rest, 0);
    let q = skip_space(rest, 0);
    if q < rest.len() {
        assert(s1[n + q] == rest[q]);
    }
    assert(s1.subrange(0, n) =~= name);

    let s2 = name + seq![':'] + name + rest;
    assert(s2[n] == ':');
    assert forall|k: int| 0 <= k < n implies is_ident_char(#[trigger] s2[k]) by {
        assert(s2[k] == name[k]);
    }
    lemma_ident_run(s2, 0, n);
    assert(s2[n + 1] == name[0]);
    assert forall|k: int| n + 1 <= k < 2 * n + 1 implies is_ident_char(#[trigger] s2[k]) by {
        assert(s2[k] == name[k - n - 1]);
    }
    if rest.len() > 0 {
        assert(s2[2 * n + 1] == rest[0]);
    }
    lemma_ident_run(s2, n + 1, 2 * n + 1);
    assert(s2.subrange(0, n) =~= name);
    assert(s2.subrange(n + 1, 2 * n + 1) =~= name);
}

/// Two rules with only white space before, between and after them make a
/// program of exactly those two rules, in the order of the text.
pub proof fn law_two_rules(s: Seq<char>, r1: SpecRule, j: int, r2: SpecRule, m: int)
    requires
        rule_at(s, skip_space(s, 0)) == Ok::<_, SyntaxError>((r1, j)),
        rule_at(s, skip_space(s, j)) == Ok::<_, SyntaxError>((r2, m)),
        skip_space(s, m) == s.len(),
    ensures
        program_of(s) == Ok::<_, SyntaxError>(SpecProgram { rules: seq![r1, r2] }),
{
    let i = skip_space(s, 0);
    let k = skip_space(s, j);
    lemma_rule_at(s, i);
    lemma_skip_space(s, j);
    lemma_rule_at(s, k);
    let one = Seq::<SpecRule>::empty().push(r1);
    assert(one.push(r2) =~= seq![r1, r2]);
    assert(rules_at(s, skip_space(s, m), one.push(r2)) == Ok::<_, SyntaxError>(one.push(r2)));
    assert(rules_at(s, k, one) == Ok::<_, SyntaxError>(one.push(r2)));
    assert(rules_at(s, i, Seq::empty()) == Ok::<_, SyntaxError>(one.push(r2)));
}

/// A rule whose head is followed by a lone `:` instead of `:-` is rejected at
/// that `:`; where it is the first rule of the text, so is the program.
pub proof fn law_colon_is_not_turnstile(s: Seq<char>, i: int, head: SpecFact, j: int)
    requires
        fact_at(s, i) == Ok::<_, SyntaxError>((head, j)),
        char_at(s, skip_space(s, j), ':'),
        !char_at(s, skip_space(s, j) + 1, '-'),
    ensures
        rule_at(s, i) == Err::<(SpecRule, int), _>(fail(skip_space(s, j), Expected::Turnstile, Label::Rule)),
        i == skip_space(s, 0) ==> program_of(s) == Err::<SpecProgram, _>(
            fail(skip_space(s, j), Expected::Turnstile, Label::Rule),
        ),
{
    lemma_fact_at(s, i);
}

/// Position `e - 1` of `s` holds a `.` and only white space follows it.
pub open spec fn dot_then_space(s: Seq<char>, e: int) -> bool {
    &&& char_at(s, e - 1, '.')
    &&& forall|k: int| e <= k < s.len() ==> is_space(#[trigger] s[k])
}

proof fn lemma_clauses_end_dot(s: Seq<char>, i: int, acc: Seq<SpecFact>)
    ensures
        clauses_at(s, i, acc) matches Ok((_, e)) ==> char_at(s, e - 1, '.'),
    decreases s.len() - i,
{
    lemma_fact_at(s, i);
    if let Ok((f, j)) = fact_at(s, i) {
        lemma_skip_space(s, j);
        let r = skip_space(s, j);
        if char_at(s, r, ',') {
            lemma_skip_space(s, r + 1);
            lemma_clauses_end_dot(s, skip_space(s, r + 1), acc.push(f));
        }
    }
}

proof fn lemma_rule_end_dot(s: Seq<char>, i: int)
    ensures
        rule_at(s, i) matches Ok((_, e)) ==> char_at(s, e - 1, '.'),
{
    if let Ok((_, j)) = fact_at(s, i) {
        lemma_clauses_end_dot(s, skip_space(s, skip_space(s, j) + 2), Seq::empty());
    }
}

/// The text that `rules_at` accepts from `i` on is white space, or ends with a
/// `.` followed by white space only.
proof fn lemma_rules_tail(s: Seq<char>, i: int, acc: Seq<SpecRule>)
    requires
        0 <= i <= s.len(),
        rules_at(s, i, acc) is Ok,
    ensures
        (forall|k: int| i <= k < s.len() ==> is_space(#[trigger] s[k])) || exists|e: int|
            i < e && #[trigger] dot_then_space(s, e),
    decreases s.len() - i,
{
    if i < s.len() {
        lemma_rule_at(s, i);
        lemma_rule_end_dot(s, i);
        let (r, j) = rule_at(s, i)->Ok_0;
        lemma_skip_space(s, j);
        let next = skip_space(s, j);
        lemma_rules_tail(s, next, acc.push(r));
        if forall|k: int| next <= k < s.len() ==> is_space(#[trigger] s[k]) {
            assert(forall|k: int| j <= k < s.len() ==> is_space(#[trigger] s[k]));
            assert(dot_then_space(s, j));
        } else {
            let e = choose|e: int| next < e && #[trigger] dot_then_space(s, e);
            assert(i < e);
        }
    }
}

/// A text that holds anything but white space is a program only if its last
/// character other than white space is a `.`: a text whose last rule misses
/// its terminating `.` is rejected.
pub proof fn law_program_ends_with_dot(s: Seq<char>)
    requires
        exists|k: int| 0 <= k < s.len() && !is_space(#[trigger] s[k]),
    ensures
        program_of(s) is Ok ==> exists|e: int| #[trigger] dot_then_space(s, e),
{
    if program_of(s) is Ok {
        lemma_skip_space(s, 0);
        let i = skip_space(s, 0);
        lemma_rules_tail(s, i, Seq::empty());
        if forall|k: int| i <= k < s.len() ==> is_space(#[trigger] s[k]) {
            let w = choose|k: int| 0 <= k < s.len() && !is_space(#[trigger] s[k]);
            assert(is_space(s[w]));
        }
    }
}

/// No parenthesis stands in `s` from position `a` up to `b`.
pub open spec fn no_paren(s: Seq<char>, a: int, b: int) -> bool {
    forall|k: int| a <= k < b ==> #[trigger] s[k] != '(' && s[k] != ')'
}

/// The `)` at position `k` closes the `(` at position `m`: no parenthesis
/// stands between them.
pub open spec fn closes(s: Seq<char>, m: int, k: int) -> bool {
    &&& 0 <= m < k < s.len()
    &&& s[m] == '('
    &&& s[k] == ')'
    &&& no_paren(s, m + 1, k)
}

/// Every `)` of `s` from position `a` up to `b` closes a `(` that stands in
/// the same range before it.
pub open spec fn parens_matched(s: Seq<char>, a: int, b: int) -> bool {
    forall|k: int| a <= k < b && #[trigger] s[k] == ')' ==> exists|m: int| a <= m && #[trigger] closes(s, m, k)
}

proof fn lemma_matched_join(s: Seq<char>, a: int, b: int, c: int)
    requires
        a <= b <= c,
        parens_matched(s, a, b),
        parens_matched(s, b, c),
    ensures
        parens_matched(s, a, c),
{
    assert forall|k: int| a <= k < c && #[trigger] s[k] == ')' implies exists|m: int|
        a <= m && #[trigger] closes(s, m, k) by {
        if k < b {
            let m = choose|m: int| a <= m && #[trigger] closes(s, m, k);
        } else {
            let m = choose|m: int| b <= m && #[trigger] closes(s, m, k);
        }
    }
}

proof fn lemma_space_no_paren(s: Seq<char>, i: int)
    requires
        0 <= i <= s.len(),
    ensures
        no_paren(s, i, skip_space(s, i)),
{
    lemma_skip_space(s, i);
    assert forall|k: int| i <= k < skip_space(s, i) implies #[trigger] s[k] != '(' && s[k] != ')' by {
        assert(is_space(s[k]));
    }
}

proof fn lemma_ident_no_paren(s: Seq<char>, i: int)
    requires
        0 <= i <= s.len(),
    ensures
        no_paren(s, i, ident_end(s, i)),
    decreases s.len() - i,
{
    if i < s.len() && is_ident_char(s[i]) {
        lemma_ident_no_paren(s, i + 1);
    }
}

proof fn lemma_prop_no_paren(s: Seq<char>, i: int)
    ensures
        prop_at(s, i) matches Ok((_, e)) ==> no_paren(s, i, e),
{
    if let Ok((_, e)) = prop_at(s, i) {
        lemma_ident_end(s, i);
        lemma_ident_no_paren(s, i);
        let j = ident_end(s, i);
        lemma_skip_space(s, j);
        lemma_space_no_paren(s, j);
        let k = skip_space(s, j);
        if char_at(s, k, ':') {
            lemma_skip_space(s, k + 1);
            lemma_space_no_paren(s, k + 1);
            let m = skip_space(s, k + 1);
            lemma_ident_no_paren(s, m);
            assert(no_paren(s, i, j));
            assert(no_paren(s, j, k));
            assert(no_paren(s, k, k + 1));
            assert(no_paren(s, k + 1, m));
            assert(no_paren(s, m, e));
        }
    }
}

proof fn lemma_props_no_paren(s: Seq<char>, i: int, acc: Map<Seq<char>, SpecValue>)
    ensures
        props_at(s, i, acc) matches Ok((_, e)) ==> no_paren(s, i, e - 1) && s[e - 1] == ')',
    decreases s.len() - i,
{
    if let Ok((p, j)) = prop_at(s, i) {
        lemma_prop_at(s, i);
        lemma_prop_no_paren(s, i);
        lemma_skip_space(s, j);
        lemma_space_no_paren(s, j);
        let r = skip_space(s, j);
        if char_at(s, r, ',') {
            lemma_skip_space(s, r + 1);
            lemma_space_no_paren(s, r + 1);
            let next = skip_space(s, r + 1);
            lemma_props_no_paren(s, next, acc.insert(p.0, p.1));
            lemma_props_at(s, next, acc.insert(p.0, p.1));
            if let Ok((_, e)) = props_at(s, i, acc) {
                assert(no_paren(s, i, j));
                assert(no_paren(s, j, r));
                assert(no_paren(s, r, r + 1));
                assert(no_paren(s, r + 1, next));
                assert(no_paren(s, next, e - 1));
            }
        }
    }
}

proof fn lemma_fact_matched(s: Seq<char>, i: int)
    ensures
        fact_at(s, i) matches Ok((_, e)) ==> parens_matched(s, i, e),
{
    if let Ok((_, e)) = fact_at(s, i) {
        lemma_ident_end(s, i);
        lemma_ident_no_paren(s, i);
        let j = ident_end(s, i);
        lemma_skip_space(s, j);
        lemma_space_no_paren(s, j);
        let k = skip_space(s, j);
        lemma_skip_space(s, k + 1);
        lemma_space_no_paren(s, k + 1);
        let p = skip_space(s, k + 1);
        if !char_at(s, p, ')') {
            lemma_props_no_paren(s, p, Map::empty());
            lemma_props_at(s, p, Map::empty());
        }
        assert(no_paren(s, i, k));
        assert(no_paren(s, k + 1, e - 1));
        assert(closes(s, k, e - 1));
        assert forall|q: int| i <= q < e && #[trigger] s[q] == ')' implies exists|m: int|
            i <= m && #[trigger] closes(s, m, q) by {
            assert(q == e - 1);
        }
    }
}

proof fn lemma_clauses_matched(s: Seq<char>, i: int, acc: Seq<SpecFact>)
    ensures
        clauses_at(s, i, acc) matches Ok((_, e)) ==> parens_matched(s, i, e),
    decreases s.len() - i,
{
    if let Ok((f, j)) = fact_at(s, i) {
        lemma_fact_at(s, i);
        lemma_fact_matched(s, i);
        lemma_skip_space(s, j);
        lemma_space_no_paren(s, j);
        let r = skip_space(s, j);
        if let Ok((_, e)) = clauses_at(s, i, acc) {
            if char_at(s, r, ',') {
                lemma_skip_space(s, r + 1);
                lemma_space_no_paren(s, r + 1);
                let next = skip_space(s, r + 1);
                lemma_clauses_matched(s, next, acc.push(f));
                lemma_clauses_at(s, next, acc.push(f));
                assert(no_paren(s, j, next));
                lemma_matched_join(s, i, j, next);
                lemma_matched_join(s, i, next, e);
            } else {
                assert(no_paren(s, j, e));
                lemma_matched_join(s, i, j, e);
            }
        }
    }
}

proof fn lemma_rule_matched(s: Seq<char>, i: int)
    ensures
        rule_at(s, i) matches Ok((_, e)) ==> parens_matched(s, i, e),
{
    if let Ok((_, j)) = fact_at(s, i) {
        lemma_fact_at(s, i);
        lemma_fact_matched(s, i);
        lemma_skip_space(s, j);
        lemma_space_no_paren(s, j);
        let k = skip_space(s, j);
        if let Ok((_, e)) = rule_at(s, i) {
            lemma_skip_space(s, k + 2);
            lemma_space_no_paren(s, k + 2);
            let p = skip_space(s, k + 2);
            lemma_clauses_matched(s, p, Seq::empty());
            lemma_clauses_at(s, p, Seq::empty());
            assert(no_paren(s, j, p));
            lemma_matched_join(s, i, j, p);
            lemma_matched_join(s, i, p, e);
        }
    }
}

proof fn lemma_rules_matched(s: Seq<char>, i: int, acc: Seq<SpecRule>)
    requires
        0 <= i <= s.len(),
        rules_at(s, i, acc) is Ok,
    ensures
        parens_matched(s, i, s.len() as int),
    decreases s.len() - i,
{
    if i < s.len() {
        lemma_rule_at(s, i);
        lemma_rule_matched(s, i);
        let (r, j) = rule_at(s, i)->Ok_0;
        lemma_skip_space(s, j);
        lemma_space_no_paren(s, j);
        let next = skip_space(s, j);
        lemma_rules_matched(s, next, acc.push(r));
        lemma_matched_join(s, i, j, next);
        lemma_matched_join(s, i, next, s.len() as int);
    }
}

/// In a text that parses as a program, every `)` closes a `(` before it, with
/// no parenthesis between them: a text with an unmatched `)` is rejected.
pub proof fn law_parens_matched(s: Seq<char>)
    ensures
        program_of(s) is Ok ==> parens_matched(s, 0, s.len() as int),
{
    if program_of(s) is Ok {
        lemma_skip_space(s, 0);
        lemma_space_no_paren(s, 0);
        let i = skip_space(s, 0);
        lemma_rules_matched(s, i, Seq::empty());
        lemma_matched_join(s, 0, i, s.len() as int);
    }
}

/// A parse result read at positions moved `d` further on: the same value, and
/// the end or the error position moved by `d`.
pub open spec fn shifted<T>(r: Result<(T, int), SyntaxError>, d: int) -> Result<(T, int), SyntaxError> {
    match r {
        Ok((v, e)) => Ok((v, e + d)),
        Err(x) => Err(fail(x.pos + d, x.expected, x.label)),
    }
}

proof fn lemma_ident_end_shift(a: Seq<char>, b: Seq<char>, k: int)
    requires
        0 <= k <= b.len(),
    ensures
        ident_end(a + b, a.len() + k) == a.len() + ident_end(b, k),
    decreases b.len() - k,
{
    if k < b.len() {
        assert((a + b)[a.len() + k] == b[k]);
        if is_ident_char(b[k]) {
            lemma_ident_end_shift(a, b, k + 1);
        }
    }
}

/// The facts that moving every position of a parse by `a.len()` needs at position `k` of `b`.
proof fn lemma_shift_at(a: Seq<char>, b: Seq<char>, k: int)
    requires
        0 <= k <= b.len(),
    ensures
        skip_space(a + b, a.len() + k) == a.len() + skip_space(b, k),
        ident_end(a + b, a.len() + k) == a.len() + ident_end(b, k),
        starts_ident(a + b, a.len() + k) == starts_ident(b, k),
        forall|c: char| #[trigger] char_at(a + b, a.len() + k, c) == char_at(b, k, c),
        (a + b).subrange(a.len() + k, a.len() + ident_end(b, k)) == b.subrange(k, ident_end(b, k)),
{
    lemma_skip_space_shift(a, b, k);
    lemma_ident_end_shift(a, b, k);
    lemma_ident_end(b, k);
    if k < b.len() {
        assert((a + b)[a.len() + k] == b[k]);
    }
    assert((a + b).subrange(a.len() + k, a.len() + ident_end(b, k)) =~= b.subrange(k, ident_end(b, k)));
}

proof fn lemma_value_shift(a: Seq<char>, b: Seq<char>, i: int)
    requires
        0 <= i <= b.len(),
        (a + b).len() <= usize::MAX,
    ensures
        value_at(a + b, a.len() + i) == shifted(value_at(b, i), a.len() as int),
{
    lemma_shift_at(a, b, i);
}

proof fn lemma_prop_shift(a: Seq<char>, b: Seq<char>, i: int)
    requires
        0 <= i <= b.len(),
        (a + b).len() <= usize::MAX,
    ensures
        prop_at(a + b, a.len() + i) == shifted(prop_at(b, i), a.len() as int),
{
    lemma_shift_at(a, b, i);
    if starts_ident(b, i) {
        let j = ident_end(b, i);
        lemma_ident_end(b, i);
        lemma_shift_at(a, b, j);
        let k = skip_space(b, j);
        lemma_skip_space(b, j);
        if char_at(b, k, ':') {
            lemma_skip_space(b, k + 1);
            lemma_shift_at(a, b, k + 1);
            lemma_value_shift(a, b, skip_space(b, k + 1));
        }
    }
}

proof fn lemma_props_shift(a: Seq<char>, b: Seq<char>, i: int, acc: Map<Seq<char>, SpecValue>)
    requires
        0 <= i <= b.len(),
        (a + b).len() <= usize::MAX,
    ensures
        props_at(a + b, a.len() + i, acc) == shifted(props_at(b, i, acc), a.len() as int),
    decreases b.len() - i,
{
    lemma_prop_shift(a, b, i);
    lemma_prop_at(b, i);
    if let Ok((p, j)) = prop_at(b, i) {
        lemma_shift_at(a, b, j);
        lemma_skip_space(b, j);
        let r = skip_space(b, j);
        if char_at(b, r, ',') {
            lemma_skip_space(b, r + 1);
            lemma_shift_at(a, b, r + 1);
            lemma_props_shift(a, b, skip_space(b, r + 1), acc.insert(p.0, p.1));
        }
    }
}

proof fn lemma_fact_shift(a: Seq<char>, b: Seq<char>, i: int)
    requires
        0 <= i <= b.len(),
        (a + b).len() <= usize::MAX,
    ensures
        fact_at(a + b, a.len() + i) == shifted(fact_at(b, i), a.len() as int),
{
    lemma_shift_at(a, b, i);
    if starts_ident(b, i) {
        let j = ident_end(b, i);
        lemma_ident_end(b, i);
        lemma_shift_at(a, b, j);
        let k = skip_space(b, j);
        lemma_skip_space(b, j);
        if char_at(b, k, '(') {
            lemma_skip_space(b, k + 1);
            lemma_shift_at(a, b, k + 1);
            let p = skip_space(b, k + 1);
            lemma_shift_at(a, b, p);
            lemma_props_shift(a, b, p, Map::empty());
        }
    }
}

proof fn lemma_clauses_shift(a: Seq<char>, b: Seq<char>, i: int, acc: Seq<SpecFact>)
    requires
        0 <= i <= b.len(),
        (a + b).len() <= usize::MAX,
    ensures
        clauses_at(a + b, a.len() + i, acc) == shifted(clauses_at(b, i, acc), a.len() as int),
    decreases b.len() - i,
{
    lemma_fact_shift(a, b, i);
    lemma_fact_at(b, i);
    if let Ok((f, j)) = fact_at(b, i) {
        lemma_shift_at(a, b, j);
        lemma_skip_space(b, j);
        let r = skip_space(b, j);
        if char_at(b, r, ',') {
            lemma_skip_space(b, r + 1);
            lemma_shift_at(a, b, r + 1);
            lemma_clauses_shift(a, b, skip_space(b, r + 1), acc.push(f));
        }
    }
}

proof fn lemma_rule_shift(a: Seq<char>, b: Seq<char>, i: int)
    requires
        0 <= i <= b.len(),
        (a + b).len() <= usize::MAX,
    ensures
        rule_at(a + b, a.len() + i) == shifted(rule_at(b, i), a.len() as int),
{
    lemma_fact_shift(a, b, i);
    lemma_fact_at(b, i);
    if let Ok((_, j)) = fact_at(b, i) {
        lemma_shift_at(a, b, j);
        lemma_skip_space(b, j);
        let k = skip_space(b, j);
        if char_at(b, k, ':') {
            lemma_shift_at(a, b, k + 1);
        }
        if char_at(b, k, ':') && char_at(b, k + 1, '-') {
            lemma_skip_space(b, k + 2);
            lemma_shift_at(a, b, k + 2);
            lemma_clauses_shift(a, b, skip_space(b, k + 2), Seq::empty());
        }
    }
}

proof fn lemma_rules_shift(a: Seq<char>, b: Seq<char>, i: int, acc: Seq<SpecRule>)
    requires
        0 <= i <= b.len(),
        (a + b).len() <= usize::MAX,
    ensures
        rules_at(a + b, a.len() + i, acc) == match rules_at(b, i, acc) {
            Ok(rules) => Ok(rules),
            Err(x) => Err(fail(x.pos + a.len(), x.expected, x.label)),
        },
    decreases b.len() - i,
{
    if i < b.len() {
        lemma_rule_shift(a, b, i);
        lemma_rule_at(b, i);
        if let Ok((r, j)) = rule_at(b, i) {
            lemma_skip_space(b, j);
            lemma_shift_at(a, b, j);
            lemma_rules_shift(a, b, skip_space(b, j), acc.push(r));
        }
    }
}

proof fn lemma_skip_space_prefix(w: Seq<char>, s: Seq<char>, k: int)
    requires
        0 <= k <= w.len(),
        forall|q: int| 0 <= q < w.len() ==> is_space(#[trigger] w[q]),
    ensures
        skip_space(w + s, k) == skip_space(w + s, w.len() as int),
    decreases w.len() - k,
{
    if k < w.len() {
        assert((w + s)[k] == w[k]);
        lemma_skip_space_prefix(w, s, k + 1);
    }
}

/// White space before a program changes nothing but the positions of errors,
/// which move by its length.
pub proof fn law_leading_space(w: Seq<char>, s: Seq<char>)
    requires
        forall|q: int| 0 <= q < w.len() ==> is_space(#[trigger] w[q]),
        (w + s).len() <= usize::MAX,
    ensures
        program_of(w + s) == match program_of(s) {
            Ok(p) => Ok(p),
            Err(x) => Err(fail(x.pos + w.len(), x.expected, x.label)),
        },
{
    lemma_skip_space_prefix(w, s, 0);
    lemma_skip_space_shift(w, s, 0);
    lemma_skip_space(s, 0);
    lemma_rules_shift(w, s, skip_space(s, 0), Seq::empty());
}

} // verus!
