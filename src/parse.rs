//! The parser: executable functions that follow the grammar of `grammar`.
use vstd::prelude::*;
use crate::ast::{Value, Fact, SpecFact, Rule, SpecRule, Program, SpecProgram, props_map, names_unique};
use crate::grammar::{
    SyntaxError, Expected, Label, is_space, is_ident_start, is_ident_char, char_at, starts_ident,
    skip_space, ident_end, value_at, prop_at, props_at, fact_at, clauses_at, rule_at, rules_at,
    program_of, lemma_skip_space, lemma_ident_end, lemma_prop_at, lemma_fact_at,
    lemma_rule_at,
};
use crate::props::set_prop;
use vstd::std_specs::iter::IteratorSpec;

verus! {

/// The view of a parser's result: the view of what was parsed, with the
/// position after it, or the syntax error.
pub open spec fn lift<T: View>(r: Result<(T, usize), SyntaxError>) -> Result<(T::V, int), SyntaxError> {
    match r {
        Ok((t, e)) => Ok((t@, e as int)),
        Err(x) => Err(x),
    }
}

fn space_char(c: char) -> (r: bool)
    ensures
        r == is_space(c),
{
    let u = c as u32;
    (0x09 <= u && u <= 0x0d) || u == 0x20 || u == 0x85 || u == 0xa0 || u == 0x1680 || (0x2000
        <= u && u <= 0x200a) || u == 0x2028 || u == 0x2029 || u == 0x202f || u == 0x205f || u
        == 0x3000
}

fn ident_start_char(c: char) -> (r: bool)
    ensures
        r == is_ident_start(c),
{
    let u = c as u32;
    (0x41 <= u && u <= 0x5a) || (0x61 <= u && u <= 0x7a) || u == 0x5f
}

fn ident_char(c: char) -> (r: bool)
    ensures
        r == is_ident_char(c),
{
    let u = c as u32;
    ident_start_char(c) || (0x30 <= u && u <= 0x39)
}

/// The characters of `src`, in order.
fn chars_of(src: &str) -> (r: Vec<char>)
    ensures
        r@ == src@,
{
    broadcast use vstd::string::axiom_spec_iter, vstd::string::next_postcondition;

    let mut it = src.chars();
    let mut out: Vec<char> = Vec::new();
    loop
        invariant
            out@ + IteratorSpec::remaining(&it) == src@,
            IteratorSpec::decrease(&it) is Some,
        ensures
            out@ == src@,
        decreases IteratorSpec::decrease(&it)->0,
    {
        match it.next() {
            Some(c) => {
                out.push(c);
            },
            None => {
                assert(out@ =~= src@);
                break ;
            },
        }
    }
    out
}

/// Relies on std's `FromIterator<&char>` for `String`: the string made of the
/// given characters, in order.
#[verifier::external_body]
fn string_of(chars: &[char]) -> (r: String)
    ensures
        r@ == chars@,
{
    String::from_iter(chars)
}

fn has_char(s: &Vec<char>, i: usize, c: char) -> (r: bool)
    ensures
        r == char_at(s@, i as int, c),
        s@.len() <= usize::MAX,
{
    let n = s.len();
    i < n && s[i] == c
}

fn skip_spaces(s: &Vec<char>, i: usize) -> (r: usize)
    requires
        i <= s@.len(),
    ensures
        r as int == skip_space(s@, i as int),
        i <= r <= s@.len(),
{
    proof {
        lemma_skip_space(s@, i as int);
    }
    let mut j = i;
    while j < s.len() && space_char(s[j])
        invariant
            i <= j <= s@.len(),
            skip_space(s@, j as int) == skip_space(s@, i as int),
        decreases s@.len() - j,
    {
        j = j + 1;
    }
    j
}

/// The identifier that begins at `i`, which `starts_ident` asks for.
fn ident(s: &Vec<char>, i: usize) -> (r: (String, usize))
    requires
        starts_ident(s@, i as int),
    ensures
        r.1 as int == ident_end(s@, i as int),
        i < r.1 <= s@.len(),
        r.0@ == s@.subrange(i as int, r.1 as int),
{
    proof {
        lemma_ident_end(s@, i + 1);
    }
    let mut j = i;
    while j < s.len() && ident_char(s[j])
        invariant
            i <= j <= s@.len(),
            ident_end(s@, j as int) == ident_end(s@, i as int),
        decreases s@.len() - j,
    {
        j = j + 1;
    }
    (string_of(vstd::slice::slice_subrange(s.as_slice(), i, j)), j)
}

fn starts_ident_at(s: &Vec<char>, i: usize) -> (r: bool)
    ensures
        r == starts_ident(s@, i as int),
{
    i < s.len() && ident_start_char(s[i])
}

fn parse_value(s: &Vec<char>, i: usize) -> (r: Result<(Value, usize), SyntaxError>)
    ensures
        lift(r) == value_at(s@, i as int),
{
    if starts_ident_at(s, i) {
        let (name, j) = ident(s, i);
        Ok((Value::Id(name), j))
    } else {
        Err(SyntaxError { pos: i, expected: Expected::Ident, label: Label::Value })
    }
}

fn parse_prop(s: &Vec<char>, i: usize) -> (r: Result<((String, Value), usize), SyntaxError>)
    ensures
        lift(r) == prop_at(s@, i as int),
{
    if !starts_ident_at(s, i) {
        return Err(SyntaxError { pos: i, expected: Expected::Ident, label: Label::Prop });
    }
    let (name, j) = ident(s, i);
    let k = skip_spaces(s, j);
    if has_char(s, k, ':') {
        match parse_value(s, skip_spaces(s, k + 1)) {
            Ok((v, e)) => Ok(((name, v), e)),
            Err(x) => Err(x),
        }
    } else {
        let v = Value::Id(name.clone());
        Ok(((name, v), j))
    }
}

fn parse_fact(s: &Vec<char>, i: usize) -> (r: Result<(Fact, usize), SyntaxError>)
    ensures
        lift(r) == fact_at(s@, i as int),
        r matches Ok((f, _)) ==> f.wf(),
{
    if !starts_ident_at(s, i) {
        return Err(SyntaxError { pos: i, expected: Expected::Ident, label: Label::Fact });
    }
    let (name, j) = ident(s, i);
    let k = skip_spaces(s, j);
    if !has_char(s, k, '(') {
        return Err(SyntaxError { pos: k, expected: Expected::OpenParen, label: Label::Fact });
    }
    let p = skip_spaces(s, k + 1);
    let mut props: Vec<(String, Value)> = Vec::new();
    if has_char(s, p, ')') {
        assert(props_map(props@) =~= Map::empty());
        return Ok((Fact { name, props }, p + 1));
    }
    let ghost start = p;
    let mut pos = p;
    loop
        invariant
            pos <= s@.len(),
            i < j <= s@.len(),
            names_unique(props@),
            name@ == s@.subrange(i as int, j as int),
            props_at(s@, start as int, Map::empty()) == props_at(s@, pos as int, props_map(props@)),
            fact_at(s@, i as int) == match props_at(s@, start as int, Map::empty()) {
                Ok((m, e)) => Ok((SpecFact { name: name@, props: m }, e)),
                Err(x) => Err(x),
            },
        decreases s@.len() - pos,
    {
        proof {
            lemma_prop_at(s@, pos as int);
        }
        match parse_prop(s, pos) {
            Err(x) => return Err(x),
            Ok((entry, q)) => {
                let ghost acc = props_map(props@);
                set_prop(&mut props, entry);
                let r = skip_spaces(s, q);
                if has_char(s, r, ',') {
                    pos = skip_spaces(s, r + 1);
                } else if has_char(s, r, ')') {
                    return Ok((Fact { name, props }, r + 1));
                } else {
                    return Err(
                        SyntaxError { pos: r, expected: Expected::CommaOrCloseParen, label: Label::Fact },
                    );
                }
            },
        }
    }
}

fn parse_rule(s: &Vec<char>, i: usize) -> (r: Result<(Rule, usize), SyntaxError>)
    ensures
        lift(r) == rule_at(s@, i as int),
        r matches Ok((rule, _)) ==> rule.wf(),
{
    let head = match parse_fact(s, i) {
        Err(x) => return Err(x),
        Ok((head, j)) => {
            proof {
                lemma_fact_at(s@, i as int);
            }
            let k = skip_spaces(s, j);
            if !(has_char(s, k, ':') && has_char(s, k + 1, '-')) {
                return Err(SyntaxError { pos: k, expected: Expected::Turnstile, label: Label::Rule });
            }
            (head, skip_spaces(s, k + 2))
        },
    };
    let (head, start) = head;
    let mut clauses: Vec<Fact> = Vec::new();
    let mut pos = start;
    assert(clauses@.map_values(|f: Fact| f@) =~= Seq::<SpecFact>::empty());
    loop
        invariant
            start <= pos <= s@.len(),
            head.wf(),
            forall|c: int| 0 <= c < clauses@.len() ==> (#[trigger] clauses@[c]).wf(),
            clauses_at(s@, start as int, Seq::empty()) == clauses_at(
                s@,
                pos as int,
                clauses@.map_values(|f: Fact| f@),
            ),
            rule_at(s@, i as int) == match clauses_at(s@, start as int, Seq::empty()) {
                Ok((c, e)) => Ok((SpecRule { head: head@, clauses: c }, e)),
                Err(x) => Err(x),
            },
        decreases s@.len() - pos,
    {
        proof {
            lemma_fact_at(s@, pos as int);
        }
        match parse_fact(s, pos) {
            Err(x) => return Err(x),
            Ok((fact, q)) => {
                let ghost acc = clauses@.map_values(|f: Fact| f@);
                clauses.push(fact);
                assert(clauses@.map_values(|f: Fact| f@) =~= acc.push(fact@));
                let r = skip_spaces(s, q);
                if has_char(s, r, ',') {
                    pos = skip_spaces(s, r + 1);
                } else if has_char(s, r, '.') {
                    return Ok((Rule { head, clauses }, r + 1));
                } else {
                    return Err(SyntaxError { pos: r, expected: Expected::CommaOrDot, label: Label::Rule });
                }
            },
        }
    }
}

/// The view of the result of `parse`.
pub open spec fn lift_program(r: Result<Program, SyntaxError>) -> Result<SpecProgram, SyntaxError> {
    match r {
        Ok(p) => Ok(p@),
        Err(x) => Err(x),
    }
}

/// Parses a whole Percival program. The result is the program that the
/// grammar reads in `src`, or the first syntax error; on success every fact
/// of the program has unique property names.
pub fn parse(src: &str) -> (r: Result<Program, SyntaxError>)
    ensures
        lift_program(r) == program_of(src@),
        r matches Ok(p) ==> p.wf(),
{
    let s = chars_of(src);
    let start = skip_spaces(&s, 0);
    let mut rules: Vec<Rule> = Vec::new();
    let mut pos = start;
    assert(rules@.map_values(|r: Rule| r@) =~= Seq::<SpecRule>::empty());
    while pos < s.len()
        invariant
            s@ == src@,
            pos <= s@.len(),
            forall|c: int| 0 <= c < rules@.len() ==> (#[trigger] rules@[c]).wf(),
            program_of(s@) == match rules_at(s@, pos as int, rules@.map_values(|r: Rule| r@)) {
                Ok(rules) => Ok(SpecProgram { rules }),
                Err(x) => Err(x),
            },
        decreases s@.len() - pos,
    {
        proof {
            lemma_rule_at(s@, pos as int);
        }
        match parse_rule(&s, pos) {
            Err(x) => return Err(x),
            Ok((rule, q)) => {
                let ghost acc = rules@.map_values(|r: Rule| r@);
                rules.push(rule);
                assert(rules@.map_values(|r: Rule| r@) =~= acc.push(rule@));
                pos = skip_spaces(&s, q);
            },
        }
    }
    let p = Program { rules };
    assert(p.wf());
    Ok(p)
}

} // verus!
