//! The grammar of Percival, stated over the sequence of characters of a source
//! text, together with the syntax errors it reports.
//!
//! ```text
//! program := rule* EOF
//! rule    := fact ":-" fact ("," fact)* "."
//! fact    := ident "(" (prop ("," prop)*)? ")"
//! prop    := ident (":" value)?
//! value   := ident
//! ident   := [A-Za-z_][A-Za-z0-9_]*
//! ```
//!
//! White space may stand before and after every token.
use vstd::prelude::*;
use crate::ast::{SpecValue, SpecFact, SpecRule, SpecProgram};

verus! {

/// What the parser looked for where it failed.
#[derive(Clone, Copy, Debug, PartialEq, Eq, Structural)]
pub enum Expected {
    /// An identifier.
    Ident,
    /// An opening parenthesis after a relation name.
    OpenParen,
    /// A `,` before the next property, or the closing parenthesis.
    CommaOrCloseParen,
    /// The `:-` between the head of a rule and its clauses.
    Turnstile,
    /// A `,` before the next clause, or the `.` that ends the rule.
    CommaOrDot,
}

/// The grammar production being parsed where the parser failed.
#[derive(Clone, Copy, Debug, PartialEq, Eq, Structural)]
pub enum Label {
    Value,
    Prop,
    Fact,
    Rule,
}

/// A syntax error: the character position of the failure, what was expected
/// there, and the production being parsed.
#[derive(Clone, Copy, Debug, PartialEq, Eq, Structural)]
pub struct SyntaxError {
    pub pos: usize,
    pub expected: Expected,
    pub label: Label,
}

/// The word that names each production in error messages.
pub open spec fn label_text(l: Label) -> Seq<char> {
    match l {
        Label::Value => "value"@,
        Label::Prop => "prop"@,
        Label::Fact => "fact"@,
        Label::Rule => "rule"@,
    }
}

/// The tokens that each kind of failure expected, as written in error messages.
pub open spec fn expected_text(x: Expected) -> Seq<char> {
    match x {
        Expected::Ident => "ident"@,
        Expected::OpenParen => "("@,
        Expected::CommaOrCloseParen => ", or )"@,
        Expected::Turnstile => ":-"@,
        Expected::CommaOrDot => ", or ."@,
    }
}

impl Label {
    /// The name of the production, such as `fact`.
    pub fn name(&self) -> (r: &'static str)
        ensures
            r@ == label_text(*self),
    {
        match self {
            Label::Value => "value",
            Label::Prop => "prop",
            Label::Fact => "fact",
            Label::Rule => "rule",
        }
    }
}

impl Expected {
    /// The tokens that were expected, such as `ident` or `, or )`.
    pub fn tokens(&self) -> (r: &'static str)
        ensures
            r@ == expected_text(*self),
    {
        match self {
            Expected::Ident => "ident",
            Expected::OpenParen => "(",
            Expected::CommaOrCloseParen => ", or )",
            Expected::Turnstile => ":-",
            Expected::CommaOrDot => ", or .",
        }
    }
}

pub open spec fn fail(pos: int, expected: Expected, label: Label) -> SyntaxError {
    SyntaxError { pos: pos as usize, expected, label }
}

/// White space as Unicode's White_Space property lists it.
pub open spec fn is_space(c: char) -> bool {
    let u = c as u32;
    ||| 0x09 <= u <= 0x0d
    ||| u == 0x20
    ||| u == 0x85
    ||| u == 0xa0
    ||| u == 0x1680
    ||| 0x2000 <= u <= 0x200a
    ||| u == 0x2028
    ||| u == 0x2029
    ||| u == 0x202f
    ||| u == 0x205f
    ||| u == 0x3000
}

/// A character that may begin an identifier: an ASCII letter or `_`.
pub open spec fn is_ident_start(c: char) -> bool {
    let u = c as u32;
    ||| 0x41 <= u <= 0x5a
    ||| 0x61 <= u <= 0x7a
    ||| u == 0x5f
}

/// A character that may continue an identifier: an ASCII letter or digit, or `_`.
pub open spec fn is_ident_char(c: char) -> bool {
    is_ident_start(c) || 0x30 <= (c as u32) <= 0x39
}

/// `w` is an identifier.
pub open spec fn is_ident(w: Seq<char>) -> bool {
    &&& w.len() > 0
    &&& is_ident_start(w[0])
    &&& forall|k: int| 0 <= k < w.len() ==> is_ident_char(#[trigger] w[k])
}

/// `s` holds the character `c` at position `i`.
pub open spec fn char_at(s: Seq<char>, i: int, c: char) -> bool {
    0 <= i < s.len() && s[i] == c
}

/// An identifier begins at position `i`.
pub open spec fn starts_ident(s: Seq<char>, i: int) -> bool {
    0 <= i < s.len() && is_ident_start(s[i])
}

/// The first position at or after `i` that holds no white space.
pub open spec fn skip_space(s: Seq<char>, i: int) -> int
    decreases s.len() - i,
{
    if 0 <= i < s.len() && is_space(s[i]) {
        skip_space(s, i + 1)
    } else {
        i
    }
}

/// The first position at or after `i` that holds no identifier character.
pub open spec fn ident_end(s: Seq<char>, i: int) -> int
    decreases s.len() - i,
{
    if 0 <= i < s.len() && is_ident_char(s[i]) {
        ident_end(s, i + 1)
    } else {
        i
    }
}

/// `value := ident`, at position `i`; on success, the value and the position after it.
pub open spec fn value_at(s: Seq<char>, i: int) -> Result<(SpecValue, int), SyntaxError> {
    if starts_ident(s, i) {
        Ok((SpecValue::Id(s.subrange(i, ident_end(s, i))), ident_end(s, i)))
    } else {
        Err(fail(i, Expected::Ident, Label::Value))
    }
}

/// `prop := ident (":" value)?`, at position `i`. A property without a value
/// stands for the identifier value of its own name.
pub open spec fn prop_at(s: Seq<char>, i: int) -> Result<((Seq<char>, SpecValue), int), SyntaxError> {
    if !starts_ident(s, i) {
        Err(fail(i, Expected::Ident, Label::Prop))
    } else {
        let j = ident_end(s, i);
        let name = s.subrange(i, j);
        let k = skip_space(s, j);
        if char_at(s, k, ':') {
            match value_at(s, skip_space(s, k + 1)) {
                Ok((v, e)) => Ok(((name, v), e)),
                Err(x) => Err(x),
            }
        } else {
            Ok(((name, SpecValue::Id(name)), j))
        }
    }
}

/// The properties of a fact from the one at position `i` to the closing
/// parenthesis, inserted into `acc` in turn; on success, the map and the
/// position after the parenthesis.
pub open spec fn props_at(s: Seq<char>, i: int, acc: Map<Seq<char>, SpecValue>) -> Result<
    (Map<Seq<char>, SpecValue>, int),
    SyntaxError,
>
    decreases s.len() - i,
{
    match prop_at(s, i) {
        Err(x) => Err(x),
        Ok((p, j)) => {
            let m = acc.insert(p.0, p.1);
            let r = skip_space(s, j);
            if char_at(s, r, ',') {
                proof {
                    lemma_prop_at(s, i);
                    lemma_skip_space(s, j);
                    lemma_skip_space(s, r + 1);
                }
                props_at(s, skip_space(s, r + 1), m)
            } else if char_at(s, r, ')') {
                Ok((m, r + 1))
            } else {
                Err(fail(r, Expected::CommaOrCloseParen, Label::Fact))
            }
        },
    }
}

/// `fact := ident "(" (prop ("," prop)*)? ")"`, at position `i`.
pub open spec fn fact_at(s: Seq<char>, i: int) -> Result<(SpecFact, int), SyntaxError> {
    if !starts_ident(s, i) {
        Err(fail(i, Expected::Ident, Label::Fact))
    } else {
        let j = ident_end(s, i);
        let name = s.subrange(i, j);
        let k = skip_space(s, j);
        if !char_at(s, k, '(') {
            Err(fail(k, Expected::OpenParen, Label::Fact))
        } else {
            let p = skip_space(s, k + 1);
            if char_at(s, p, ')') {
                Ok((SpecFact { name, props: Map::empty() }, p + 1))
            } else {
                match props_at(s, p, Map::empty()) {
                    Ok((m, e)) => Ok((SpecFact { name, props: m }, e)),
                    Err(x) => Err(x),
                }
            }
        }
    }
}

/// The clauses of a rule from the one at position `i` to the final `.`,
/// appended to `acc`; on success, the clauses and the position after the `.`.
pub open spec fn clauses_at(s: Seq<char>, i: int, acc: Seq<SpecFact>) -> Result<
    (Seq<SpecFact>, int),
    SyntaxError,
>
    decreases s.len() - i,
{
    match fact_at(s, i) {
        Err(x) => Err(x),
        Ok((f, j)) => {
            let c = acc.push(f);
            let r = skip_space(s, j);
            if char_at(s, r, ',') {
                proof {
                    lemma_fact_at(s, i);
                    lemma_skip_space(s, j);
                    lemma_skip_space(s, r + 1);
                }
                clauses_at(s, skip_space(s, r + 1), c)
            } else if char_at(s, r, '.') {
                Ok((c, r + 1))
            } else {
                Err(fail(r, Expected::CommaOrDot, Label::Rule))
            }
        },
    }
}

/// `rule := fact ":-" fact ("," fact)* "."`, at position `i`.
pub open spec fn rule_at(s: Seq<char>, i: int) -> Result<(SpecRule, int), SyntaxError> {
    match fact_at(s, i) {
        Err(x) => Err(x),
        Ok((head, j)) => {
            let k = skip_space(s, j);
            if char_at(s, k, ':') && char_at(s, k + 1, '-') {
                match clauses_at(s, skip_space(s, k + 2), Seq::empty()) {
                    Ok((c, e)) => Ok((SpecRule { head, clauses: c }, e)),
                    Err(x) => Err(x),
                }
            } else {
                Err(fail(k, Expected::Turnstile, Label::Rule))
            }
        },
    }
}

/// The rules from position `i`, where no white space stands, to the end of
/// the text, appended to `acc`.
pub open spec fn rules_at(s: Seq<char>, i: int, acc: Seq<SpecRule>) -> Result<Seq<SpecRule>, SyntaxError>
    decreases s.len() - i,
{
    if i < 0 || i >= s.len() {
        Ok(acc)
    } else {
        match rule_at(s, i) {
            Err(x) => Err(x),
            Ok((r, j)) => {
                proof {
                    lemma_rule_at(s, i);
                    lemma_skip_space(s, j);
                }
                rules_at(s, skip_space(s, j), acc.push(r))
            },
        }
    }
}

/// `program := rule* EOF`: the whole text `s` read as a program.
pub open spec fn program_of(s: Seq<char>) -> Result<SpecProgram, SyntaxError> {
    match rules_at(s, skip_space(s, 0), Seq::empty()) {
        Ok(rules) => Ok(SpecProgram { rules }),
        Err(x) => Err(x),
    }
}

pub proof fn lemma_skip_space(s: Seq<char>, i: int)
    requires
        0 <= i <= s.len(),
    ensures
        i <= skip_space(s, i) <= s.len(),
        skip_space(s, i) < s.len() ==> !is_space(s[skip_space(s, i)]),
        forall|k: int| i <= k < skip_space(s, i) ==> is_space(#[trigger] s[k]),
    decreases s.len() - i,
{
    if i < s.len() && is_space(s[i]) {
        lemma_skip_space(s, i + 1);
    }
}

pub proof fn lemma_ident_end(s: Seq<char>, i: int)
    requires
        0 <= i <= s.len(),
    ensures
        i <= ident_end(s, i) <= s.len(),
    decreases s.len() - i,
{
    if i < s.len() && is_ident_char(s[i]) {
        lemma_ident_end(s, i + 1);
    }
}

pub proof fn lemma_prop_at(s: Seq<char>, i: int)
    ensures
        prop_at(s, i) matches Ok((_, e)) ==> 0 <= i < e <= s.len(),
{
    if starts_ident(s, i) {
        lemma_ident_end(s, i + 1);
        let j = ident_end(s, i);
        lemma_skip_space(s, j);
        let k = skip_space(s, j);
        if char_at(s, k, ':') {
            lemma_skip_space(s, k + 1);
            let m = skip_space(s, k + 1);
            if starts_ident(s, m) {
                lemma_ident_end(s, m + 1);
            }
        }
    }
}

pub proof fn lemma_props_at(s: Seq<char>, i: int, acc: Map<Seq<char>, SpecValue>)
    ensures
        props_at(s, i, acc) matches Ok((_, e)) ==> 0 <= i < e <= s.len(),
    decreases s.len() - i,
{
    lemma_prop_at(s, i);
    if let Ok((p, j)) = prop_at(s, i) {
        lemma_skip_space(s, j);
        let r = skip_space(s, j);
        if char_at(s, r, ',') {
            lemma_skip_space(s, r + 1);
            lemma_props_at(s, skip_space(s, r + 1), acc.insert(p.0, p.1));
        }
    }
}

pub proof fn lemma_fact_at(s: Seq<char>, i: int)
    ensures
        fact_at(s, i) matches Ok((_, e)) ==> 0 <= i < e <= s.len(),
{
    if starts_ident(s, i) {
        lemma_ident_end(s, i + 1);
        let j = ident_end(s, i);
        lemma_skip_space(s, j);
        let k = skip_space(s, j);
        if char_at(s, k, '(') {
            lemma_skip_space(s, k + 1);
            lemma_props_at(s, skip_space(s, k + 1), Map::empty());
        }
    }
}

pub proof fn lemma_clauses_at(s: Seq<char>, i: int, acc: Seq<SpecFact>)
    ensures
        clauses_at(s, i, acc) matches Ok((_, e)) ==> 0 <= i < e <= s.len(),
    decreases s.len() - i,
{
    lemma_fact_at(s, i);
    if let Ok((f, j)) = fact_at(s, i) {
        lemma_skip_space(s, j);
        let r = skip_space(s, j);
        if char_at(s, r, ',') {
            lemma_skip_space(s, r + 1);
            lemma_clauses_at(s, skip_space(s, r + 1), acc.push(f));
        }
    }
}

pub proof fn lemma_rule_at(s: Seq<char>, i: int)
    ensures
        rule_at(s, i) matches Ok((_, e)) ==> 0 <= i < e <= s.len(),
{
    lemma_fact_at(s, i);
    if let Ok((_, j)) = fact_at(s, i) {
        lemma_skip_space(s, j);
        let k = skip_space(s, j);
        if char_at(s, k, ':') && char_at(s, k + 1, '-') {
            lemma_skip_space(s, k + 2);
            lemma_clauses_at(s, skip_space(s, k + 2), Seq::empty());
        }
    }
}

} // verus!
