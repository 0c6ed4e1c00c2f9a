//! The abstract syntax of Percival programs, with a mathematical view of each node.
use vstd::prelude::*;

verus! {

/// A bound or unbound value assigned to part of a relation.
#[derive(Clone, Debug, PartialEq, Eq)]
pub enum Value {
    /// A simple identifier, which can be either bound or unbound.
    Id(String),
}

/// Mathematical view of a `Value`.
pub enum SpecValue {
    Id(Seq<char>),
}

impl View for Value {
    type V = SpecValue;

    open spec fn view(&self) -> SpecValue {
        match self {
            Value::Id(s) => SpecValue::Id(s@),
        }
    }
}

/// Literal part of a Horn clause, written in terms of relations.
///
/// The properties are kept as a list of name/value pairs in which every name
/// occurs at most once (see `Fact::wf`); the list is viewed as a map.
#[derive(Clone, Debug, PartialEq, Eq)]
pub struct Fact {
    /// Name of the relation being referenced.
    pub name: String,
    /// Named properties of the relation.
    pub props: Vec<(String, Value)>,
}

/// Mathematical view of a `Fact`: a relation name and a map of properties.
pub struct SpecFact {
    pub name: Seq<char>,
    pub props: Map<Seq<char>, SpecValue>,
}

/// The map that a list of properties stands for: each pair is inserted in
/// turn, so that a later pair with the same name wins.
pub open spec fn props_map(p: Seq<(String, Value)>) -> Map<Seq<char>, SpecValue>
    decreases p.len(),
{
    if p.len() == 0 {
        Map::empty()
    } else {
        props_map(p.drop_last()).insert(p.last().0@, p.last().1@)
    }
}

/// No two properties of the list share a name.
pub open spec fn names_unique(p: Seq<(String, Value)>) -> bool {
    forall|i: int, j: int| 0 <= i < j < p.len() ==> p[i].0@ != p[j].0@
}

impl View for Fact {
    type V = SpecFact;

    open spec fn view(&self) -> SpecFact {
        SpecFact { name: self.name@, props: props_map(self.props@) }
    }
}

/// Represents a single Horn clause.
#[derive(Clone, Debug, PartialEq, Eq)]
pub struct Rule {
    /// Head or implicand of the Horn clause.
    pub head: Fact,
    /// Tail or conditional assumptions of the Horn clause.
    pub clauses: Vec<Fact>,
}

/// Mathematical view of a `Rule`.
pub struct SpecRule {
    pub head: SpecFact,
    pub clauses: Seq<SpecFact>,
}

impl View for Rule {
    type V = SpecRule;

    open spec fn view(&self) -> SpecRule {
        SpecRule { head: self.head@, clauses: self.clauses@.map_values(|f: Fact| f@) }
    }
}

/// A program translation unit in the Percival language.
#[derive(Clone, Debug, PartialEq, Eq)]
pub struct Program {
    /// Rules that make up the program.
    pub rules: Vec<Rule>,
}

/// Mathematical view of a `Program`.
pub struct SpecProgram {
    pub rules: Seq<SpecRule>,
}

impl View for Program {
    type V = SpecProgram;

    open spec fn view(&self) -> SpecProgram {
        SpecProgram { rules: self.rules@.map_values(|r: Rule| r@) }
    }
}

impl Fact {
    /// Every property name occurs once in the list.
    pub open spec fn wf(&self) -> bool {
        names_unique(self.props@)
    }
}

impl Rule {
    /// The head and every clause are well formed.
    pub open spec fn wf(&self) -> bool {
        &&& self.head.wf()
        &&& forall|i: int| 0 <= i < self.clauses@.len() ==> (#[trigger] self.clauses@[i]).wf()
    }
}

impl Program {
    /// Every rule is well formed.
    pub open spec fn wf(&self) -> bool {
        forall|i: int| 0 <= i < self.rules@.len() ==> (#[trigger] self.rules@[i]).wf()
    }
}

} // verus!
