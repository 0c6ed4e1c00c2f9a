//! Property lists with unique names, and the map each one stands for.
use vstd::prelude::*;
use crate::ast::{Value, Fact, props_map, names_unique};

verus! {

pub proof fn lemma_props_map_push(p: Seq<(String, Value)>, e: (String, Value))
    requires
        names_unique(p),
        forall|i: int| 0 <= i < p.len() ==> (#[trigger] p[i]).0@ != e.0@,
    ensures
        names_unique(p.push(e)),
        props_map(p.push(e)) == props_map(p).insert(e.0@, e.1@),
{
    assert(p.push(e).drop_last() =~= p);
}

pub proof fn lemma_props_map_update(p: Seq<(String, Value)>, i: int, e: (String, Value))
    requires
        names_unique(p),
        0 <= i < p.len(),
        p[i].0@ == e.0@,
    ensures
        names_unique(p.update(i, e)),
        props_map(p.update(i, e)) == props_map(p).insert(e.0@, e.1@),
    decreases p.len(),
{
    let q = p.update(i, e);
    let n = p.len() - 1;
    if i == n {
        assert(q.drop_last() =~= p.drop_last());
        assert(props_map(q) =~= props_map(p).insert(e.0@, e.1@));
    } else {
        assert(q.drop_last() =~= p.drop_last().update(i, e));
        lemma_props_map_update(p.drop_last(), i, e);
        assert(p[i].0@ != p[n].0@);
        assert(props_map(q) =~= props_map(p).insert(e.0@, e.1@));
    }
}

pub proof fn lemma_props_map_index(p: Seq<(String, Value)>, i: int)
    requires
        names_unique(p),
        0 <= i < p.len(),
    ensures
        props_map(p).contains_key(p[i].0@),
        props_map(p)[p[i].0@] == p[i].1@,
    decreases p.len(),
{
    if i < p.len() - 1 {
        lemma_props_map_index(p.drop_last(), i);
        assert(p[i].0@ != p[p.len() - 1].0@);
    }
}

pub proof fn lemma_props_map_absent(p: Seq<(String, Value)>, k: Seq<char>)
    requires
        forall|i: int| 0 <= i < p.len() ==> (#[trigger] p[i]).0@ != k,
    ensures
        !props_map(p).contains_key(k),
    decreases p.len(),
{
    if p.len() > 0 {
        lemma_props_map_absent(p.drop_last(), k);
        assert(p[p.len() - 1].0@ != k);
    }
}

/// Sets the property `e.0` to `e.1`: an existing property of that name gets
/// the new value in place, else the pair is added at the end.
pub fn set_prop(props: &mut Vec<(String, Value)>, e: (String, Value))
    requires
        names_unique(old(props)@),
    ensures
        names_unique(final(props)@),
        props_map(final(props)@) == props_map(old(props)@).insert(e.0@, e.1@),
{
    let mut i: usize = 0;
    while i < props.len()
        invariant
            i <= props@.len(),
            names_unique(props@),
            props@ == old(props)@,
            forall|j: int| 0 <= j < i ==> (#[trigger] props@[j]).0@ != e.0@,
        decreases props@.len() - i,
    {
        if props[i].0 == e.0 {
            proof {
                lemma_props_map_update(props@, i as int, e);
            }
            props[i] = e;
            return;
        }
        i = i + 1;
    }
    proof {
        lemma_props_map_push(props@, e);
    }
    props.push(e);
}

impl Fact {
    /// The value of the property `key`, if the fact has one.
    pub fn get(&self, key: &str) -> (r: Option<&Value>)
        requires
            self.wf(),
        ensures
            r is Some <==> self@.props.contains_key(key@),
            r matches Some(v) ==> self@.props[key@] == v@,
    {
        let k = key.to_owned();
        let mut i: usize = 0;
        while i < self.props.len()
            invariant
                i <= self.props@.len(),
                k@ == key@,
                self.wf(),
                forall|j: int| 0 <= j < i ==> (#[trigger] self.props@[j]).0@ != key@,
            decreases self.props@.len() - i,
        {
            if self.props[i].0 == k {
                proof {
                    lemma_props_map_index(self.props@, i as int);
                }
                return Some(&self.props[i].1);
            }
            i = i + 1;
        }
        proof {
            lemma_props_map_absent(self.props@, key@);
        }
        None
    }
}

} // verus!
