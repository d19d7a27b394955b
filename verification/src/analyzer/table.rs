//! Name-keyed tables (symbol tables, function tables) whose model is a map
//! from names to the models of their values.
use crate::parser::ast::clone_string;
use vstd::prelude::*;

verus! {

/// Values with a mathematical model and a way to copy them that keeps it.
pub trait Modeled: Sized {
    type M;

    spec fn model(&self) -> Self::M;

    fn duplicate(&self) -> (r: Self)
        ensures
            r.model() == self.model(),
    ;
}

/// A table from names to values. Later entries for a name override earlier ones.
pub struct NameMap<V> {
    pub entries: Vec<(String, V)>,
}

pub open spec fn map_of<V: Modeled>(es: Seq<(String, V)>) -> Map<Seq<char>, V::M>
    decreases es.len(),
{
    if es.len() == 0 {
        Map::empty()
    } else {
        map_of(es.drop_last()).insert(es.last().0@, es.last().1.model())
    }
}

/// If no entry from `n` on has key `k`, the table agrees with its first `n`
/// entries at `k`.
proof fn lemma_map_of_suffix<V: Modeled>(es: Seq<(String, V)>, n: int, k: Seq<char>)
    requires
        0 <= n <= es.len(),
        forall|j: int| n <= j < es.len() ==> (#[trigger] es[j]).0@ != k,
    ensures
        map_of(es).contains_key(k) == map_of(es.take(n)).contains_key(k),
        map_of(es).contains_key(k) ==> map_of(es)[k] == map_of(es.take(n))[k],
    decreases es.len() - n,
{
    if n < es.len() {
        let es2 = es.take(es.len() - 1);
        assert(es.drop_last() =~= es2);
        assert forall|j: int| n <= j < es2.len() implies (#[trigger] es2[j]).0@ != k by {
            assert(es2[j] == es[j]);
        }
        lemma_map_of_suffix(es2, n, k);
        assert(es2.take(n) =~= es.take(n));
    } else {
        assert(es.take(n) =~= es);
    }
}

impl<V: Modeled> NameMap<V> {
    pub open spec fn view(&self) -> Map<Seq<char>, V::M> {
        map_of(self.entries@)
    }

    pub fn new() -> (r: Self)
        ensures
            r.view() == Map::<Seq<char>, V::M>::empty(),
    {
        NameMap { entries: Vec::new() }
    }

    /// The index of the entry that defines `name`, if any.
    fn find(&self, name: &String) -> (r: Option<usize>)
        ensures
            r matches Some(i) ==> i < self.entries.len() && self.entries@[i as int].0@ == name@
                && self.view().contains_key(name@) && self.view()[name@] == self.entries@[i as int].1.model(),
            r is None ==> !self.view().contains_key(name@),
    {
        let mut i = self.entries.len();
        while i > 0
            invariant
                i <= self.entries.len(),
                forall|j: int| i <= j < self.entries.len() ==> (#[trigger] self.entries@[j]).0@ != name@,
            decreases i,
        {
            if self.entries[i - 1].0 == *name {
                proof {
                    let es = self.entries@;
                    lemma_map_of_suffix(es, i as int, name@);
                    let pre = es.take(i as int);
                    assert(pre.drop_last() =~= es.take(i - 1));
                    assert(pre.last() == es[i - 1]);
                }
                return Some(i - 1);
            }
            i -= 1;
        }
        proof {
            lemma_map_of_suffix(self.entries@, 0, name@);
            assert(self.entries@.take(0) =~= Seq::<(String, V)>::empty());
        }
        None
    }

    /// The value for `name`, if it has one.
    pub fn get(&self, name: &String) -> (r: Option<&V>)
        ensures
            r matches Some(v) ==> self.view().contains_key(name@) && self.view()[name@] == v.model(),
            r is None ==> !self.view().contains_key(name@),
    {
        match self.find(name) {
            Some(i) => Some(&self.entries[i].1),
            None => None,
        }
    }

    pub fn contains_key(&self, name: &String) -> (r: bool)
        ensures
            r == self.view().contains_key(name@),
    {
        self.find(name).is_some()
    }

    /// Binds `name` to `value`, replacing any earlier binding.
    pub fn insert(&mut self, name: String, value: V)
        ensures
            final(self).view() == old(self).view().insert(name@, value.model()),
    {
        let ghost old_es = self.entries@;
        self.entries.push((name, value));
        assert(self.entries@.drop_last() =~= old_es);
    }

    /// A copy of the table with the same model.
    pub fn duplicate(&self) -> (r: Self)
        ensures
            r.view() == self.view(),
    {
        let mut out: Vec<(String, V)> = Vec::new();
        let mut i: usize = 0;
        while i < self.entries.len()
            invariant
                i <= self.entries.len(),
                out.len() == i,
                map_of(out@) == map_of(self.entries@.take(i as int)),
            decreases self.entries.len() - i,
        {
            let e = (clone_string(&self.entries[i].0), self.entries[i].1.duplicate());
            let ghost before = out@;
            out.push(e);
            proof {
                assert(out@.drop_last() =~= before);
                let t = self.entries@.take(i + 1);
                assert(t.drop_last() =~= self.entries@.take(i as int));
                assert(t.last() == self.entries@[i as int]);
            }
            i += 1;
        }
        assert(self.entries@.take(self.entries.len() as int) =~= self.entries@);
        NameMap { entries: out }
    }
}

} // verus!

verus! {

impl Modeled for crate::parser::ast::TypeNode {
    type M = crate::parser::ast::TypeModel;

    open spec fn model(&self) -> crate::parser::ast::TypeModel {
        crate::parser::ast::TypeNode::model(*self)
    }

    fn duplicate(&self) -> (r: Self) {
        crate::parser::ast::TypeNode::duplicate(self)
    }
}

} // verus!
