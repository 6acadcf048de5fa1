//! A map from names to values that keeps, for each name, the value stored last.
use crate::text::same_text;
use vstd::prelude::*;

verus! {

/// The map that a sequence of `(name, value)` entries stands for: a later entry for a
/// name replaces an earlier one.
pub open spec fn map_of<T>(es: Seq<(String, T)>) -> Map<Seq<char>, T>
    decreases es.len(),
{
    if es.len() == 0 {
        Map::empty()
    } else {
        map_of(es.drop_last()).insert(es.last().0@, es.last().1)
    }
}

pub open spec fn names_unique<T>(es: Seq<(String, T)>) -> bool {
    forall|i: int, j: int| 0 <= i < j < es.len() ==> es[i].0@ != es[j].0@
}

/// A map from names to values; storing under a name replaces what it held.
#[derive(Debug)]
pub struct Table<T> {
    entries: Vec<(String, T)>,
}

proof fn lemma_map_of_contains<T>(es: Seq<(String, T)>, i: int)
    requires
        names_unique(es),
        0 <= i < es.len(),
    ensures
        map_of(es).contains_key(es[i].0@),
        map_of(es)[es[i].0@] == es[i].1,
    decreases es.len(),
{
    if i < es.len() - 1 {
        lemma_map_of_contains(es.drop_last(), i);
    }
}

proof fn lemma_map_of_keys<T>(es: Seq<(String, T)>, k: Seq<char>)
    requires
        map_of(es).contains_key(k),
    ensures
        exists|i: int| 0 <= i < es.len() && es[i].0@ == k,
    decreases es.len(),
{
    if es.last().0@ != k {
        lemma_map_of_keys(es.drop_last(), k);
        let i = choose|i: int| 0 <= i < es.drop_last().len() && es.drop_last()[i].0@ == k;
        assert(es[i].0@ == k);
    }
}

proof fn lemma_map_of_len<T>(es: Seq<(String, T)>)
    requires
        names_unique(es),
    ensures
        map_of(es).dom().finite(),
        map_of(es).dom().len() == es.len(),
    decreases es.len(),
{
    if es.len() > 0 {
        let pre = es.drop_last();
        lemma_map_of_len(pre);
        if map_of(pre).contains_key(es.last().0@) {
            lemma_map_of_keys(pre, es.last().0@);
        }
    }
}

proof fn lemma_map_of_update<T>(es: Seq<(String, T)>, idx: int, e: (String, T))
    requires
        names_unique(es),
        0 <= idx < es.len(),
        es[idx].0@ == e.0@,
    ensures
        map_of(es.update(idx, e)) == map_of(es).insert(e.0@, e.1),
    decreases es.len(),
{
    let up = es.update(idx, e);
    assert(up.drop_last() =~= if idx == es.len() - 1 {
        es.drop_last()
    } else {
        es.drop_last().update(idx, e)
    });
    if idx < es.len() - 1 {
        lemma_map_of_update(es.drop_last(), idx, e);
        assert(es.last().0@ != e.0@);
    }
    assert(map_of(up) =~= map_of(es).insert(e.0@, e.1));
}

impl<T> Table<T> {
    #[verifier::type_invariant]
    spec fn inv(self) -> bool {
        names_unique(self.entries@)
    }

    pub closed spec fn view(&self) -> Map<Seq<char>, T> {
        map_of(self.entries@)
    }

    pub fn new() -> (r: Table<T>)
        ensures
            r@ == Map::<Seq<char>, T>::empty(),
    {
        Table { entries: Vec::new() }
    }

    fn find(&self, name: &str) -> (r: Option<usize>)
        ensures
            match r {
                Some(i) => i < self.entries@.len() && self.entries@[i as int].0@ == name@,
                None => forall|i: int|
                    0 <= i < self.entries@.len() ==> self.entries@[i].0@ != name@,
            },
    {
        let mut i: usize = 0;
        while i < self.entries.len()
            invariant
                i <= self.entries@.len(),
                forall|k: int| 0 <= k < i ==> self.entries@[k].0@ != name@,
            decreases self.entries.len() - i,
        {
            if same_text(self.entries[i].0.as_str(), name) {
                return Some(i);
            }
            i = i + 1;
        }
        None
    }

    /// Stores `value` under `name`, replacing what the name held.
    pub fn insert(&mut self, name: String, value: T)
        ensures
            final(self)@ == old(self)@.insert(name@, value),
    {
        proof {
            use_type_invariant(&*self);
        }
        let found = self.find(name.as_str());
        let mut taken = Table { entries: Vec::new() };
        core::mem::swap(self, &mut taken);
        proof {
            use_type_invariant(&taken);
        }
        let Table { entries: mut es } = taken;
        match found {
            Some(i) => {
                proof {
                    lemma_map_of_update(es@, i as int, (name, value));
                }
                es.set(i, (name, value));
            },
            None => {
                let ghost before = es@;
                es.push((name, value));
                proof {
                    assert(es@.drop_last() =~= before);
                }
            },
        }
        *self = Table { entries: es };
    }

    /// What `name` holds, if anything.
    pub fn get(&self, name: &str) -> (r: Option<&T>)
        ensures
            match r {
                Some(v) => self@.contains_key(name@) && *v == self@[name@],
                None => !self@.contains_key(name@),
            },
    {
        proof {
            use_type_invariant(self);
        }
        match self.find(name) {
            Some(i) => {
                proof {
                    lemma_map_of_contains(self.entries@, i as int);
                }
                Some(&self.entries[i].1)
            },
            None => {
                proof {
                    if self@.contains_key(name@) {
                        lemma_map_of_keys(self.entries@, name@);
                    }
                }
                None
            },
        }
    }

    /// How many names hold a value.
    pub fn len(&self) -> (r: usize)
        ensures
            self@.dom().finite(),
            r == self@.len(),
    {
        proof {
            use_type_invariant(self);
            lemma_map_of_len(self.entries@);
        }
        self.entries.len()
    }

    /// Every name with its value, each name once.
    pub fn entries(&self) -> (r: &Vec<(String, T)>)
        ensures
            r@.len() == self@.len(),
            names_unique(r@),
            forall|i: int|
                0 <= i < r@.len() ==> self@.contains_key(#[trigger] r@[i].0@) && self@[r@[i].0@]
                    == r@[i].1,
    {
        proof {
            use_type_invariant(self);
            lemma_map_of_len(self.entries@);
            assert forall|i: int| 0 <= i < self.entries@.len() implies self@.contains_key(
                #[trigger] self.entries@[i].0@,
            ) && self@[self.entries@[i].0@] == self.entries@[i].1 by {
                lemma_map_of_contains(self.entries@, i);
            }
        }
        &self.entries
    }
}

} // verus!
