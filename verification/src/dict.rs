//! Named tensors.
use crate::tensor::{Tensor, TensorModel};
use crate::text::{same_text, text_models};
use vstd::prelude::*;

verus! {

/// Tensors by name. No name occurs twice.
pub struct StateDict<S> {
    entries: Vec<(String, Tensor<S>)>,
}

spec fn names<S>(entries: Seq<(String, Tensor<S>)>) -> Seq<Seq<char>> {
    entries.map_values(|e: (String, Tensor<S>)| e.0@)
}

impl<S> View for StateDict<S> {
    type V = Map<Seq<char>, TensorModel<S>>;

    closed spec fn view(&self) -> Map<Seq<char>, TensorModel<S>> {
        Map::new(
            |key: Seq<char>| names(self.entries@).to_set().contains(key),
            |key: Seq<char>| self.entries@[names(self.entries@).index_of(key)].1@,
        )
    }
}

impl<S> StateDict<S> {
    #[verifier::type_invariant]
    spec fn wf(&self) -> bool {
        names(self.entries@).no_duplicates()
    }

    proof fn entry(&self, i: int)
        requires
            self.wf(),
            0 <= i < self.entries@.len(),
        ensures
            self@.dom().contains(self.entries@[i].0@),
            self@[self.entries@[i].0@] == self.entries@[i].1@,
    {
        let all = names(self.entries@);
        let key = self.entries@[i].0@;
        assert(all[i] == key);
        assert(all.contains(key));
        assert(all.index_of(key) == i);
    }

    /// A dictionary has finitely many entries, and their number can be counted.
    pub proof fn entries_are_countable(&self)
        ensures
            self@.dom().finite(),
            self@.dom().len() <= usize::MAX,
    {
        let all = names(self.entries@);
        all.lemma_cardinality_of_set();
        vstd::seq_lib::seq_to_set_is_finite(all);
        assert(self@.dom() =~= all.to_set());
        assert(self.entries.len() <= usize::MAX);
    }

    /// A dictionary without entries.
    pub fn new() -> (r: StateDict<S>)
        ensures
            r@ == Map::<Seq<char>, TensorModel<S>>::empty(),
    {
        let r = StateDict { entries: Vec::new() };
        assert(r@ =~= Map::<Seq<char>, TensorModel<S>>::empty());
        r
    }

    /// The number of entries.
    pub fn len(&self) -> (r: usize)
        ensures
            r == self@.dom().len(),
            self@.dom().finite(),
    {
        proof {
            use_type_invariant(self);
            let all = names(self.entries@);
            all.unique_seq_to_set();
            assert(self@.dom() =~= all.to_set());
        }
        self.entries.len()
    }

    pub fn is_empty(&self) -> (r: bool)
        ensures
            r == (self@.dom().len() == 0),
            self@.dom().finite(),
    {
        self.len() == 0
    }

    fn find(&self, key: &str) -> (r: Option<usize>)
        ensures
            match r {
                Some(i) => i < self.entries@.len() && self.entries@[i as int].0@ == key@,
                None => !self@.dom().contains(key@),
            },
    {
        let mut i: usize = 0;
        while i < self.entries.len()
            invariant
                i <= self.entries@.len(),
                forall|j: int| 0 <= j < i ==> self.entries@[j].0@ != key@,
            decreases self.entries@.len() - i,
        {
            if same_text(self.entries[i].0.as_str(), key) {
                return Some(i);
            }
            i = i + 1;
        }
        None
    }

    pub fn contains_key(&self, key: &str) -> (r: bool)
        ensures
            r == self@.dom().contains(key@),
    {
        match self.find(key) {
            Some(i) => {
                proof {
                    use_type_invariant(self);
                    self.entry(i as int);
                }
                true
            },
            None => false,
        }
    }

    /// The tensor under `key`.
    pub fn get(&self, key: &str) -> (r: Option<&Tensor<S>>)
        ensures
            match r {
                Some(tensor) => self@.dom().contains(key@) && tensor@ == self@[key@],
                None => !self@.dom().contains(key@),
            },
    {
        match self.find(key) {
            Some(i) => {
                proof {
                    use_type_invariant(self);
                    self.entry(i as int);
                }
                Some(&self.entries[i].1)
            },
            None => None,
        }
    }

    /// Puts `tensor` under `key`, in place of a tensor that is already there.
    pub fn insert(&mut self, key: String, tensor: Tensor<S>)
        ensures
            final(self)@ == old(self)@.insert(key@, tensor@),
    {
        proof {
            use_type_invariant(&*self);
        }
        let found: Option<usize> = self.find(key.as_str());
        let mut entries: Vec<(String, Tensor<S>)> = Vec::new();
        let ghost before = *self;
        std::mem::swap(&mut entries, &mut self.entries);
        match found {
            Some(i) => {
                proof {
                    before.entry(i as int);
                }
                entries.set(i, (key, tensor));
                assert(names(entries@) =~= names(before.entries@));
            },
            None => {
                let ghost all = names(before.entries@);
                entries.push((key, tensor));
                assert(names(entries@) =~= all.push(key@));
                assert(!all.contains(key@));
            },
        }
        let ghost after = StateDict { entries };
        assert(names(after.entries@).no_duplicates());
        assert(after@ =~= before@.insert(key@, tensor@)) by {
            let all = names(after.entries@);
            assert forall|k: Seq<char>|
                after@.dom().contains(k) <==> #[trigger] before@.insert(
                    key@,
                    tensor@,
                ).dom().contains(k) by {
                if names(before.entries@).contains(k) {
                    let j = names(before.entries@).index_of(k);
                    assert(all[j] == k);
                }
                if all.contains(k) {
                    let j = all.index_of(k);
                    if j < before.entries@.len() {
                        assert(names(before.entries@)[j] == all[j]);
                    }
                }
                if k == key@ {
                    match found {
                        Some(i) => assert(all[i as int] == k),
                        None => assert(all[before.entries@.len() as int] == k),
                    }
                }
            }
            assert forall|k: Seq<char>| after@.dom().contains(k) implies after@[k]
                == #[trigger] before@.insert(key@, tensor@)[k] by {
                let j = all.index_of(k);
                assert(all.contains(k));
                after.entry(j);
                assert(all[j] == k);
                if k != key@ {
                    assert(j < before.entries@.len());
                    before.entry(j);
                    assert(after.entries@[j] == before.entries@[j]);
                } else {
                    match found {
                        Some(i) => assert(all[i as int] == k),
                        None => assert(all[before.entries@.len() as int] == k),
                    }
                    assert(after.entries@[j].1 == tensor);
                }
            }
        }
        self.entries = entries;
    }

    /// The names, in the order in which they were first put in.
    pub fn keys(&self) -> (r: Vec<String>)
        ensures
            r@.len() == self@.dom().len(),
            text_models(r@).no_duplicates(),
            text_models(r@).to_set() == self@.dom(),
            forall|key: Seq<char>| self@.dom().contains(key) <==> exists|i: int|
                0 <= i < r@.len() && #[trigger] r@[i]@ == key,
    {
        proof {
            use_type_invariant(self);
        }
        let mut out: Vec<String> = Vec::new();
        let mut i: usize = 0;
        while i < self.entries.len()
            invariant
                i <= self.entries@.len(),
                out@.len() == i,
                forall|j: int| 0 <= j < i ==> #[trigger] out@[j]@ == self.entries@[j].0@,
            decreases self.entries@.len() - i,
        {
            out.push(self.entries[i].0.as_str().to_owned());
            i = i + 1;
        }
        proof {
            names(self.entries@).unique_seq_to_set();
            assert(self@.dom() =~= names(self.entries@).to_set());
            assert(text_models(out@) =~= names(self.entries@));
        }
        assert forall|key: Seq<char>| self@.dom().contains(key) implies exists|j: int|
            0 <= j < out@.len() && #[trigger] out@[j]@ == key by {
            let j = names(self.entries@).index_of(key);
            assert(out@[j]@ == key);
        }
        assert forall|key: Seq<char>|
            (exists|j: int| 0 <= j < out@.len() && #[trigger] out@[j]@ == key) implies self@.dom().contains(
            key,
        ) by {
            let j = choose|j: int| 0 <= j < out@.len() && #[trigger] out@[j]@ == key;
            self.entry(j);
        }
        out
    }
}

impl<S: Copy> Clone for StateDict<S> {
    fn clone(&self) -> (r: Self)
        ensures
            r@ == self@,
    {
        proof {
            use_type_invariant(self);
        }
        let mut entries: Vec<(String, Tensor<S>)> = Vec::new();
        let mut i: usize = 0;
        while i < self.entries.len()
            invariant
                i <= self.entries@.len(),
                entries@.len() == i,
                forall|j: int|
                    0 <= j < i ==> #[trigger] entries@[j].0@ == self.entries@[j].0@
                        && entries@[j].1@ == self.entries@[j].1@,
            decreases self.entries@.len() - i,
        {
            let name: String = self.entries[i].0.as_str().to_owned();
            let tensor: Tensor<S> = self.entries[i].1.duplicate();
            entries.push((name, tensor));
            i = i + 1;
        }
        assert(names(entries@) =~= names(self.entries@));
        let r = StateDict { entries };
        proof {
            assert forall|k: Seq<char>| r@.dom().contains(k) implies #[trigger] r@[k]
                == self@[k] by {
                let j = names(self.entries@).index_of(k);
                r.entry(j);
                self.entry(j);
            }
            assert(r@ =~= self@);
        }
        r
    }
}

} // verus!
