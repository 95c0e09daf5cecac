use crate::assoc::{
    lemma_map_of_pairs_absent, lemma_map_of_pairs_card, lemma_map_of_pairs_get,
    lemma_map_of_pairs_update, map_of_pairs, unique_keys,
};
use crate::text::str_eq;
use vstd::prelude::*;

verus! {

/// A name-to-value mapping with case-preserved names, as requests and
/// responses carry for their headers: insertion order is kept, a repeated
/// insertion overwrites in place.
#[derive(Debug)]
pub struct HeaderMap {
    entries: Vec<(String, String)>,
}

impl View for HeaderMap {
    type V = Map<Seq<char>, Seq<char>>;

    open spec fn view(&self) -> Map<Seq<char>, Seq<char>> {
        map_of_pairs(self.entries_spec())
    }
}

impl HeaderMap {
    /// The pairs held, in insertion order.
    pub closed spec fn entries_spec(&self) -> Seq<(Seq<char>, Seq<char>)> {
        self.entries@.map_values(|e: (String, String)| (e.0@, e.1@))
    }

    #[verifier::type_invariant]
    spec fn wf(&self) -> bool {
        unique_keys(self.entries_spec())
    }

    /// An empty mapping.
    pub fn new() -> (r: Self)
        ensures
            r@ == Map::<Seq<char>, Seq<char>>::empty(),
            r.entries_spec() == Seq::<(Seq<char>, Seq<char>)>::empty(),
    {
        let r = HeaderMap { entries: Vec::new() };
        proof {
            assert(r.entries_spec() =~= Seq::<(Seq<char>, Seq<char>)>::empty());
        }
        r
    }

    /// How many names are held.
    pub fn len(&self) -> (r: usize)
        ensures
            r == self.entries_spec().len(),
            r == self@.dom().len(),
    {
        proof {
            use_type_invariant(self);
            lemma_map_of_pairs_card(self.entries_spec());
        }
        self.entries.len()
    }

    /// The pair at position `i`, in insertion order.
    pub fn entry_at(&self, i: usize) -> (r: (&String, &String))
        requires
            i < self.entries_spec().len(),
        ensures
            r.0@ == self.entries_spec()[i as int].0,
            r.1@ == self.entries_spec()[i as int].1,
    {
        (&self.entries[i].0, &self.entries[i].1)
    }

    /// The value under `name`, when one is held.
    pub fn get(&self, name: &str) -> (r: Option<&String>)
        ensures
            r is Some <==> self@.contains_key(name@),
            r matches Some(v) ==> v@ == self@[name@],
    {
        proof {
            use_type_invariant(self);
        }
        let n = self.entries.len();
        let mut i: usize = 0;
        while i < n
            invariant
                i <= n,
                n == self.entries@.len(),
                unique_keys(self.entries_spec()),
                forall|k: int| 0 <= k < i ==> self.entries_spec()[k].0 != name@,
            decreases n - i,
        {
            if str_eq(self.entries[i].0.as_str(), name) {
                proof {
                    lemma_map_of_pairs_get(self.entries_spec(), i as int);
                }
                return Some(&self.entries[i].1);
            }
            i = i + 1;
        }
        proof {
            lemma_map_of_pairs_absent(self.entries_spec(), name@);
        }
        None
    }

    /// Binds `name` to `value`: overwrites in place when `name` is already
    /// held, appends otherwise.
    pub fn insert(&mut self, name: String, value: String)
        ensures
            final(self)@ == old(self)@.insert(name@, value@),
    {
        proof {
            use_type_invariant(&*self);
        }
        let ghost before = self.entries_spec();
        let n = self.entries.len();
        let mut idx: Option<usize> = None;
        let mut i: usize = 0;
        while i < n && idx.is_none()
            invariant
                i <= n,
                n == self.entries@.len(),
                self == old(self),
                idx is None ==> forall|k: int| 0 <= k < i ==> self.entries_spec()[k].0 != name@,
                idx matches Some(j) ==> j < n && self.entries_spec()[j as int].0 == name@,
            decreases n - i + (if idx is None { 1int } else { 0int }),
        {
            if str_eq(self.entries[i].0.as_str(), name.as_str()) {
                idx = Some(i);
            } else {
                i = i + 1;
            }
        }
        let mut es: Vec<(String, String)> = Vec::new();
        std::mem::swap(&mut es, &mut self.entries);
        match idx {
            Some(j) => {
                proof {
                    lemma_map_of_pairs_update(before, j as int, value@);
                }
                es.remove(j);
                es.insert(j, (name, value));
                let ghost esv = es@.map_values(|e: (String, String)| (e.0@, e.1@));
                proof {
                    assert(esv =~= before.update(j as int, (before[j as int].0, value@)));
                    assert(unique_keys(esv)) by {
                        assert(forall|a: int|
                            0 <= a < before.len() && a != j ==> esv[a] == before[a]);
                    }
                }
                self.entries = es;
                proof {
                    assert(self.entries_spec() =~= esv);
                }
            },
            None => {
                proof {
                    lemma_map_of_pairs_absent(before, name@);
                }
                es.push((name, value));
                let ghost esv = es@.map_values(|e: (String, String)| (e.0@, e.1@));
                proof {
                    assert(esv.drop_last() =~= before);
                    assert(esv.last() == (name@, value@));
                    assert(unique_keys(esv)) by {
                        assert(forall|a: int| 0 <= a < before.len() ==> esv[a] == before[a]);
                    }
                }
                self.entries = es;
                proof {
                    assert(self.entries_spec() =~= esv);
                }
            },
        }
    }
}

impl Clone for HeaderMap {
    /// A copy holding the same pairs in the same order.
    fn clone(&self) -> (r: Self)
        ensures
            r.entries_spec() == self.entries_spec(),
            r@ == self@,
    {
        proof {
            use_type_invariant(self);
        }
        let n = self.entries.len();
        let mut out: Vec<(String, String)> = Vec::new();
        let mut i: usize = 0;
        while i < n
            invariant
                i <= n,
                n == self.entries@.len(),
                out@.len() == i,
                forall|k: int|
                    0 <= k < i ==> (out@[k].0@, out@[k].1@) == self.entries_spec()[k],
            decreases n - i,
        {
            out.push((self.entries[i].0.clone(), self.entries[i].1.clone()));
            i = i + 1;
        }
        let ghost outv = out@.map_values(|e: (String, String)| (e.0@, e.1@));
        proof {
            assert(outv =~= self.entries_spec());
        }
        let r = HeaderMap { entries: out };
        proof {
            assert(r.entries_spec() =~= self.entries_spec());
        }
        r
    }
}

} // verus!
