//! An ordered map keyed by text, iterated in key order (the order a
//! `BTreeMap<String, _>` keeps), with its contents stated as a `Map`.
use vstd::prelude::*;
use crate::order::{
    compare_str, lemma_lex_asymmetric, lemma_lex_irreflexive, lemma_lex_total,
    lemma_lex_transitive, lemma_sorted_distinct, lemma_sorted_index_of, lex_lt, sorted_strict,
    str_eq,
};

verus! {

/// Keys in increasing order, each once, with one value per key.
#[derive(Debug, PartialEq, Eq)]
pub struct StrMap<V> {
    keys: Vec<String>,
    vals: Vec<V>,
}

impl<V> StrMap<V> {
    /// The keys, in increasing order.
    pub closed spec fn key_seq(&self) -> Seq<Seq<char>> {
        self.keys@.map_values(|k: String| k@)
    }

    /// The values, in the order of their keys.
    pub closed spec fn val_seq(&self) -> Seq<V> {
        self.vals@
    }

    /// Keys strictly increasing, one value per key.
    pub closed spec fn wf(&self) -> bool {
        &&& self.keys@.len() == self.vals@.len()
        &&& sorted_strict(self.key_seq())
    }

    /// Every map value is well formed: the fields are private and each
    /// operation keeps them so.
    #[verifier::type_invariant]
    spec fn inv(&self) -> bool {
        self.wf()
    }

    /// The map of a well-formed pair of key and value lists.
    fn from_parts(keys: Vec<String>, vals: Vec<V>) -> (r: Self)
        requires
            keys@.len() == vals@.len(),
            sorted_strict(keys@.map_values(|k: String| k@)),
        ensures
            r.key_seq() == keys@.map_values(|k: String| k@),
            r.val_seq() == vals@,
            r.wf(),
    {
        StrMap { keys, vals }
    }

    /// A map is well formed, whoever holds it.
    pub fn establish_wf(&self)
        ensures
            self.wf(),
    {
        proof {
            use_type_invariant(self);
        }
    }

    /// The number of entries.
    pub open spec fn size(&self) -> nat {
        self.key_seq().len()
    }

    /// The contents as a map.
    pub open spec fn view(&self) -> Map<Seq<char>, V> {
        Map::new(
            |k: Seq<char>| self.key_seq().contains(k),
            |k: Seq<char>| self.val_seq()[self.key_seq().index_of(k)],
        )
    }

    /// What a well-formed map's two sequences say of its contents.
    pub proof fn lemma_wf(&self)
        requires
            self.wf(),
        ensures
            self.key_seq().len() == self.val_seq().len(),
            sorted_strict(self.key_seq()),
            forall|i: int|
                0 <= i < self.size() ==> #[trigger] self@.contains_key(self.key_seq()[i])
                    && self@[self.key_seq()[i]] == self.val_seq()[i],
            forall|k: Seq<char>|
                #[trigger] self@.contains_key(k) ==> exists|i: int|
                    0 <= i < self.size() && self.key_seq()[i] == k,
            self@.dom().finite(),
            self@.len() == self.size(),
    {
        assert forall|i: int| 0 <= i < self.size() implies #[trigger] self@.contains_key(
            self.key_seq()[i],
        ) && self@[self.key_seq()[i]] == self.val_seq()[i] by {
            assert(self.key_seq().contains(self.key_seq()[i]));
            lemma_sorted_index_of(self.key_seq(), i);
        }
        self.lemma_dom();
    }

    proof fn lemma_dom(&self)
        requires
            self.wf(),
        ensures
            self@.dom() == self.key_seq().to_set(),
            self@.dom().finite(),
            self@.len() == self.size(),
    {
        assert(self@.dom() =~= self.key_seq().to_set());
        assert(self.key_seq().no_duplicates()) by {
            assert forall|i: int, j: int|
                0 <= i < self.key_seq().len() && 0 <= j < self.key_seq().len() && i != j implies
                self.key_seq()[i] != self.key_seq()[j] by {
                lemma_sorted_distinct(self.key_seq(), i, j);
            }
        }
        self.key_seq().unique_seq_to_set();
    }

    pub fn new() -> (r: Self)
        ensures
            r.wf(),
            r@ == Map::<Seq<char>, V>::empty(),
            r.size() == 0,
    {
        let keys: Vec<String> = Vec::new();
        assert(keys@.map_values(|k: String| k@) =~= Seq::<Seq<char>>::empty());
        let r = Self::from_parts(keys, Vec::new());
        assert(r@ =~= Map::<Seq<char>, V>::empty());
        r
    }

    /// `BTreeMap::len`.
    pub fn len(&self) -> (r: usize)
        ensures
            r == self.size(),
            r == self@.len(),
    {
        proof {
            use_type_invariant(self);
            self.lemma_dom();
        }
        self.keys.len()
    }

    /// The key at position `i` in key order.
    pub fn key_at(&self, i: usize) -> (r: &String)
        requires
            i < self.size(),
        ensures
            r@ == self.key_seq()[i as int],
    {
        proof {
            use_type_invariant(self);
        }
        &self.keys[i]
    }

    /// The value at position `i` in key order.
    pub fn val_at(&self, i: usize) -> (r: &V)
        requires
            i < self.size(),
        ensures
            *r == self.val_seq()[i as int],
    {
        proof {
            use_type_invariant(self);
        }
        &self.vals[i]
    }

    /// Replace the value at position `i` in key order.
    pub fn set_val_at(&mut self, i: usize, v: V)
        requires
            i < old(self).size(),
        ensures
            final(self).wf(),
            final(self).key_seq() == old(self).key_seq(),
            final(self).val_seq() == old(self).val_seq().update(i as int, v),
            final(self)@ == old(self)@.insert(old(self).key_seq()[i as int], v),
    {
        proof {
            use_type_invariant(&*self);
            self.lemma_wf();
        }
        let ghost old_keys = self.key_seq();
        let ghost old_vals = self.val_seq();
        let mut tmp = Self::new();
        std::mem::swap(self, &mut tmp);
        proof {
            use_type_invariant(&tmp);
        }
        let StrMap { keys, mut vals } = tmp;
        vals.set(i, v);
        *self = Self::from_parts(keys, vals);
        proof {
            assert(self.key_seq() =~= old_keys);
            assert(self.val_seq() =~= old_vals.update(i as int, v));
            lemma_sorted_index_of(old_keys, i as int);
            let k = old_keys[i as int];
            assert(self@ =~= old(self)@.insert(k, v)) by {
                assert forall|x: Seq<char>| #[trigger] self@.contains_key(x) implies self@[x]
                    == old(self)@.insert(k, v)[x] by {
                    let j = old_keys.index_of(x);
                    assert(old_keys.contains(x));
                    if x != k {
                        assert(0 <= j < old_keys.len() && old_keys[j] == x);
                        assert(j != i);
                    }
                }
            }
        }
    }

    /// The position of `k` in key order, if present.
    pub fn position(&self, k: &str) -> (r: Option<usize>)
        ensures
            match r {
                Some(i) => i < self.size() && self.key_seq()[i as int] == k@,
                None => !self@.contains_key(k@),
            },
    {
        proof {
            use_type_invariant(self);
        }
        let n = self.keys.len();
        let mut i: usize = 0;
        while i < n
            invariant
                self.wf(),
                n == self.size(),
                i <= n,
                forall|j: int| 0 <= j < i ==> self.key_seq()[j] != k@,
            decreases n - i,
        {
            if str_eq(self.keys[i].as_str(), k) {
                return Some(i);
            }
            i = i + 1;
        }
        None
    }

    /// `BTreeMap::contains_key`.
    pub fn contains_key(&self, k: &str) -> (r: bool)
        ensures
            r == self@.contains_key(k@),
    {
        proof {
            use_type_invariant(self);
            self.lemma_wf();
        }
        match self.position(k) {
            Some(_) => true,
            None => false,
        }
    }

    /// `BTreeMap::get`.
    pub fn get(&self, k: &str) -> (r: Option<&V>)
        ensures
            match r {
                Some(v) => self@.contains_key(k@) && *v == self@[k@],
                None => !self@.contains_key(k@),
            },
    {
        proof {
            use_type_invariant(self);
            self.lemma_wf();
        }
        match self.position(k) {
            Some(i) => {
                assert(self@.contains_key(self.key_seq()[i as int]));
                Some(&self.vals[i])
            },
            None => None,
        }
    }

    /// The first position whose key is not below `k`.
    fn lower_bound(&self, k: &str) -> (r: usize)
        requires
            self.wf(),
        ensures
            r <= self.size(),
            forall|j: int| 0 <= j < r ==> lex_lt(#[trigger] self.key_seq()[j], k@),
            r < self.size() ==> !lex_lt(self.key_seq()[r as int], k@),
    {
        let n = self.keys.len();
        let mut i: usize = 0;
        while i < n
            invariant
                self.wf(),
                n == self.size(),
                i <= n,
                forall|j: int| 0 <= j < i ==> lex_lt(#[trigger] self.key_seq()[j], k@),
            decreases n - i,
        {
            if compare_str(self.keys[i].as_str(), k) >= 0 {
                return i;
            }
            i = i + 1;
        }
        n
    }

    /// `BTreeMap::insert`: `k` maps to `v` afterwards; the value it had is returned.
    pub fn insert(&mut self, k: String, v: V) -> (r: Option<V>)
        ensures
            final(self).wf(),
            final(self)@ == old(self)@.insert(k@, v),
            match r {
                Some(prev) => old(self)@.contains_key(k@) && prev == old(self)@[k@],
                None => !old(self)@.contains_key(k@),
            },
    {
        proof {
            use_type_invariant(&*self);
            self.lemma_wf();
        }
        let p = self.lower_bound(k.as_str());
        let ghost old_keys = self.key_seq();
        let ghost old_vals = self.val_seq();
        if p < self.keys.len() && str_eq(self.keys[p].as_str(), k.as_str()) {
            let mut tmp = Self::new();
            std::mem::swap(self, &mut tmp);
            proof {
                use_type_invariant(&tmp);
            }
            let StrMap { keys, mut vals } = tmp;
            let prev = vals.remove(p);
            vals.insert(p, v);
            *self = Self::from_parts(keys, vals);
            proof {
                assert(self.key_seq() =~= old_keys);
                assert(self.val_seq() =~= old_vals.update(p as int, v));
                lemma_sorted_index_of(old_keys, p as int);
                assert(self@ =~= old(self)@.insert(k@, v)) by {
                    assert forall|x: Seq<char>| #[trigger] self@.contains_key(x) implies self@[x]
                        == old(self)@.insert(k@, v)[x] by {
                        let j = old_keys.index_of(x);
                        assert(old_keys.contains(x));
                        if x != k@ {
                            assert(0 <= j < old_keys.len() && old_keys[j] == x);
                            assert(j != p);
                        }
                    }
                }
            }
            Some(prev)
        } else {
            proof {
                if p < old_keys.len() {
                    lemma_lex_total(old_keys[p as int], k@);
                }
            }
            let mut tmp = Self::new();
            std::mem::swap(self, &mut tmp);
            proof {
                use_type_invariant(&tmp);
            }
            let StrMap { mut keys, mut vals } = tmp;
            let ghost kv = k@;
            keys.insert(p, k);
            vals.insert(p, v);
            proof {
                let ks = keys@.map_values(|x: String| x@);
                assert(ks =~= old_keys.insert(p as int, kv));
                assert(vals@ == old_vals.insert(p as int, v));
                assert forall|i: int, j: int| 0 <= i < j < ks.len() implies lex_lt(
                    #[trigger] ks[i],
                    #[trigger] ks[j],
                ) by {
                    if j < p {
                    } else if j == p {
                        assert(lex_lt(old_keys[i], kv));
                    } else if i < p {
                        assert(ks[j] == old_keys[j - 1]);
                        assert(lex_lt(old_keys[i], kv));
                        assert(lex_lt(kv, old_keys[p as int]));
                        if j - 1 > p {
                            lemma_lex_transitive(kv, old_keys[p as int], old_keys[j - 1]);
                        }
                        lemma_lex_transitive(old_keys[i], kv, old_keys[j - 1]);
                    } else if i == p {
                        assert(lex_lt(kv, old_keys[p as int]));
                        if j - 1 > p {
                            lemma_lex_transitive(kv, old_keys[p as int], old_keys[j - 1]);
                        }
                    } else {
                        assert(ks[i] == old_keys[i - 1]);
                        assert(ks[j] == old_keys[j - 1]);
                    }
                }
            }
            *self = Self::from_parts(keys, vals);
            proof {
                let ks = self.key_seq();
                assert(!old_keys.contains(kv)) by {
                    if old_keys.contains(kv) {
                        let j = old_keys.index_of(kv);
                        if j < p {
                            lemma_lex_irreflexive(kv);
                        } else if j > p {
                            assert(lex_lt(old_keys[p as int], old_keys[j]));
                            lemma_lex_asymmetric(kv, old_keys[p as int]);
                        }
                    }
                }
                assert(self@ =~= old(self)@.insert(kv, v)) by {
                    assert forall|x: Seq<char>| #[trigger]
                        self@.contains_key(x) == old(self)@.insert(kv, v).contains_key(x) by {
                        if x != kv && ks.contains(x) {
                            let j = ks.index_of(x);
                            if j < p {
                                assert(old_keys[j] == x);
                            } else {
                                assert(old_keys[j - 1] == x);
                            }
                        }
                        if old_keys.contains(x) {
                            let j = old_keys.index_of(x);
                            if j < p {
                                assert(ks[j] == x);
                            } else {
                                assert(ks[j + 1] == x);
                            }
                        }
                        if x == kv {
                            assert(ks[p as int] == x);
                        }
                    }
                    assert forall|x: Seq<char>| #[trigger] self@.contains_key(x) implies self@[x]
                        == old(self)@.insert(kv, v)[x] by {
                        let j = ks.index_of(x);
                        lemma_sorted_index_of(ks, j);
                        if x == kv {
                            lemma_sorted_index_of(ks, p as int);
                        } else if j < p {
                            assert(old_keys[j] == x);
                            lemma_sorted_index_of(old_keys, j);
                        } else {
                            assert(j != p);
                            assert(old_keys[j - 1] == x);
                            lemma_sorted_index_of(old_keys, j - 1);
                        }
                    }
                }
            }
            None
        }
    }

    /// `BTreeMap::remove`: `k` is absent afterwards; the value it had is returned.
    pub fn remove(&mut self, k: &str) -> (r: Option<V>)
        ensures
            final(self).wf(),
            final(self)@ == old(self)@.remove(k@),
            match r {
                Some(prev) => old(self)@.contains_key(k@) && prev == old(self)@[k@],
                None => !old(self)@.contains_key(k@) && *final(self) == *old(self),
            },
    {
        proof {
            use_type_invariant(&*self);
            self.lemma_wf();
        }
        match self.position(k) {
            None => {
                assert(self@ =~= old(self)@.remove(k@));
                None
            },
            Some(p) => {
                let ghost old_keys = self.key_seq();
                let ghost old_vals = self.val_seq();
                let mut tmp = Self::new();
                std::mem::swap(self, &mut tmp);
                proof {
                    use_type_invariant(&tmp);
                }
                let StrMap { mut keys, mut vals } = tmp;
                keys.remove(p);
                let prev = vals.remove(p);
                proof {
                    let ks = keys@.map_values(|x: String| x@);
                    assert(ks =~= old_keys.remove(p as int));
                    assert(vals@ == old_vals.remove(p as int));
                    assert forall|i: int, j: int| 0 <= i < j < ks.len() implies lex_lt(
                        #[trigger] ks[i],
                        #[trigger] ks[j],
                    ) by {
                        let oi = if i < p {
                            i
                        } else {
                            i + 1
                        };
                        let oj = if j < p {
                            j
                        } else {
                            j + 1
                        };
                        assert(ks[i] == old_keys[oi]);
                        assert(ks[j] == old_keys[oj]);
                    }
                }
                *self = Self::from_parts(keys, vals);
                proof {
                    let ks = self.key_seq();
                    lemma_sorted_index_of(old_keys, p as int);
                    assert(self@ =~= old(self)@.remove(k@)) by {
                        assert forall|x: Seq<char>| #[trigger]
                            self@.contains_key(x) == old(self)@.remove(k@).contains_key(x) by {
                            if ks.contains(x) {
                                let j = ks.index_of(x);
                                let oj = if j < p {
                                    j
                                } else {
                                    j + 1
                                };
                                assert(old_keys[oj] == x);
                                lemma_sorted_distinct(old_keys, oj, p as int);
                            }
                            if x != k@ && old_keys.contains(x) {
                                let j = old_keys.index_of(x);
                                assert(j != p);
                                if j < p {
                                    assert(ks[j] == x);
                                } else {
                                    assert(ks[j - 1] == x);
                                }
                            }
                        }
                        assert forall|x: Seq<char>| #[trigger] self@.contains_key(x) implies self@[x]
                            == old(self)@.remove(k@)[x] by {
                            let j = ks.index_of(x);
                            lemma_sorted_index_of(ks, j);
                            let oj = if j < p {
                                j
                            } else {
                                j + 1
                            };
                            assert(old_keys[oj] == x);
                            lemma_sorted_index_of(old_keys, oj);
                        }
                    }
                }
                Some(prev)
            },
        }
    }
}

impl<V: Clone> Clone for StrMap<V> {
    /// A copy with the same keys, in the same order, and each value cloned.
    fn clone(&self) -> (r: Self)
        ensures
            r.key_seq() == self.key_seq(),
            r.val_seq().len() == self.val_seq().len(),
    {
        proof {
            use_type_invariant(self);
        }
        let keys = self.keys.clone();
        let vals = self.vals.clone();
        proof {
            assert forall|i: int| 0 <= i < keys@.len() implies keys@[i] == self.keys@[i] by {
                assert(cloned::<String>(self.keys@[i], keys@[i]));
            }
            assert(keys@.map_values(|k: String| k@) =~= self.key_seq());
        }
        Self::from_parts(keys, vals)
    }
}

} // verus!
