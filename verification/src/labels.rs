//! Label sets: the dimensions attached to a metric occurrence.
//!
//! A label set is a mapping from label keys to label values, both strings.
//! It is unordered — two sets with the same entries mean the same thing — and
//! its keys are unique.  The set is held as a vector of pairs with pairwise
//! distinct keys; its abstract value, the `View`, is the finite map those
//! pairs describe.

use vstd::prelude::*;

use crate::text::str_eq;

verus! {

/// A pair of key and value views.
pub type LabelPair = (Seq<char>, Seq<char>);

/// The views of a vector of string pairs, element by element.
pub open spec fn pairs_view(v: Seq<(String, String)>) -> Seq<LabelPair> {
    v.map_values(|p: (String, String)| (p.0@, p.1@))
}

/// The keys of a pair sequence, in order.
pub open spec fn keys_of(ps: Seq<LabelPair>) -> Seq<Seq<char>> {
    ps.map_values(|p: LabelPair| p.0)
}

/// The finite map described by a pair sequence; later pairs win.
pub open spec fn map_of(ps: Seq<LabelPair>) -> Map<Seq<char>, Seq<char>>
    decreases ps.len(),
{
    if ps.len() == 0 {
        Map::empty()
    } else {
        map_of(ps.drop_last()).insert(ps.last().0, ps.last().1)
    }
}

/// What `map_of` contains: its domain is the set of keys, and when the keys
/// are pairwise distinct each key is sent to the value paired with it and the
/// map is as large as the sequence.
pub proof fn lemma_map_of_props(ps: Seq<LabelPair>)
    ensures
        map_of(ps).dom() =~= keys_of(ps).to_set(),
        map_of(ps).dom().finite(),
        keys_of(ps).no_duplicates() ==> forall|i: int|
            0 <= i < ps.len() ==> map_of(ps)[(#[trigger] ps[i]).0] == ps[i].1,
        keys_of(ps).no_duplicates() ==> map_of(ps).len() == ps.len(),
    decreases ps.len(),
{
    broadcast use vstd::seq_lib::group_seq_properties;

    if ps.len() == 0 {
        assert(keys_of(ps).to_set() =~= Set::<Seq<char>>::empty());
    } else {
        let rest = ps.drop_last();
        lemma_map_of_props(rest);
        assert(keys_of(rest) =~= keys_of(ps).drop_last());
        assert(keys_of(ps).to_set() =~= keys_of(ps).drop_last().to_set().insert(
            keys_of(ps).last(),
        ));
        if keys_of(ps).no_duplicates() {
            assert(keys_of(rest).no_duplicates());
            assert forall|i: int| 0 <= i < ps.len() implies map_of(ps)[(#[trigger] ps[i]).0]
                == ps[i].1 by {
                if i < rest.len() {
                    assert(rest[i] == ps[i]);
                    assert(map_of(rest)[rest[i].0] == rest[i].1);
                    assert(keys_of(ps)[i] == ps[i].0);
                    assert(keys_of(ps)[ps.len() - 1] == ps.last().0);
                    assert(keys_of(ps)[i] != keys_of(ps)[ps.len() - 1]);
                } else {
                    assert(i == ps.len() - 1);
                }
            }
            assert(!map_of(rest).dom().contains(ps.last().0)) by {
                assert(forall|i: int|
                    0 <= i < rest.len() ==> (#[trigger] keys_of(rest)[i]) != keys_of(ps)[ps.len()
                        - 1]);
                assert(keys_of(ps)[ps.len() - 1] == ps.last().0);
            }
        }
    }
}

/// A set of labels: unique string keys mapped to string values, at most one
/// value per key.  Unordered; two label sets with equal maps carry the same
/// information.
#[derive(Debug, PartialEq)]
pub struct Labels {
    pairs: Vec<(String, String)>,
}

impl View for Labels {
    type V = Map<Seq<char>, Seq<char>>;

    closed spec fn view(&self) -> Map<Seq<char>, Seq<char>> {
        map_of(self.spec_pairs())
    }
}

impl Labels {
    /// The pairs held, as views, in storage order.
    pub closed spec fn spec_pairs(&self) -> Seq<LabelPair> {
        pairs_view(self.pairs@)
    }

    /// Keys are pairwise distinct.
    #[verifier::type_invariant]
    pub closed spec fn wf(&self) -> bool {
        keys_of(self.spec_pairs()).no_duplicates()
    }

    /// The view is the map of the pairs, the pairs have distinct keys, and
    /// the map is exactly as large as the pair sequence.
    pub proof fn lemma_view(&self)
        requires
            self.wf(),
        ensures
            self@ == map_of(self.spec_pairs()),
            keys_of(self.spec_pairs()).no_duplicates(),
            self@.len() == self.spec_pairs().len(),
            self@.dom().finite(),
            forall|i: int|
                0 <= i < self.spec_pairs().len() ==> self@.dom().contains(
                    (#[trigger] self.spec_pairs()[i]).0,
                ) && self@[self.spec_pairs()[i].0] == self.spec_pairs()[i].1,
            forall|k: Seq<char>|
                self@.dom().contains(k) ==> exists|i: int|
                    0 <= i < self.spec_pairs().len() && (#[trigger] self.spec_pairs()[i]).0 == k,
    {
        lemma_map_of_props(self.spec_pairs());
        assert(forall|i: int|
            0 <= i < self.spec_pairs().len() ==> keys_of(self.spec_pairs())[i] == (
            #[trigger] self.spec_pairs()[i]).0);
        assert(forall|k: Seq<char>| self@.dom().contains(k) ==> exists|i: int|
            0 <= i < self.spec_pairs().len() && (#[trigger] self.spec_pairs()[i]).0 == k) by {
            assert(forall|k: Seq<char>|
                keys_of(self.spec_pairs()).to_set().contains(k) ==> exists|i: int|
                    0 <= i < keys_of(self.spec_pairs()).len() && (#[trigger] keys_of(
                        self.spec_pairs(),
                    )[i]) == k);
        }
    }

    /// An empty label set.
    pub fn new() -> (l: Labels)
        ensures
            l@ == Map::<Seq<char>, Seq<char>>::empty(),
            l.spec_pairs() == Seq::<LabelPair>::empty(),
    {
        let l = Labels { pairs: Vec::new() };
        proof {
            assert(l.spec_pairs() =~= Seq::<LabelPair>::empty());
        }
        l
    }

    /// How many labels the set holds.
    pub fn len(&self) -> (n: usize)
        ensures
            n == self@.len(),
            n == self.spec_pairs().len(),
    {
        proof {
            use_type_invariant(self);
            self.lemma_view();
        }
        self.pairs.len()
    }

    /// Whether the set holds no labels.
    pub fn is_empty(&self) -> (r: bool)
        ensures
            r == (self@.len() == 0),
    {
        proof {
            use_type_invariant(self);
            self.lemma_view();
        }
        self.pairs.len() == 0
    }

    /// The pair at a storage position; positions order arbitrarily.
    pub fn pair_at(&self, i: usize) -> (p: (&String, &String))
        requires
            i < self.spec_pairs().len(),
        ensures
            (p.0@, p.1@) == self.spec_pairs()[i as int],
    {
        let p = &self.pairs[i];
        (&p.0, &p.1)
    }

    /// Insert a label, replacing the value of an existing key.
    pub fn insert(&mut self, key: String, value: String)
        ensures
            final(self)@ == old(self)@.insert(key@, value@),
    {
        proof {
            use_type_invariant(&*self);
            old(self).lemma_view();
        }
        let ghost old_sp = old(self).spec_pairs();
        let mut pairs: Vec<(String, String)> = Vec::new();
        std::mem::swap(&mut pairs, &mut self.pairs);
        match find_key(&pairs, key.as_str()) {
            Some(i) => {
                // Replace in place: the key set is unchanged.
                pairs[i] = (key, value);
                proof {
                    let sp = pairs_view(pairs@);
                    assert(sp =~= old_sp.update(i as int, (key@, value@)));
                    assert(keys_of(sp) =~= keys_of(old_sp));
                }
                self.pairs = pairs;
                proof {
                    let sp = self.spec_pairs();
                    lemma_map_of_props(sp);
                    lemma_map_of_props(old_sp);
                    assert(forall|j: int|
                        0 <= j < sp.len() ==> (#[trigger] keys_of(sp)[j]) == sp[j].0);
                    assert(forall|j: int|
                        0 <= j < sp.len() && j != i ==> #[trigger] sp[j] == old_sp[j]);
                    assert(old_sp[i as int].0 == key@);
                    assert(self@.dom() =~= old(self)@.insert(key@, value@).dom());
                    assert(forall|k: Seq<char>| self@.dom().contains(k) && k != key@
                        ==> #[trigger] self@[k] == old(self)@[k]) by {
                        assert(forall|k: Seq<char>|
                            self@.dom().contains(k) ==> exists|j: int|
                                0 <= j < sp.len() && (#[trigger] keys_of(sp)[j]) == k);
                        assert(forall|j: int|
                            0 <= j < sp.len() ==> (#[trigger] keys_of(sp)[j]) == sp[j].0);
                    }
                    assert(keys_of(sp).no_duplicates());
                    assert(sp[i as int] == (key@, value@));
                    assert(self@[sp[i as int].0] == sp[i as int].1);
                    assert(self@[key@] == value@);
                    assert(self@ =~= old(self)@.insert(key@, value@));
                }
            },
            None => {
                // The key is new: append it.
                pairs.push((key, value));
                proof {
                    let sp = pairs_view(pairs@);
                    assert(sp =~= old_sp.push((key@, value@)));
                    assert(keys_of(sp) =~= keys_of(old_sp).push(key@));
                    assert(forall|j: int|
                        0 <= j < old_sp.len() ==> (#[trigger] keys_of(old_sp)[j]) == old_sp[j].0);
                    assert(keys_of(sp).no_duplicates());
                }
                self.pairs = pairs;
                proof {
                    let sp = self.spec_pairs();
                    assert(sp.drop_last() =~= old_sp);
                    assert(self@ =~= old(self)@.insert(key@, value@));
                }
            },
        }
    }

    /// Look a key up: the value it maps to, if the key is present.
    pub fn get(&self, key: &str) -> (r: Option<&String>)
        ensures
            match r {
                Some(v) => self@.dom().contains(key@) && v@ == self@[key@],
                None => !self@.dom().contains(key@),
            },
    {
        proof {
            use_type_invariant(self);
            self.lemma_view();
        }
        let n = self.pairs.len();
        let mut i: usize = 0;
        while i < n
            invariant
                self.wf(),
                n == self.pairs.len(),
                i <= n,
                forall|j: int| 0 <= j < i ==> (#[trigger] self.spec_pairs()[j]).0 != key@,
            decreases n - i,
        {
            if str_eq(self.pairs[i].0.as_str(), key) {
                proof {
                    self.lemma_view();
                    assert(self.spec_pairs()[i as int] == (
                        self.pairs@[i as int].0@,
                        self.pairs@[i as int].1@,
                    ));
                    assert(self@[self.spec_pairs()[i as int].0] == self.spec_pairs()[i as int].1);
                }
                return Some(&self.pairs[i].1);
            }
            i = i + 1;
        }
        proof {
            self.lemma_view();
        }
        None
    }

    /// Whether the set holds this key.
    pub fn contains_key(&self, key: &str) -> (r: bool)
        ensures
            r == self@.dom().contains(key@),
    {
        match self.get(key) {
            Some(_) => true,
            None => false,
        }
    }
}

impl Clone for Labels {
    /// A clone carries the same labels.
    fn clone(&self) -> (l: Labels)
        ensures
            l@ == self@,
            l.spec_pairs() == self.spec_pairs(),
    {
        proof {
            use_type_invariant(self);
        }
        let n = self.pairs.len();
        let mut pairs: Vec<(String, String)> = Vec::new();
        let mut i: usize = 0;
        while i < n
            invariant
                n == self.pairs.len(),
                i <= n,
                pairs@.len() == i,
                forall|j: int|
                    0 <= j < i ==> ((#[trigger] pairs@[j]).0@, pairs@[j].1@) == self.spec_pairs()[j],
            decreases n - i,
        {
            let p = &self.pairs[i];
            pairs.push((p.0.clone(), p.1.clone()));
            i = i + 1;
        }
        proof {
            let sp = pairs_view(pairs@);
            assert(sp =~= self.spec_pairs());
            assert(keys_of(sp) =~= keys_of(self.spec_pairs()));
        }
        let l = Labels { pairs };
        proof {
            assert(l.spec_pairs() =~= self.spec_pairs());
        }
        l
    }
}


/// The position of a key among pairs, if it occurs.
fn find_key(pairs: &Vec<(String, String)>, key: &str) -> (r: Option<usize>)
    ensures
        match r {
            Some(i) => i < pairs@.len() && pairs@[i as int].0@ == key@,
            None => forall|j: int| 0 <= j < pairs@.len() ==> (#[trigger] pairs@[j]).0@ != key@,
        },
{
    let n = pairs.len();
    let mut i: usize = 0;
    while i < n
        invariant
            i <= n,
            n == pairs@.len(),
            forall|j: int| 0 <= j < i ==> (#[trigger] pairs@[j]).0@ != key@,
        decreases n - i,
    {
        if str_eq(pairs[i].0.as_str(), key) {
            return Some(i);
        }
        i = i + 1;
    }
    None
}

} // verus!
