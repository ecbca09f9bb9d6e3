//! A map from header names to header values in which no name occurs twice.

use vstd::prelude::*;
use vstd::std_specs::cmp::PartialEqSpecImpl;

verus! {

/// The map that a sequence of (name, value) pairs describes: later pairs
/// win over earlier ones with the same name.
pub open spec fn pairs_map(p: Seq<(Seq<char>, Seq<char>)>) -> Map<Seq<char>, Seq<char>>
    decreases p.len(),
{
    if p.len() == 0 {
        Map::empty()
    } else {
        pairs_map(p.drop_last()).insert(p.last().0, p.last().1)
    }
}

/// No name occurs twice in the pairs.
pub open spec fn names_distinct(p: Seq<(Seq<char>, Seq<char>)>) -> bool {
    forall|i: int, j: int| 0 <= i < j < p.len() ==> #[trigger] p[i].0 != #[trigger] p[j].0
}

/// Header names mapped to header values. Each name occurs once; the pairs
/// keep the order in which their names were first inserted.
#[derive(Debug, Eq)]
pub struct Headers {
    entries: Vec<(String, String)>,
}

impl View for Headers {
    type V = Map<Seq<char>, Seq<char>>;

    open spec fn view(&self) -> Map<Seq<char>, Seq<char>> {
        pairs_map(self.pairs())
    }
}

/// With distinct names, the map holds exactly the pairs.
pub proof fn lemma_pairs_map(p: Seq<(Seq<char>, Seq<char>)>)
    requires
        names_distinct(p),
    ensures
        forall|i: int| 0 <= i < p.len() ==> #[trigger] pairs_map(p).contains_key(p[i].0)
            && pairs_map(p)[p[i].0] == p[i].1,
        forall|k: Seq<char>| #[trigger] pairs_map(p).contains_key(k) ==> exists|i: int|
            0 <= i < p.len() && p[i].0 == k,
    decreases p.len(),
{
    if p.len() > 0 {
        let q = p.drop_last();
        assert(names_distinct(q));
        lemma_pairs_map(q);
        let last = p[p.len() - 1];
        assert(pairs_map(p) == pairs_map(q).insert(last.0, last.1));
        assert forall|i: int| 0 <= i < p.len() implies #[trigger] pairs_map(p).contains_key(p[i].0)
            && pairs_map(p)[p[i].0] == p[i].1 by {
            if i < p.len() - 1 {
                assert(q[i] == p[i]);
                assert(p[i].0 != last.0);
                assert(pairs_map(q).contains_key(q[i].0));
            }
        }
        assert forall|k: Seq<char>| #[trigger] pairs_map(p).contains_key(k) implies exists|i: int|
            0 <= i < p.len() && p[i].0 == k by {
            if k != last.0 {
                assert(pairs_map(q).contains_key(k));
                let i = choose|i: int| 0 <= i < q.len() && q[i].0 == k;
                assert(p[i] == q[i]);
            } else {
                assert(p[p.len() - 1].0 == k);
            }
        }
    }
}

impl Headers {
    /// The (name, value) pairs, in order, each taken by its view.
    pub closed spec fn pairs(&self) -> Seq<(Seq<char>, Seq<char>)> {
        self.entries@.map_values(|e: (String, String)| (e.0@, e.1@))
    }

    #[verifier::type_invariant]
    closed spec fn inv(&self) -> bool {
        names_distinct(self.pairs())
    }

    /// An empty map.
    pub fn new() -> (res: Headers)
        ensures
            res.pairs() == Seq::<(Seq<char>, Seq<char>)>::empty(),
            res@ == Map::<Seq<char>, Seq<char>>::empty(),
    {
        let res = Headers { entries: Vec::new() };
        assert(res.pairs() =~= Seq::<(Seq<char>, Seq<char>)>::empty());
        res
    }

    /// Number of names.
    pub fn len(&self) -> (res: usize)
        ensures
            res == self.pairs().len(),
            res == self@.len(),
    {
        proof {
            use_type_invariant(self);
            lemma_pairs_map(self.pairs());
            lemma_distinct_len(self.pairs());
        }
        self.entries.len()
    }

    /// The (name, value) pairs, in order.
    pub fn entries(&self) -> (res: &Vec<(String, String)>)
        ensures
            res@.map_values(|e: (String, String)| (e.0@, e.1@)) == self.pairs(),
    {
        &self.entries
    }

    /// Position of `name` among the pairs, if it is there.
    fn position(&self, name: &String) -> (res: Option<usize>)
        ensures
            match res {
                Some(i) => i < self.pairs().len() && self.pairs()[i as int].0 == name@,
                None => forall|i: int| 0 <= i < self.pairs().len() ==> self.pairs()[i].0 != name@,
            },
    {
        let mut i: usize = 0;
        while i < self.entries.len()
            invariant
                i <= self.entries@.len(),
                self.pairs().len() == self.entries@.len(),
                forall|k: int| 0 <= k < i ==> self.pairs()[k].0 != name@,
            decreases self.entries.len() - i,
        {
            if self.entries[i].0 == *name {
                return Some(i);
            }
            i = i + 1;
        }
        None
    }

    /// The value of `name`, if it is there.
    pub fn get(&self, name: &String) -> (res: Option<&String>)
        ensures
            match res {
                Some(v) => self@.contains_key(name@) && self@[name@] == v@,
                None => !self@.contains_key(name@),
            },
    {
        proof {
            use_type_invariant(self);
            lemma_pairs_map(self.pairs());
            lemma_distinct_len(self.pairs());
        }
        match self.position(name) {
            Some(i) => {
                assert(self.pairs()[i as int] == (self.entries@[i as int].0@, self.entries@[i as int].1@));
                assert(self@.contains_key(self.pairs()[i as int].0));
                Some(&self.entries[i].1)
            },
            None => None,
        }
    }

    /// Sets the value of `name`: a name already there keeps its place and
    /// takes the new value; a new name goes last. Returns the value it had.
    pub fn insert(&mut self, name: String, value: String) -> (res: Option<String>)
        ensures
            final(self)@ == old(self)@.insert(name@, value@),
            match res {
                Some(v) => old(self)@.contains_key(name@) && old(self)@[name@] == v@,
                None => !old(self)@.contains_key(name@),
            },
            old(self)@.contains_key(name@) ==> exists|i: int|
                0 <= i < old(self).pairs().len() && old(self).pairs()[i].0 == name@
                && final(self).pairs() == old(self).pairs().update(i, (name@, value@)),
            !old(self)@.contains_key(name@) ==> final(self).pairs() == old(self).pairs().push(
                (name@, value@),
            ),
    {
        proof {
            use_type_invariant(&*self);
            lemma_pairs_map(self.pairs());
            lemma_distinct_len(self.pairs());
        }
        let ghost old_pairs = self.pairs();
        let ghost old_map = self@;
        let pos = self.position(&name);
        let mut entries: Vec<(String, String)> = Vec::new();
        std::mem::swap(&mut entries, &mut self.entries);
        let ghost nk = name@;
        let ghost nv = value@;
        match pos {
            Some(i) => {
                let ghost old_entries = entries@;
                let (k, old_value) = entries.remove(i);
                assert(old_pairs[i as int] == (old_entries[i as int].0@, old_entries[i as int].1@));
                assert(old_map.contains_key(old_pairs[i as int].0));
                entries.insert(i, (k, value));
                let ghost new_pairs = entries@.map_values(|e: (String, String)| (e.0@, e.1@));
                proof {
                    assert(new_pairs =~= old_pairs.update(i as int, (nk, nv)));
                    assert(names_distinct(new_pairs));
                    lemma_pairs_map(new_pairs);
                    assert(pairs_map(new_pairs) =~= old_map.insert(nk, nv)) by {
                        assert forall|key: Seq<char>| #[trigger] pairs_map(new_pairs).contains_key(key)
                            implies old_map.insert(nk, nv).contains_key(key) by {
                            let j = choose|j: int| 0 <= j < new_pairs.len() && new_pairs[j].0 == key;
                            if j != i {
                                assert(old_pairs[j] == new_pairs[j]);
                            }
                        }
                        assert forall|key: Seq<char>| #[trigger] old_map.insert(nk, nv).contains_key(key)
                            implies pairs_map(new_pairs).contains_key(key) && pairs_map(new_pairs)[key]
                            == old_map.insert(nk, nv)[key] by {
                            if key != nk {
                                let j = choose|j: int| 0 <= j < old_pairs.len() && old_pairs[j].0 == key;
                                assert(new_pairs[j] == old_pairs[j]);
                                assert(old_map.contains_key(old_pairs[j].0));
                                assert(pairs_map(new_pairs).contains_key(new_pairs[j].0));
                            } else {
                                assert(new_pairs[i as int] == (nk, nv));
                                assert(pairs_map(new_pairs).contains_key(new_pairs[i as int].0));
                            }
                        }
                    }
                }
                self.entries = entries;
                Some(old_value)
            },
            None => {
                entries.push((name, value));
                let ghost new_pairs = entries@.map_values(|e: (String, String)| (e.0@, e.1@));
                proof {
                    assert(new_pairs =~= old_pairs.push((nk, nv)));
                    assert(new_pairs.drop_last() =~= old_pairs);
                    assert forall|x: Seq<char>| old_map.contains_key(x) implies x != nk by {
                        let j = choose|j: int| 0 <= j < old_pairs.len() && old_pairs[j].0 == x;
                    }
                }
                self.entries = entries;
                None
            },
        }
    }
}

/// Two header maps are equal where they map the same names to the same
/// values, whatever order their names came in.
impl PartialEq for Headers {
    fn eq(&self, other: &Headers) -> (res: bool) {
        proof {
            use_type_invariant(self);
            use_type_invariant(other);
            lemma_pairs_map(self.pairs());
            lemma_pairs_map(other.pairs());
            lemma_distinct_len(self.pairs());
            lemma_distinct_len(other.pairs());
        }
        if self.entries.len() != other.entries.len() {
            return false;
        }
        let mut i: usize = 0;
        while i < self.entries.len()
            invariant
                self.entries@.len() == other.entries@.len(),
                self.pairs().len() == self.entries@.len(),
                i <= self.entries@.len(),
                forall|k: int| 0 <= k < i ==> #[trigger] other@.contains_key(self.pairs()[k].0)
                    && other@[self.pairs()[k].0] == self.pairs()[k].1,
            decreases self.entries.len() - i,
        {
            proof {
                use_type_invariant(self);
                use_type_invariant(other);
                lemma_pairs_map(self.pairs());
                lemma_pairs_map(other.pairs());
            }
            assert(self.pairs()[i as int] == (self.entries@[i as int].0@, self.entries@[i as int].1@));
            match other.position(&self.entries[i].0) {
                Some(j) => {
                    assert(other.pairs()[j as int] == (other.entries@[j as int].0@, other.entries@[j as int].1@));
                    assert(other@.contains_key(other.pairs()[j as int].0));
                    assert(self@.contains_key(self.pairs()[i as int].0));
                    if !(other.entries[j].1 == self.entries[i].1) {
                        return false;
                    }
                    assert(other.pairs()[j as int].0 == self.pairs()[i as int].0);
                    assert(other.pairs()[j as int].1 == self.pairs()[i as int].1);
                    assert(other@[self.pairs()[i as int].0] == self.pairs()[i as int].1);
                    assert forall|k: int| 0 <= k < i + 1 implies #[trigger] other@.contains_key(
                        self.pairs()[k].0,
                    ) && other@[self.pairs()[k].0] == self.pairs()[k].1 by {
                        if k == i {
                            assert(other@.contains_key(other.pairs()[j as int].0));
                        }
                    }
                },
                None => {
                    assert(self@.contains_key(self.pairs()[i as int].0));
                    assert(!other@.contains_key(self.pairs()[i as int].0)) by {
                        if other@.contains_key(self.pairs()[i as int].0) {
                            let j = choose|j: int| 0 <= j < other.pairs().len() && other.pairs()[j].0
                                == self.pairs()[i as int].0;
                        }
                    }
                    return false;
                },
            }
            i = i + 1;
        }
        proof {
            assert(self@.dom().subset_of(other@.dom())) by {
                assert forall|key: Seq<char>| self@.dom().contains(key) implies other@.dom().contains(key) by {
                    let k = choose|k: int| 0 <= k < self.pairs().len() && self.pairs()[k].0 == key;
                    assert(other@.contains_key(self.pairs()[k].0));
                }
            }
            vstd::set_lib::lemma_subset_equality(self@.dom(), other@.dom());
            assert(self@ =~= other@) by {
                assert forall|key: Seq<char>| #[trigger] self@.contains_key(key) implies self@[key] == other@[key] by {
                    let k = choose|k: int| 0 <= k < self.pairs().len() && self.pairs()[k].0 == key;
                    assert(other@.contains_key(self.pairs()[k].0));
                }
            }
        }
        true
    }
}

impl PartialEqSpecImpl for Headers {
    open spec fn obeys_eq_spec() -> bool {
        true
    }

    open spec fn eq_spec(&self, other: &Headers) -> bool {
        self@ == other@
    }
}

/// With distinct names, the map has as many names as there are pairs.
pub proof fn lemma_distinct_len(p: Seq<(Seq<char>, Seq<char>)>)
    requires
        names_distinct(p),
    ensures
        pairs_map(p).dom().finite(),
        pairs_map(p).len() == p.len(),
    decreases p.len(),
{
    if p.len() > 0 {
        let q = p.drop_last();
        assert(names_distinct(q));
        lemma_distinct_len(q);
        lemma_pairs_map(q);
        if pairs_map(q).contains_key(p.last().0) {
            let i = choose|i: int| 0 <= i < q.len() && q[i].0 == p.last().0;
            assert(p[i].0 == p[p.len() - 1].0);
        }
    }
}

} // verus!
