//! A string-keyed association map with a `Map` view, used for variable
//! frames and for the table of user functions.

use vstd::prelude::*;
use vstd::map::*;

verus! {

/// An association list from names to values, with unique keys.
pub struct StrMap<T> {
    pub pairs: Vec<(String, T)>,
}

/// The map a pair sequence denotes; later pairs win.
pub open spec fn sp_map_of<T: View>(s: Seq<(String, T)>) -> Map<Seq<char>, T::V>
    decreases s.len(),
{
    if s.len() == 0 {
        Map::empty()
    } else {
        sp_map_of(s.drop_last()).insert(s.last().0@, s.last().1@)
    }
}

/// Keys the pair sequence holds.
proof fn lemma_map_of_domain<T: View>(s: Seq<(String, T)>, k: Seq<char>)
    ensures
        sp_map_of(s).contains_key(k) <==> exists|i: int| 0 <= i < s.len() && s[i].0@ == k,
    decreases s.len(),
{
    if s.len() > 0 {
        lemma_map_of_domain(s.drop_last(), k);
        if s.last().0@ == k {
            assert(s[s.len() - 1].0@ == k);
        } else if sp_map_of(s).contains_key(k) {
            let i = choose|i: int| 0 <= i < s.drop_last().len() && s.drop_last()[i].0@ == k;
            assert(s[i].0@ == k);
        } else {
            assert forall|i: int| 0 <= i < s.len() implies s[i].0@ != k by {
                if i < s.len() - 1 {
                    assert(s.drop_last()[i].0@ == s[i].0@);
                }
            }
        }
    }
}

/// With unique keys, the pair at any index gives the map's value.
proof fn lemma_map_of_index<T: View>(s: Seq<(String, T)>, i: int)
    requires
        0 <= i < s.len(),
        forall|p: int, q: int| 0 <= p < q < s.len() ==> s[p].0@ != s[q].0@,
    ensures
        sp_map_of(s).contains_key(s[i].0@),
        sp_map_of(s)[s[i].0@] == s[i].1@,
    decreases s.len(),
{
    if i == s.len() - 1 {
    } else {
        assert(forall|p: int, q: int|
            0 <= p < q < s.drop_last().len() ==> s.drop_last()[p].0@ != s.drop_last()[q].0@);
        lemma_map_of_index(s.drop_last(), i);
        assert(s[i].0@ != s.last().0@);
    }
}

/// Updating the value at an index updates the map at that key.
proof fn lemma_map_of_update<T: View>(s: Seq<(String, T)>, i: int, kv: (String, T))
    requires
        0 <= i < s.len(),
        kv.0@ == s[i].0@,
        forall|p: int, q: int| 0 <= p < q < s.len() ==> s[p].0@ != s[q].0@,
    ensures
        sp_map_of(s.update(i, kv)) == sp_map_of(s).insert(kv.0@, kv.1@),
    decreases s.len(),
{
    let t = s.update(i, kv);
    if i == s.len() - 1 {
        assert(t.drop_last() =~= s.drop_last());
        assert(t.last() == kv);
        assert(sp_map_of(s.drop_last()).insert(s.last().0@, s.last().1@).insert(kv.0@, kv.1@)
            =~= sp_map_of(s.drop_last()).insert(kv.0@, kv.1@));
    } else {
        assert(t.drop_last() =~= s.drop_last().update(i, kv));
        assert(t.last() == s.last());
        assert(forall|p: int, q: int|
            0 <= p < q < s.drop_last().len() ==> s.drop_last()[p].0@ != s.drop_last()[q].0@);
        lemma_map_of_update(s.drop_last(), i, kv);
        assert(s[i].0@ != s.last().0@);
        assert(sp_map_of(s.drop_last()).insert(kv.0@, kv.1@).insert(s.last().0@, s.last().1@)
            =~= sp_map_of(s.drop_last()).insert(s.last().0@, s.last().1@).insert(kv.0@, kv.1@));
    }
}

/// Pairwise view-equal pair sequences denote the same map.
pub proof fn lemma_map_of_congruence<T: View>(a: Seq<(String, T)>, b: Seq<(String, T)>)
    requires
        a.len() == b.len(),
        forall|i: int| 0 <= i < a.len() ==> a[i].0@ == b[i].0@ && a[i].1@ == b[i].1@,
    ensures
        sp_map_of(a) == sp_map_of(b),
    decreases a.len(),
{
    if a.len() > 0 {
        assert(forall|i: int|
            0 <= i < a.drop_last().len() ==> a.drop_last()[i].0@ == b.drop_last()[i].0@
                && a.drop_last()[i].1@ == b.drop_last()[i].1@);
        lemma_map_of_congruence(a.drop_last(), b.drop_last());
        assert(a.last().0@ == b.last().0@ && a.last().1@ == b.last().1@);
    }
}

impl<T: View> View for StrMap<T> {
    type V = Map<Seq<char>, T::V>;

    open spec fn view(&self) -> Map<Seq<char>, T::V> {
        sp_map_of(self.pairs@)
    }
}

impl<T: View> StrMap<T> {
    /// Keys are pairwise distinct.
    pub open spec fn wf(&self) -> bool {
        forall|p: int, q: int|
            0 <= p < q < self.pairs@.len() ==> self.pairs@[p].0@ != self.pairs@[q].0@
    }

    /// An empty map.
    pub fn new() -> (r: StrMap<T>)
        ensures
            r@ == Map::<Seq<char>, T::V>::empty(),
            r.wf(),
            r.pairs@.len() == 0,
    {
        StrMap { pairs: Vec::new() }
    }

    /// Does the map bind this name?
    pub fn contains_key(&self, k: &String) -> (r: bool)
        requires
            self.wf(),
        ensures
            r == self@.contains_key(k@),
    {
        let mut i: usize = 0;
        while i < self.pairs.len()
            invariant
                self.wf(),
                i <= self.pairs@.len(),
                forall|j: int| 0 <= j < i ==> self.pairs@[j].0@ != k@,
            decreases self.pairs@.len() - i,
        {
            if self.pairs[i].0.eq(k) {
                proof {
                    lemma_map_of_domain(self.pairs@, k@);
                }
                return true;
            }
            i = i + 1;
        }
        proof {
            lemma_map_of_domain(self.pairs@, k@);
        }
        false
    }

    /// The value bound to this name, if any.
    pub fn get(&self, k: &String) -> (r: Option<&T>)
        requires
            self.wf(),
        ensures
            match r {
                Some(v) => self@.contains_key(k@) && v@ == self@[k@],
                None => !self@.contains_key(k@),
            },
    {
        let mut i: usize = 0;
        while i < self.pairs.len()
            invariant
                self.wf(),
                i <= self.pairs@.len(),
                forall|j: int| 0 <= j < i ==> self.pairs@[j].0@ != k@,
            decreases self.pairs@.len() - i,
        {
            if self.pairs[i].0.eq(k) {
                proof {
                    lemma_map_of_index(self.pairs@, i as int);
                }
                return Some(&self.pairs[i].1);
            }
            i = i + 1;
        }
        proof {
            lemma_map_of_domain(self.pairs@, k@);
        }
        None
    }

    /// Bind a name, overwriting any earlier binding.
    pub fn insert(&mut self, k: String, v: T)
        requires
            old(self).wf(),
        ensures
            final(self).wf(),
            final(self)@ == old(self)@.insert(k@, v@),
    {
        let mut i: usize = 0;
        while i < self.pairs.len()
            invariant
                self.wf(),
                i <= self.pairs@.len(),
                self.pairs@ == old(self).pairs@,
                forall|j: int| 0 <= j < i ==> self.pairs@[j].0@ != k@,
            decreases self.pairs@.len() - i,
        {
            if self.pairs[i].0.eq(&k) {
                proof {
                    lemma_map_of_update(self.pairs@, i as int, (k, v));
                }
                let ghost before = self.pairs@;
                self.pairs.set(i, (k, v));
                proof {
                    assert forall|p: int, q: int|
                        0 <= p < q < self.pairs@.len() implies self.pairs@[p].0@
                        != self.pairs@[q].0@ by {
                        assert(before[p].0@ != before[q].0@);
                    }
                }
                return ;
            }
            i = i + 1;
        }
        proof {
            lemma_map_of_domain(self.pairs@, k@);
        }
        self.pairs.push((k, v));
        proof {
            assert(self.pairs@.drop_last() =~= old(self).pairs@);
        }
    }

    /// How many names are bound.
    pub fn len(&self) -> (r: usize)
        ensures
            r == self.pairs@.len(),
    {
        self.pairs.len()
    }
}

} // verus!
