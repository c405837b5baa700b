use vstd::prelude::*;

verus! {

/// The map that a list of pairs denotes when it is read from the front: a later
/// pair overrides an earlier pair with the same key.
pub open spec fn map_of<V: View>(s: Seq<(String, V)>) -> Map<Seq<char>, V::V>
    decreases s.len(),
{
    if s.len() == 0 {
        Map::empty()
    } else {
        map_of(s.drop_last()).insert(s.last().0@, s.last().1@)
    }
}

/// No two pairs of the list share a key.
pub open spec fn keys_distinct<V>(s: Seq<(String, V)>) -> bool {
    forall|i: int, j: int| 0 <= i < j < s.len() ==> s[i].0@ != s[j].0@
}

pub proof fn lemma_map_of_push<V: View>(s: Seq<(String, V)>, p: (String, V))
    ensures
        map_of(s.push(p)) == map_of(s).insert(p.0@, p.1@),
{
    assert(s.push(p).drop_last() =~= s);
}

pub proof fn lemma_map_of_contains<V: View>(s: Seq<(String, V)>, k: Seq<char>)
    ensures
        map_of(s).contains_key(k) <==> exists|i: int| 0 <= i < s.len() && s[i].0@ == k,
    decreases s.len(),
{
    if s.len() > 0 {
        let d = s.drop_last();
        lemma_map_of_contains(d, k);
        if map_of(s).contains_key(k) {
            if k == s.last().0@ {
                assert(s[s.len() - 1].0@ == k);
            } else {
                let i = choose|i: int| 0 <= i < d.len() && d[i].0@ == k;
                assert(s[i].0@ == k);
            }
        } else {
            assert forall|i: int| 0 <= i < s.len() implies s[i].0@ != k by {
                if i < s.len() - 1 {
                    assert(d[i] == s[i]);
                }
            }
        }
    }
}

pub proof fn lemma_map_of_at<V: View>(s: Seq<(String, V)>, i: int)
    requires
        keys_distinct(s),
        0 <= i < s.len(),
    ensures
        map_of(s).contains_key(s[i].0@),
        map_of(s)[s[i].0@] == s[i].1@,
    decreases s.len(),
{
    if i < s.len() - 1 {
        let d = s.drop_last();
        assert(d[i] == s[i]);
        lemma_map_of_at(d, i);
    }
}

pub proof fn lemma_map_of_update<V: View>(s: Seq<(String, V)>, i: int, p: (String, V))
    requires
        keys_distinct(s),
        0 <= i < s.len(),
        s[i].0@ == p.0@,
    ensures
        map_of(s.update(i, p)) == map_of(s).insert(p.0@, p.1@),
    decreases s.len(),
{
    let u = s.update(i, p);
    let d = s.drop_last();
    if i == s.len() - 1 {
        assert(u.drop_last() =~= d);
        assert(map_of(u) =~= map_of(s).insert(p.0@, p.1@));
    } else {
        assert(u.drop_last() =~= d.update(i, p));
        lemma_map_of_update(d, i, p);
        assert(s.last().0@ != p.0@);
        assert(map_of(u) =~= map_of(s).insert(p.0@, p.1@));
    }
}

pub proof fn lemma_map_of_len<V: View>(s: Seq<(String, V)>)
    requires
        keys_distinct(s),
    ensures
        map_of(s).dom().finite(),
        map_of(s).len() == s.len(),
    decreases s.len(),
{
    if s.len() > 0 {
        let d = s.drop_last();
        lemma_map_of_len(d);
        lemma_map_of_contains(d, s.last().0@);
        if map_of(d).contains_key(s.last().0@) {
            let i = choose|i: int| 0 <= i < d.len() && d[i].0@ == s.last().0@;
            assert(s[i].0@ == s[s.len() - 1].0@);
        }
    }
}

/// A value that can be copied into an equal, independent value.
pub trait DeepCopy: View + Sized {
    fn deep_copy(&self) -> (r: Self)
        ensures
            r@ == self@,
    ;
}

impl DeepCopy for String {
    fn deep_copy(&self) -> (r: String) {
        self.clone()
    }
}

/// A map keyed by strings, held as a list of pairs with distinct keys in the
/// order in which the keys were first inserted.
#[derive(Debug)]
pub struct StrMap<V> {
    entries: Vec<(String, V)>,
}

impl<V: View> View for StrMap<V> {
    type V = Map<Seq<char>, V::V>;

    open spec fn view(&self) -> Map<Seq<char>, V::V> {
        map_of(self.pairs())
    }
}

impl<V> StrMap<V> {
    /// The pairs of the map, in the order in which their keys were first inserted.
    pub closed spec fn pairs(&self) -> Seq<(String, V)> {
        self.entries@
    }

    #[verifier::type_invariant]
    spec fn inv(&self) -> bool {
        keys_distinct(self.entries@)
    }
}

impl<V: View> StrMap<V> {
    /// An empty map.
    pub fn new() -> (r: Self)
        ensures
            r@ == Map::<Seq<char>, V::V>::empty(),
            r.pairs().len() == 0,
    {
        StrMap { entries: Vec::new() }
    }

    /// Number of keys.
    pub fn len(&self) -> (r: usize)
        ensures
            r == self.pairs().len(),
            r == self@.len(),
            self@.dom().finite(),
            keys_distinct(self.pairs()),
    {
        proof {
            use_type_invariant(self);
            lemma_map_of_len(self.entries@);
        }
        self.entries.len()
    }

    pub fn is_empty(&self) -> (r: bool)
        ensures
            r == (self@.len() == 0),
    {
        self.len() == 0
    }

    /// The key of the `i`-th pair.
    pub fn key_at(&self, i: usize) -> (r: &String)
        requires
            i < self.pairs().len(),
        ensures
            *r == self.pairs()[i as int].0,
    {
        &self.entries[i].0
    }

    /// The value of the `i`-th pair.
    pub fn value_at(&self, i: usize) -> (r: &V)
        requires
            i < self.pairs().len(),
        ensures
            *r == self.pairs()[i as int].1,
    {
        &self.entries[i].1
    }

    fn index_of(&self, k: &String) -> (r: Option<usize>)
        ensures
            match r {
                Some(i) => i < self.pairs().len() && self.pairs()[i as int].0@ == k@,
                None => forall|i: int| 0 <= i < self.pairs().len() ==> self.pairs()[i].0@ != k@,
            },
    {
        let mut i: usize = 0;
        while i < self.entries.len()
            invariant
                i <= self.entries@.len(),
                forall|j: int| 0 <= j < i ==> self.entries@[j].0@ != k@,
            decreases self.entries@.len() - i,
        {
            if self.entries[i].0.eq(k) {
                return Some(i);
            }
            i = i + 1;
        }
        None
    }

    /// `k` has a value.
    pub fn contains_key(&self, k: &String) -> (r: bool)
        ensures
            r == self@.contains_key(k@),
    {
        proof {
            lemma_map_of_contains(self.entries@, k@);
        }
        self.index_of(k).is_some()
    }

    /// The value of `k`, if it has one.
    pub fn get(&self, k: &String) -> (r: Option<&V>)
        ensures
            match r {
                Some(v) => self@.contains_key(k@) && v@ == self@[k@],
                None => !self@.contains_key(k@),
            },
    {
        proof {
            use_type_invariant(self);
            lemma_map_of_contains(self.entries@, k@);
        }
        match self.index_of(k) {
            Some(i) => {
                proof {
                    lemma_map_of_at(self.entries@, i as int);
                }
                Some(&self.entries[i].1)
            },
            None => None,
        }
    }

    /// Sets the value of `k`, replacing any earlier value; a new key goes last.
    pub fn insert(&mut self, k: String, v: V)
        ensures
            final(self)@ == old(self)@.insert(k@, v@),
    {
        proof {
            use_type_invariant(&*self);
        }
        let found = self.index_of(&k);
        let mut entries: Vec<(String, V)> = Vec::new();
        std::mem::swap(&mut entries, &mut self.entries);
        assert(keys_distinct(entries@));
        let pair = (k, v);
        let ghost p = pair;
        assert(p.0@ == k@);
        assert(entries@ == old(self).pairs());
        match found {
            Some(i) => {
                proof {
                    lemma_map_of_update(entries@, i as int, p);
                }
                let ghost before = entries@;
                entries.set(i, pair);
                assert forall|a: int, b: int| 0 <= a < b < entries@.len() implies entries@[a].0@
                    != entries@[b].0@ by {
                    assert(entries@[a].0@ == before[a].0@);
                    assert(entries@[b].0@ == before[b].0@);
                }
            },
            None => {
                proof {
                    lemma_map_of_push(entries@, p);
                }
                let ghost before = entries@;
                entries.push(pair);
                assert forall|a: int, b: int| 0 <= a < b < entries@.len() implies entries@[a].0@
                    != entries@[b].0@ by {
                    assert(entries@[a] == before[a]);
                    if b < before.len() {
                        assert(entries@[b] == before[b]);
                    } else {
                        assert(entries@[b] == p);
                        assert(before[a].0@ != p.0@);
                    }
                }
            },
        }
        assert(keys_distinct(entries@));
        self.entries = entries;
    }
}

impl<V: DeepCopy> StrMap<V> {
    /// A copy of the map that later changes to the map do not reach.
    pub fn deep_copy_map(&self) -> (r: Self)
        ensures
            r@ == self@,
            r.pairs().len() == self.pairs().len(),
    {
        proof {
            use_type_invariant(self);
        }
        let mut out: Vec<(String, V)> = Vec::new();
        let mut i: usize = 0;
        while i < self.entries.len()
            invariant
                i <= self.entries@.len(),
                keys_distinct(self.entries@),
                out@.len() == i,
                forall|j: int|
                    0 <= j < i ==> out@[j].0@ == self.entries@[j].0@ && out@[j].1@
                        == self.entries@[j].1@,
            decreases self.entries@.len() - i,
        {
            let k = self.entries[i].0.clone();
            let v = self.entries[i].1.deep_copy();
            out.push((k, v));
            i = i + 1;
        }
        proof {
            lemma_same_map(out@, self.entries@);
        }
        StrMap { entries: out }
    }
}

impl<V: DeepCopy> Clone for StrMap<V> {
    fn clone(&self) -> (r: Self)
        ensures
            r@ == self@,
    {
        self.deep_copy_map()
    }
}

impl<V: DeepCopy> DeepCopy for StrMap<V> {
    fn deep_copy(&self) -> (r: Self) {
        self.deep_copy_map()
    }
}

/// Two lists with the same keys and views of values, pair by pair, denote one map.
pub proof fn lemma_same_map<V: View>(a: Seq<(String, V)>, b: Seq<(String, V)>)
    requires
        a.len() == b.len(),
        forall|j: int| 0 <= j < a.len() ==> a[j].0@ == b[j].0@ && a[j].1@ == b[j].1@,
    ensures
        map_of(a) == map_of(b),
        keys_distinct(a) == keys_distinct(b),
    decreases a.len(),
{
    if a.len() > 0 {
        lemma_same_map(a.drop_last(), b.drop_last());
    }
}

} // verus!
