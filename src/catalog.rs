use vstd::prelude::*;

verus! {

/// The mapping that a sequence of (key, text) pairs describes; a later pair
/// for the same key replaces an earlier one.
pub open spec fn map_of(s: Seq<(Seq<char>, Seq<char>)>) -> Map<Seq<char>, Seq<char>>
    decreases s.len(),
{
    if s.len() == 0 {
        Map::empty()
    } else {
        map_of(s.drop_last()).insert(s.last().0, s.last().1)
    }
}

/// No key occurs twice in `s`.
pub open spec fn keys_unique(s: Seq<(Seq<char>, Seq<char>)>) -> bool {
    forall|i: int, j: int| 0 <= i < j < s.len() ==> #[trigger] s[i].0 != #[trigger] s[j].0
}

/// The views of a sequence of string pairs.
pub open spec fn pair_views(s: Seq<(String, String)>) -> Seq<(Seq<char>, Seq<char>)> {
    s.map_values(|p: (String, String)| (p.0@, p.1@))
}

/// A key is in `map_of(s)` exactly when some pair carries it.
pub proof fn lemma_map_of_domain(s: Seq<(Seq<char>, Seq<char>)>, k: Seq<char>)
    ensures
        map_of(s).contains_key(k) <==> exists|i: int| 0 <= i < s.len() && #[trigger] s[i].0 == k,
    decreases s.len(),
{
    if s.len() > 0 {
        let t = s.drop_last();
        lemma_map_of_domain(t, k);
        if map_of(s).contains_key(k) && s.last().0 != k {
            let i = choose|i: int| 0 <= i < t.len() && #[trigger] t[i].0 == k;
            assert(s[i].0 == k);
        }
        if exists|i: int| 0 <= i < s.len() && #[trigger] s[i].0 == k {
            let i = choose|i: int| 0 <= i < s.len() && #[trigger] s[i].0 == k;
            if i < s.len() - 1 {
                assert(t[i].0 == k);
            }
        }
    }
}

/// With unique keys, each pair's text is the value of its key.
pub proof fn lemma_map_of_value(s: Seq<(Seq<char>, Seq<char>)>, i: int)
    requires
        keys_unique(s),
        0 <= i < s.len(),
    ensures
        map_of(s).contains_key(s[i].0),
        map_of(s)[s[i].0] == s[i].1,
    decreases s.len(),
{
    let t = s.drop_last();
    if i < s.len() - 1 {
        assert(t[i] == s[i]);
        lemma_map_of_value(t, i);
        assert(s[i].0 != s[s.len() - 1].0);
    }
}

/// A sequence with unique keys describes `m` when its pairs are exactly the entries of `m`.
pub proof fn lemma_map_of_ext(
    s: Seq<(Seq<char>, Seq<char>)>,
    m: Map<Seq<char>, Seq<char>>,
)
    requires
        keys_unique(s),
        forall|i: int| #![trigger s[i]] 0 <= i < s.len() ==> m.contains_key(s[i].0) && m[s[i].0] == s[i].1,
        forall|k: Seq<char>| #[trigger] m.contains_key(k) ==> exists|i: int| 0 <= i < s.len() && #[trigger] s[i].0 == k,
    ensures
        map_of(s) == m,
{
    assert forall|k: Seq<char>| #[trigger] map_of(s).contains_key(k) == m.contains_key(k) by {
        lemma_map_of_domain(s, k);
        if map_of(s).contains_key(k) {
            let i = choose|i: int| 0 <= i < s.len() && #[trigger] s[i].0 == k;
            assert(m.contains_key(s[i].0));
        }
    }
    assert forall|k: Seq<char>| #[trigger] map_of(s).contains_key(k) implies map_of(s)[k] == m[k] by {
        lemma_map_of_domain(s, k);
        let i = choose|i: int| 0 <= i < s.len() && #[trigger] s[i].0 == k;
        lemma_map_of_value(s, i);
    }
    assert(map_of(s) =~= m);
}

/// A key-to-text catalog, kept as pairs with unique keys.
pub struct Catalog {
    pub entries: Vec<(String, String)>,
}

impl View for Catalog {
    type V = Map<Seq<char>, Seq<char>>;

    open spec fn view(&self) -> Map<Seq<char>, Seq<char>> {
        map_of(pair_views(self.entries@))
    }
}

impl Catalog {
    /// Each key occurs once.
    pub open spec fn wf(&self) -> bool {
        keys_unique(pair_views(self.entries@))
    }

    pub fn new() -> (r: Catalog)
        ensures
            r.wf(),
            r@ == Map::<Seq<char>, Seq<char>>::empty(),
    {
        let r = Catalog { entries: Vec::new() };
        assert(pair_views(r.entries@) =~= Seq::empty());
        r
    }

    /// Builds a catalog from pairs; a later pair for a key replaces an earlier one.
    pub fn from_pairs(pairs: &Vec<(String, String)>) -> (r: Catalog)
        ensures
            r.wf(),
            r@ == map_of(pair_views(pairs@)),
    {
        let mut r = Catalog::new();
        let mut i: usize = 0;
        while i < pairs.len()
            invariant
                i <= pairs.len(),
                r.wf(),
                r@ == map_of(pair_views(pairs@.take(i as int))),
            decreases pairs.len() - i,
        {
            let p = &pairs[i];
            r.insert(p.0.clone(), p.1.clone());
            proof {
                let t = pair_views(pairs@.take(i as int + 1));
                assert(t.drop_last() =~= pair_views(pairs@.take(i as int)));
            }
            i = i + 1;
        }
        assert(pairs@.take(pairs.len() as int) =~= pairs@);
        r
    }

    /// The position of `key`, if it is present.
    pub fn find(&self, key: &String) -> (r: Option<usize>)
        requires
            self.wf(),
        ensures
            match r {
                Some(i) => i < self.entries.len() && self.entries@[i as int].0@ == key@
                    && self@.contains_key(key@) && self@[key@] == self.entries@[i as int].1@,
                None => !self@.contains_key(key@),
            },
    {
        let mut i: usize = 0;
        while i < self.entries.len()
            invariant
                i <= self.entries.len(),
                self.wf(),
                forall|j: int| 0 <= j < i ==> #[trigger] self.entries@[j].0@ != key@,
            decreases self.entries.len() - i,
        {
            if self.entries[i].0 == *key {
                proof {
                    lemma_map_of_value(pair_views(self.entries@), i as int);
                }
                return Some(i);
            }
            i = i + 1;
        }
        proof {
            let s = pair_views(self.entries@);
            lemma_map_of_domain(s, key@);
            if self@.contains_key(key@) {
                let j = choose|j: int| 0 <= j < s.len() && #[trigger] s[j].0 == key@;
                assert(self.entries@[j].0@ == key@);
            }
        }
        None
    }

    /// Whether `key` is present.
    pub fn contains_key(&self, key: &String) -> (r: bool)
        requires
            self.wf(),
        ensures
            r == self@.contains_key(key@),
    {
        self.find(key).is_some()
    }

    /// Sets the text of `key`, replacing any text it had.
    pub fn insert(&mut self, key: String, value: String)
        requires
            old(self).wf(),
        ensures
            final(self).wf(),
            final(self)@ == old(self)@.insert(key@, value@),
    {
        let ghost m = old(self)@.insert(key@, value@);
        let ghost s0 = pair_views(old(self).entries@);
        match self.find(&key) {
            Some(i) => {
                self.entries.set(i, (key, value));
                proof {
                    let s = pair_views(self.entries@);
                    assert(s =~= s0.update(i as int, (key@, value@)));
                    assert forall|a: int, b: int| 0 <= a < b < s.len() implies #[trigger] s[a].0
                        != #[trigger] s[b].0 by {
                        assert(s0[a].0 != s0[b].0);
                    }
                    assert forall|k: Seq<char>| #[trigger] m.contains_key(k) implies exists|j: int|
                        0 <= j < s.len() && #[trigger] s[j].0 == k by {
                        if k != key@ {
                            lemma_map_of_domain(s0, k);
                            let j = choose|j: int| 0 <= j < s0.len() && #[trigger] s0[j].0 == k;
                            assert(s[j].0 == k);
                        } else {
                            assert(s[i as int].0 == k);
                        }
                    }
                    assert forall|j: int| #![trigger s[j]] 0 <= j < s.len() implies m.contains_key(s[j].0)
                        && m[s[j].0] == s[j].1 by {
                        if j != i {
                            assert(s[j] == s0[j]);
                            assert(s0[j].0 != s0[i as int].0);
                            lemma_map_of_value(s0, j);
                        }
                    }
                    lemma_map_of_ext(s, m);
                }
            },
            None => {
                self.entries.push((key, value));
                proof {
                    let s = pair_views(self.entries@);
                    assert(s.drop_last() =~= s0);
                    assert forall|a: int, b: int| 0 <= a < b < s.len() implies #[trigger] s[a].0
                        != #[trigger] s[b].0 by {
                        if b == s.len() - 1 {
                            lemma_map_of_domain(s0, key@);
                            assert(s0[a].0 == s[a].0);
                        } else {
                            assert(s0[a] == s[a] && s0[b] == s[b]);
                        }
                    }
                }
            },
        }
    }
}

impl Catalog {
    /// Sets each pair in turn, so a later pair wins over an earlier one and over the catalog.
    pub fn extend(&mut self, pairs: &Vec<(String, String)>)
        requires
            old(self).wf(),
        ensures
            final(self).wf(),
            final(self)@ == old(self)@.union_prefer_right(map_of(pair_views(pairs@))),
    {
        let ghost base = self@;
        let mut i: usize = 0;
        while i < pairs.len()
            invariant
                i <= pairs.len(),
                self.wf(),
                self@ == base.union_prefer_right(map_of(pair_views(pairs@.take(i as int)))),
            decreases pairs.len() - i,
        {
            let p = &pairs[i];
            self.insert(p.0.clone(), p.1.clone());
            proof {
                let t = pair_views(pairs@.take(i as int + 1));
                assert(t.drop_last() =~= pair_views(pairs@.take(i as int)));
                assert(self@ =~= base.union_prefer_right(map_of(t)));
            }
            i = i + 1;
        }
        assert(pairs@.take(pairs.len() as int) =~= pairs@);
    }
}

} // verus!
