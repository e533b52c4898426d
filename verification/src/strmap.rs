//! A map from texts to values, in the order in which the keys came.
use crate::text;
use vstd::prelude::*;

verus! {

/// The keys are all different.
pub open spec fn distinct_keys<V>(s: Seq<(String, V)>) -> bool {
    forall|i: int, j: int|
        0 <= i < j < s.len() ==> (#[trigger] s[i]).0@ != (#[trigger] s[j]).0@
}

/// `k` is the key of an entry.
pub open spec fn has_key<V>(s: Seq<(String, V)>, k: Seq<char>) -> bool {
    exists|i: int| 0 <= i < s.len() && (#[trigger] s[i]).0@ == k
}

/// The value that stands with `k`.
pub open spec fn value_of<V>(s: Seq<(String, V)>, k: Seq<char>) -> V {
    s[choose|i: int| 0 <= i < s.len() && (#[trigger] s[i]).0@ == k].1
}

pub open spec fn entries_map<V>(s: Seq<(String, V)>) -> Map<Seq<char>, V> {
    Map::new(|k: Seq<char>| has_key(s, k), |k: Seq<char>| value_of(s, k))
}

/// A map from texts to values.
pub struct StrMap<V> {
    entries: Vec<(String, V)>,
}

impl<V> View for StrMap<V> {
    type V = Map<Seq<char>, V>;

    closed spec fn view(&self) -> Map<Seq<char>, V> {
        entries_map(self.entries@)
    }
}

proof fn lemma_value<V>(s: Seq<(String, V)>, i: int)
    requires
        distinct_keys(s),
        0 <= i < s.len(),
    ensures
        has_key(s, s[i].0@),
        value_of(s, s[i].0@) == s[i].1,
        entries_map(s).dom().contains(s[i].0@),
        entries_map(s)[s[i].0@] == s[i].1,
{
    let k = s[i].0@;
    let c = choose|c: int| 0 <= c < s.len() && (#[trigger] s[c]).0@ == k;
    assert(s[i].0@ == k);
    assert(0 <= c < s.len() && s[c].0@ == k);
    if c < i {
        assert(s[c].0@ != s[i].0@);
    }
    if i < c {
        assert(s[i].0@ != s[c].0@);
    }
}

proof fn lemma_push<V>(s: Seq<(String, V)>, e: (String, V))
    requires
        distinct_keys(s),
        !has_key(s, e.0@),
    ensures
        distinct_keys(s.push(e)),
        entries_map(s.push(e)) == entries_map(s).insert(e.0@, e.1),
{
    let t = s.push(e);
    assert(distinct_keys(t));
    lemma_value(t, s.len() as int);
    assert forall|k: Seq<char>| has_key(t, k) == (has_key(s, k) || k == e.0@) by {
        if has_key(s, k) {
            let i = choose|i: int| 0 <= i < s.len() && (#[trigger] s[i]).0@ == k;
            assert(t[i].0@ == k);
        }
        if has_key(t, k) {
            let i = choose|i: int| 0 <= i < t.len() && (#[trigger] t[i]).0@ == k;
            if i < s.len() {
                assert(s[i].0@ == k);
            }
        }
        if k == e.0@ {
            assert(t[s.len() as int].0@ == k);
        }
    }
    assert forall|k: Seq<char>| has_key(s, k) implies value_of(t, k) == value_of(s, k) by {
        let i = choose|i: int| 0 <= i < s.len() && (#[trigger] s[i]).0@ == k;
        lemma_value(s, i);
        assert(t[i] == s[i]);
        lemma_value(t, i);
    }
    assert(entries_map(t) =~= entries_map(s).insert(e.0@, e.1));
}

proof fn lemma_update<V>(s: Seq<(String, V)>, i: int, e: (String, V))
    requires
        distinct_keys(s),
        0 <= i < s.len(),
        s[i].0@ == e.0@,
    ensures
        distinct_keys(s.update(i, e)),
        entries_map(s.update(i, e)) == entries_map(s).insert(e.0@, e.1),
{
    let t = s.update(i, e);
    assert(distinct_keys(t)) by {
        assert forall|a: int, b: int| 0 <= a < b < t.len() implies (#[trigger] t[a]).0@ != (
        #[trigger] t[b]).0@ by {
            assert(s[a].0@ != s[b].0@);
        }
    }
    lemma_value(t, i);
    assert forall|k: Seq<char>| has_key(t, k) == has_key(s, k) by {
        if has_key(s, k) {
            let j = choose|j: int| 0 <= j < s.len() && (#[trigger] s[j]).0@ == k;
            assert(t[j].0@ == k);
        }
        if has_key(t, k) {
            let j = choose|j: int| 0 <= j < t.len() && (#[trigger] t[j]).0@ == k;
            assert(s[j].0@ == k);
        }
    }
    assert(has_key(s, e.0@)) by {
        assert(s[i].0@ == e.0@);
    }
    assert forall|k: Seq<char>| has_key(s, k) && k != e.0@ implies value_of(t, k) == value_of(
        s,
        k,
    ) by {
        let j = choose|j: int| 0 <= j < s.len() && (#[trigger] s[j]).0@ == k;
        lemma_value(s, j);
        assert(t[j] == s[j]);
        lemma_value(t, j);
    }
    assert(entries_map(t) =~= entries_map(s).insert(e.0@, e.1));
}

proof fn lemma_remove<V>(s: Seq<(String, V)>, i: int)
    requires
        distinct_keys(s),
        0 <= i < s.len(),
    ensures
        distinct_keys(s.remove(i)),
        entries_map(s.remove(i)) == entries_map(s).remove(s[i].0@),
{
    let t = s.remove(i);
    let gone = s[i].0@;
    assert forall|a: int| 0 <= a < t.len() implies #[trigger] t[a] == s[if a < i {
        a
    } else {
        a + 1
    }] by {}
    assert(distinct_keys(t)) by {
        assert forall|a: int, b: int| 0 <= a < b < t.len() implies (#[trigger] t[a]).0@ != (
        #[trigger] t[b]).0@ by {
            let a2: int = if a < i {
                a
            } else {
                a + 1
            };
            let b2: int = if b < i {
                b
            } else {
                b + 1
            };
            assert(s[a2].0@ != s[b2].0@);
        }
    }
    assert forall|k: Seq<char>| has_key(t, k) == (has_key(s, k) && k != gone) by {
        if has_key(s, k) && k != gone {
            let j = choose|j: int| 0 <= j < s.len() && (#[trigger] s[j]).0@ == k;
            let j2: int = if j < i {
                j
            } else {
                j - 1
            };
            assert(t[j2] == s[j]);
        }
        if has_key(t, k) {
            let j = choose|j: int| 0 <= j < t.len() && (#[trigger] t[j]).0@ == k;
            let j2: int = if j < i {
                j
            } else {
                j + 1
            };
            assert(s[j2].0@ == k);
            if j2 < i {
                assert(s[j2].0@ != s[i].0@);
            } else {
                assert(s[i].0@ != s[j2].0@);
            }
        }
    }
    assert forall|k: Seq<char>| has_key(t, k) implies value_of(t, k) == value_of(s, k) by {
        let j = choose|j: int| 0 <= j < t.len() && (#[trigger] t[j]).0@ == k;
        let j2: int = if j < i {
            j
        } else {
            j + 1
        };
        lemma_value(t, j);
        assert(t[j] == s[j2]);
        lemma_value(s, j2);
    }
    assert(entries_map(t) =~= entries_map(s).remove(gone));
}

proof fn lemma_size<V>(s: Seq<(String, V)>)
    requires
        distinct_keys(s),
    ensures
        entries_map(s).dom().finite(),
        entries_map(s).dom().len() == s.len(),
    decreases s.len(),
{
    if s.len() == 0 {
        assert(entries_map(s).dom() =~= Set::<Seq<char>>::empty());
    } else {
        let t = s.drop_last();
        assert(distinct_keys(t)) by {
            assert forall|a: int, b: int| 0 <= a < b < t.len() implies (#[trigger] t[a]).0@ != (
            #[trigger] t[b]).0@ by {
                assert(s[a].0@ != s[b].0@);
            }
        }
        lemma_size(t);
        let e = s.last();
        assert(!has_key(t, e.0@)) by {
            if has_key(t, e.0@) {
                let i = choose|i: int| 0 <= i < t.len() && (#[trigger] t[i]).0@ == e.0@;
                assert(s[i].0@ != s[s.len() - 1].0@);
            }
        }
        lemma_push(t, e);
        assert(t.push(e) =~= s);
        assert(entries_map(s).dom() =~= entries_map(t).dom().insert(e.0@));
    }
}

proof fn lemma_keys<V>(s: Seq<(String, V)>)
    requires
        distinct_keys(s),
    ensures
        s.map_values(|e: (String, V)| e.0@).no_duplicates(),
        forall|k: Seq<char>|
            s.map_values(|e: (String, V)| e.0@).contains(k) == #[trigger] entries_map(
                s,
            ).dom().contains(k),
{
    let ks = s.map_values(|e: (String, V)| e.0@);
    assert forall|i: int, j: int| 0 <= i < ks.len() && 0 <= j < ks.len() && i != j implies ks[i]
        != ks[j] by {
        assert(ks[i] == s[i].0@);
        assert(ks[j] == s[j].0@);
    }
    assert forall|k: Seq<char>| ks.contains(k) == #[trigger] entries_map(s).dom().contains(k) by {
        if ks.contains(k) {
            let i = choose|i: int| 0 <= i < ks.len() && ks[i] == k;
            assert(s[i].0@ == k);
        }
        if has_key(s, k) {
            let i = choose|i: int| 0 <= i < s.len() && (#[trigger] s[i]).0@ == k;
            assert(ks[i] == k);
        }
    }
}

impl<V> StrMap<V> {
    #[verifier::type_invariant]
    spec fn inv(self) -> bool {
        distinct_keys(self.entries@)
    }

    /// The keys in the order in which they came.
    pub closed spec fn keys(self) -> Seq<Seq<char>> {
        self.entries@.map_values(|e: (String, V)| e.0@)
    }

    pub fn new() -> (r: Self)
        ensures
            r@ == Map::<Seq<char>, V>::empty(),
            r.keys() == Seq::<Seq<char>>::empty(),
    {
        let r = StrMap { entries: Vec::new() };
        proof {
            assert(r@ =~= Map::<Seq<char>, V>::empty());
            assert(r.keys() =~= Seq::<Seq<char>>::empty());
        }
        r
    }

    /// How many keys there are. The list of keys holds each of them once.
    pub fn len(&self) -> (r: usize)
        ensures
            self@.dom().finite(),
            r == self@.dom().len(),
            r == self.keys().len(),
            self.keys().no_duplicates(),
            forall|k: Seq<char>| self.keys().contains(k) == #[trigger] self@.dom().contains(k),
    {
        proof {
            use_type_invariant(self);
            lemma_size(self.entries@);
            lemma_keys(self.entries@);
        }
        self.entries.len()
    }

    fn position(&self, key: &str) -> (r: Option<usize>)
        ensures
            match r {
                Some(i) => i < self.entries@.len() && self.entries@[i as int].0@ == key@,
                None => !has_key(self.entries@, key@),
            },
    {
        let mut i: usize = 0;
        while i < self.entries.len()
            invariant
                i <= self.entries@.len(),
                forall|j: int| 0 <= j < i ==> (#[trigger] self.entries@[j]).0@ != key@,
            decreases self.entries@.len() - i,
        {
            if text::same(self.entries[i].0.as_str(), key) {
                return Some(i);
            }
            i = i + 1;
        }
        None
    }

    pub fn contains_key(&self, key: &str) -> (r: bool)
        ensures
            r == self@.dom().contains(key@),
    {
        match self.position(key) {
            Some(i) => {
                proof {
                    use_type_invariant(self);
                    lemma_value(self.entries@, i as int);
                }
                true
            },
            None => false,
        }
    }

    pub fn get(&self, key: &str) -> (r: Option<&V>)
        ensures
            match r {
                Some(v) => self@.dom().contains(key@) && *v == self@[key@],
                None => !self@.dom().contains(key@),
            },
    {
        match self.position(key) {
            Some(i) => {
                proof {
                    use_type_invariant(self);
                    lemma_value(self.entries@, i as int);
                }
                Some(&self.entries[i].1)
            },
            None => None,
        }
    }

    /// The key that came as the `i`-th.
    pub fn key_at(&self, i: usize) -> (r: &str)
        requires
            i < self.keys().len(),
        ensures
            r@ == self.keys()[i as int],
            self@.dom().contains(r@),
    {
        proof {
            use_type_invariant(self);
            lemma_value(self.entries@, i as int);
        }
        self.entries[i].0.as_str()
    }

    /// The value of the key that came as the `i`-th.
    pub fn value_at(&self, i: usize) -> (r: &V)
        requires
            i < self.keys().len(),
        ensures
            self@.dom().contains(self.keys()[i as int]),
            *r == self@[self.keys()[i as int]],
    {
        proof {
            use_type_invariant(self);
            lemma_value(self.entries@, i as int);
        }
        &self.entries[i].1
    }

    /// Puts a value at a key, in place of the one that stands there.
    pub fn insert(&mut self, key: String, value: V)
        ensures
            final(self)@ == old(self)@.insert(key@, value),
            final(self).keys() == (if old(self)@.dom().contains(key@) {
                old(self).keys()
            } else {
                old(self).keys().push(key@)
            }),
    {
        proof {
            use_type_invariant(&*self);
        }
        let mut entries: Vec<(String, V)> = Vec::new();
        match self.position(key.as_str()) {
            Some(i) => {
                let ghost before = self.entries@;
                std::mem::swap(&mut entries, &mut self.entries);
                proof {
                    lemma_value(before, i as int);
                    lemma_update(before, i as int, (key, value));
                }
                let ghost e = (key, value);
                entries.set(i, (key, value));
                proof {
                    assert(entries@ =~= before.update(i as int, e));
                    assert(entries@.map_values(|e: (String, V)| e.0@) =~= before.map_values(
                        |e: (String, V)| e.0@,
                    ));
                }
                self.entries = entries;
            },
            None => {
                let ghost before = self.entries@;
                std::mem::swap(&mut entries, &mut self.entries);
                let ghost e = (key, value);
                proof {
                    lemma_push(before, e);
                }
                entries.push((key, value));
                proof {
                    assert(entries@ =~= before.push(e));
                    assert(entries@.map_values(|e: (String, V)| e.0@) =~= before.map_values(
                        |e: (String, V)| e.0@,
                    ).push(e.0@));
                }
                self.entries = entries;
            },
        }
    }

    /// Takes a key and its value out.
    pub fn remove(&mut self, key: &str) -> (r: Option<V>)
        ensures
            final(self)@ == old(self)@.remove(key@),
            match r {
                Some(v) => old(self)@.dom().contains(key@) && v == old(self)@[key@],
                None => !old(self)@.dom().contains(key@) && *final(self) == *old(self),
            },
    {
        proof {
            use_type_invariant(&*self);
        }
        let mut entries: Vec<(String, V)> = Vec::new();
        match self.position(key) {
            Some(i) => {
                let ghost before = self.entries@;
                proof {
                    lemma_value(before, i as int);
                    lemma_remove(before, i as int);
                }
                std::mem::swap(&mut entries, &mut self.entries);
                let e = entries.remove(i);
                self.entries = entries;
                Some(e.1)
            },
            None => {
                assert(self@.remove(key@) =~= self@);
                None
            },
        }
    }
}

/// A map from pairs of texts to values.
pub struct PairMap<V> {
    outer: StrMap<StrMap<V>>,
}

impl<V> View for PairMap<V> {
    type V = Map<(Seq<char>, Seq<char>), V>;

    closed spec fn view(&self) -> Map<(Seq<char>, Seq<char>), V> {
        Map::new(
            |k: (Seq<char>, Seq<char>)|
                self.outer@.dom().contains(k.0) && self.outer@[k.0]@.dom().contains(k.1),
            |k: (Seq<char>, Seq<char>)| self.outer@[k.0]@[k.1],
        )
    }
}

impl<V> PairMap<V> {
    pub fn new() -> (r: Self)
        ensures
            r@ == Map::<(Seq<char>, Seq<char>), V>::empty(),
    {
        let r = PairMap { outer: StrMap::new() };
        assert(r@ =~= Map::<(Seq<char>, Seq<char>), V>::empty());
        r
    }

    pub fn get(&self, a: &str, b: &str) -> (r: Option<&V>)
        ensures
            match r {
                Some(v) => self@.dom().contains((a@, b@)) && *v == self@[(a@, b@)],
                None => !self@.dom().contains((a@, b@)),
            },
    {
        match self.outer.get(a) {
            Some(inner) => inner.get(b),
            None => None,
        }
    }

    pub fn contains_key(&self, a: &str, b: &str) -> (r: bool)
        ensures
            r == self@.dom().contains((a@, b@)),
    {
        match self.outer.get(a) {
            Some(inner) => inner.contains_key(b),
            None => false,
        }
    }

    pub fn insert(&mut self, a: String, b: String, value: V)
        ensures
            final(self)@ == old(self)@.insert((a@, b@), value),
    {
        let mut inner: StrMap<V> = match self.outer.remove(a.as_str()) {
            Some(inner) => inner,
            None => StrMap::new(),
        };
        inner.insert(b, value);
        self.outer.insert(a, inner);
        assert(self@ =~= old(self)@.insert((a@, b@), value));
    }

    pub fn remove(&mut self, a: &str, b: &str) -> (r: Option<V>)
        ensures
            final(self)@ == old(self)@.remove((a@, b@)),
            match r {
                Some(v) => old(self)@.dom().contains((a@, b@)) && v == old(self)@[(a@, b@)],
                None => !old(self)@.dom().contains((a@, b@)),
            },
    {
        match self.outer.remove(a) {
            Some(mut inner) => {
                let gone = inner.remove(b);
                self.outer.insert(crate::text::owned(a), inner);
                assert(self@ =~= old(self)@.remove((a@, b@)));
                gone
            },
            None => {
                assert(self@ =~= old(self)@.remove((a@, b@)));
                None
            },
        }
    }
}

/// A set of texts.
pub struct StrSet {
    map: StrMap<()>,
}

impl View for StrSet {
    type V = Set<Seq<char>>;

    closed spec fn view(&self) -> Set<Seq<char>> {
        self.map@.dom()
    }
}

impl StrSet {
    /// The texts in the order in which they came.
    pub closed spec fn items(self) -> Seq<Seq<char>> {
        self.map.keys()
    }

    pub fn new() -> (r: Self)
        ensures
            r@ == Set::<Seq<char>>::empty(),
    {
        let r = StrSet { map: StrMap::new() };
        assert(r@ =~= Set::<Seq<char>>::empty());
        r
    }

    /// How many texts there are. The list of them holds each once.
    pub fn len(&self) -> (r: usize)
        ensures
            self@.finite(),
            r == self@.len(),
            r == self.items().len(),
            self.items().no_duplicates(),
            forall|k: Seq<char>| self.items().contains(k) == #[trigger] self@.contains(k),
    {
        self.map.len()
    }

    pub fn contains(&self, s: &str) -> (r: bool)
        ensures
            r == self@.contains(s@),
    {
        self.map.contains_key(s)
    }

    pub fn item_at(&self, i: usize) -> (r: &str)
        requires
            i < self.items().len(),
        ensures
            r@ == self.items()[i as int],
            self@.contains(r@),
    {
        self.map.key_at(i)
    }

    /// Puts the text in, and says whether it is new.
    pub fn insert(&mut self, s: String) -> (r: bool)
        ensures
            final(self)@ == old(self)@.insert(s@),
            r == !old(self)@.contains(s@),
    {
        let ghost before = self@;
        let ghost k = s@;
        let new: bool = !self.map.contains_key(s.as_str());
        self.map.insert(s, ());
        assert(self@ =~= before.insert(k));
        new
    }

    /// Takes the text out, and says whether it was there.
    pub fn remove(&mut self, s: &str) -> (r: bool)
        ensures
            final(self)@ == old(self)@.remove(s@),
            r == old(self)@.contains(s@),
    {
        let ghost before = self@;
        let gone: Option<()> = self.map.remove(s);
        assert(self@ =~= before.remove(s@));
        gone.is_some()
    }

    /// The texts, each once, in order.
    pub fn sorted(&self) -> (r: Vec<String>)
        ensures
            text::texts(r@).no_duplicates(),
            text::texts(r@).to_set() == self@,
            text::is_sorted(text::texts(r@)),
    {
        let v: Vec<String> = self.to_vec();
        text::sort_texts(&v)
    }

    /// The texts, each once.
    pub fn to_vec(&self) -> (r: Vec<String>)
        ensures
            text::texts(r@) == self.items(),
            text::texts(r@).no_duplicates(),
            text::texts(r@).to_set() == self@,
    {
        let n: usize = self.len();
        let mut out: Vec<String> = Vec::new();
        let mut i: usize = 0;
        while i < n
            invariant
                i <= n,
                n == self.items().len(),
                text::texts(out@) == self.items().take(i as int),
            decreases n - i,
        {
            let ghost before = text::texts(out@);
            out.push(text::owned(self.item_at(i)));
            assert(text::texts(out@) =~= before.push(self.items()[i as int]));
            assert(self.items().take(i + 1) =~= self.items().take(i as int).push(
                self.items()[i as int],
            ));
            i = i + 1;
        }
        proof {
            assert(self.items().take(n as int) =~= self.items());
            assert forall|k: Seq<char>| self.items().to_set().contains(k) == self@.contains(k) by {
                assert(self.items().contains(k) == self@.contains(k));
            }
            assert(self.items().to_set() =~= self@);
        }
        out
    }
}

/// What a list holds after one more was pushed.
pub proof fn lemma_push_contains<A>(s: Seq<A>, x: A)
    ensures
        forall|k: A| #[trigger] s.push(x).contains(k) == (s.contains(k) || k == x),
{
    let t = s.push(x);
    assert forall|k: A| #[trigger] t.contains(k) == (s.contains(k) || k == x) by {
        if s.contains(k) {
            let j = choose|j: int| 0 <= j < s.len() && s[j] == k;
            assert(t[j] == k);
        }
        if t.contains(k) {
            let j = choose|j: int| 0 <= j < t.len() && t[j] == k;
            if j < s.len() {
                assert(s[j] == k);
            }
        }
        assert(t[s.len() as int] == x);
    }
}

/// A map by the views of its values.
pub open spec fn views<V: View>(m: Map<Seq<char>, V>) -> Map<Seq<char>, V::V> {
    m.map_values(|v: V| v@)
}

/// The entries of the last `limit` seconds before `now`.
pub open spec fn recent(m: Map<Seq<char>, i64>, now: i64, limit: i64) -> Map<Seq<char>, i64> {
    Map::new(|k: Seq<char>| m.dom().contains(k) && now - m[k] < limit, |k: Seq<char>| m[k])
}

/// Drops all but the entries of the last `limit` seconds before `now`.
pub fn keep_recent(m: &mut StrMap<i64>, now: i64, limit: i64)
    ensures
        final(m)@ == recent(old(m)@, now, limit),
{
    let n: usize = m.len();
    let mut out: StrMap<i64> = StrMap::new();
    let mut i: usize = 0;
    while i < n
        invariant
            i <= n,
            n == m.keys().len(),
            m@ == old(m)@,
            forall|k: Seq<char>| m.keys().contains(k) == #[trigger] m@.dom().contains(k),
            m.keys().no_duplicates(),
            forall|k: Seq<char>|
                out@.dom().contains(k) <==> (m.keys().take(i as int).contains(k) && now - m@[k]
                    < limit),
            forall|k: Seq<char>| #[trigger] out@.dom().contains(k) ==> out@[k] == m@[k],
        decreases n - i,
    {
        let t: i64 = *m.value_at(i);
        let ghost k0 = m.keys()[i as int];
        let ghost before = m.keys().take(i as int);
        let ghost after = m.keys().take(i + 1);
        assert(after =~= before.push(k0));
        proof {
            lemma_push_contains(before, k0);
        }
        if now as i128 - (t as i128) < limit as i128 {
            out.insert(text::owned(m.key_at(i)), t);
        }
        i = i + 1;
    }
    proof {
        assert(m.keys().take(n as int) =~= m.keys());
        assert(out@ =~= recent(old(m)@, now, limit));
    }
    *m = out;
}

} // verus!
