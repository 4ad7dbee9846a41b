//! Maps and sets keyed by texts that remember the order in which keys first came.

use crate::text::Text;
use vstd::hash_map::StringHashMap;
use vstd::prelude::*;

verus! {

/// The parts of a [`StringMap`].
struct MapParts<V> {
    keys: Vec<String>,
    values: Vec<V>,
    index: StringHashMap<usize>,
}

impl<V> MapParts<V> {
    spec fn valid(self) -> bool {
        &&& self.keys@.len() == self.values@.len()
        &&& forall|i: int|
            0 <= i < self.keys@.len() ==> self.index@.contains_key(#[trigger] self.keys@[i]@)
                && self.index@[self.keys@[i]@] == i
        &&& forall|k: Text| #[trigger]
            self.index@.contains_key(k) ==> self.index@[k] < self.keys@.len()
                && self.keys@[self.index@[k] as int]@ == k
    }

    spec fn contents(self) -> Map<Text, V> {
        Map::new(
            |k: Text| self.index@.contains_key(k),
            |k: Text| self.values@[self.index@[k] as int],
        )
    }

    spec fn order(self) -> Seq<Text> {
        self.keys.deep_view()
    }

    fn new() -> (r: Self)
        ensures
            r.valid(),
            r.contents() == Map::<Text, V>::empty(),
            r.order() == Seq::<Text>::empty(),
    {
        let r = MapParts { keys: Vec::new(), values: Vec::new(), index: StringHashMap::new() };
        assert(r.contents() =~= Map::<Text, V>::empty());
        assert(r.order() =~= Seq::<Text>::empty());
        r
    }

    fn insert(&mut self, key: String, value: V) -> (r: Option<V>)
        requires
            old(self).valid(),
        ensures
            final(self).valid(),
            final(self).contents() == old(self).contents().insert(key@, value),
            final(self).order() == if old(self).contents().contains_key(key@) {
                old(self).order()
            } else {
                old(self).order().push(key@)
            },
            r == if old(self).contents().contains_key(key@) {
                Some(old(self).contents()[key@])
            } else {
                None
            },
    {
        let ghost before = *self;
        match self.index.get(key.as_str()) {
            Some(i) => {
                let at: usize = *i;
                let mut previous = value;
                let slot = &mut self.values[at];
                std::mem::swap(slot, &mut previous);
                proof {
                    assert(self.contents() =~= before.contents().insert(key@, value));
                    assert(self.order() =~= before.order());
                }
                Some(previous)
            },
            None => {
                let at: usize = self.keys.len();
                self.index.insert(key.clone(), at);
                self.keys.push(key);
                self.values.push(value);
                proof {
                    assert forall|i: int| 0 <= i < self.keys@.len() implies self.index@.contains_key(
                        #[trigger] self.keys@[i]@,
                    ) && self.index@[self.keys@[i]@] == i by {
                        if i < at {
                            assert(before.keys@[i] == self.keys@[i]);
                            assert(before.index@.contains_key(before.keys@[i]@));
                        }
                    }
                    assert(self.contents() =~= before.contents().insert(key@, value));
                    assert(self.order() =~= before.order().push(key@));
                }
                None
            },
        }
    }
}

/// A map from texts to values. Keys keep the order in which they were first inserted.
pub struct StringMap<V> {
    parts: MapParts<V>,
}

impl<V> View for StringMap<V> {
    type V = Map<Text, V>;

    closed spec fn view(&self) -> Map<Text, V> {
        self.parts.contents()
    }
}

impl<V> StringMap<V> {
    #[verifier::type_invariant]
    spec fn valid(self) -> bool {
        self.parts.valid()
    }

    /// The keys in the order in which they were first inserted.
    pub closed spec fn order(&self) -> Seq<Text> {
        self.parts.order()
    }

    /// The keys in order are the keys of the map, each once.
    pub open spec fn ordered(&self) -> bool {
        &&& forall|k: Text| self@.contains_key(k) <==> #[trigger] self.order().contains(k)
        &&& self.order().no_duplicates()
    }

    /// The map without entries.
    pub fn new() -> (r: Self)
        ensures
            r@ == Map::<Text, V>::empty(),
            r.order() == Seq::<Text>::empty(),
    {
        StringMap { parts: MapParts::new() }
    }

    /// Every map is ordered.
    pub fn check_order(&self)
        ensures
            self.ordered(),
    {
        proof {
            use_type_invariant(self);
            assert forall|k: Text| self@.contains_key(k) <==> #[trigger] self.order().contains(
                k,
            ) by {
                if self@.contains_key(k) {
                    let i = self.parts.index@[k] as int;
                    assert(self.order()[i] == k);
                }
                if self.order().contains(k) {
                    let i = choose|i: int| 0 <= i < self.order().len() && self.order()[i] == k;
                    assert(self.parts.keys@[i]@ == k);
                }
            }
            assert forall|i: int, j: int|
                0 <= i < self.order().len() && 0 <= j < self.order().len() && i
                    != j implies self.order()[i] != self.order()[j] by {
                assert(self.parts.index@[self.parts.keys@[i]@] == i);
                assert(self.parts.index@[self.parts.keys@[j]@] == j);
            }
        }
    }

    /// Puts `value` under `key` and hands back what stood there.
    pub fn insert(&mut self, key: String, value: V) -> (r: Option<V>)
        ensures
            final(self)@ == old(self)@.insert(key@, value),
            final(self).order() == if old(self)@.contains_key(key@) {
                old(self).order()
            } else {
                old(self).order().push(key@)
            },
            r == if old(self)@.contains_key(key@) {
                Some(old(self)@[key@])
            } else {
                None
            },
    {
        proof {
            use_type_invariant(&*self);
        }
        let mut parts: MapParts<V> = MapParts::new();
        std::mem::swap(&mut parts, &mut self.parts);
        let r = parts.insert(key, value);
        self.parts = parts;
        r
    }

    /// The value under `key`.
    pub fn get<'a>(&'a self, key: &str) -> (r: Option<&'a V>)
        ensures
            match r {
                Some(v) => self@.contains_key(key@) && *v == self@[key@],
                None => !self@.contains_key(key@),
            },
    {
        proof {
            use_type_invariant(self);
        }
        match self.parts.index.get(key) {
            Some(i) => Some(&self.parts.values[*i]),
            None => None,
        }
    }

    /// The key as the map holds it.
    pub fn get_key<'a>(&'a self, key: &str) -> (r: Option<&'a str>)
        ensures
            r.deep_view() == if self@.contains_key(key@) {
                Some(key@)
            } else {
                None
            },
    {
        proof {
            use_type_invariant(self);
        }
        match self.parts.index.get(key) {
            Some(i) => Some(self.parts.keys[*i].as_str()),
            None => None,
        }
    }

    /// Whether the map has the key.
    pub fn contains_key(&self, key: &str) -> (r: bool)
        ensures
            r == self@.contains_key(key@),
    {
        self.get(key).is_some()
    }

    /// Whether the map has no entry.
    pub fn is_empty(&self) -> (r: bool)
        ensures
            r == (self.order().len() == 0),
    {
        self.len() == 0
    }

    /// The number of entries.
    pub fn len(&self) -> (r: usize)
        ensures
            r == self.order().len(),
    {
        self.parts.keys.len()
    }

    /// The key that came `i`-th.
    pub fn key_at(&self, i: usize) -> (r: &str)
        requires
            i < self.order().len(),
        ensures
            r@ == self.order()[i as int],
            self@.contains_key(r@),
    {
        proof {
            use_type_invariant(self);
        }
        self.parts.keys[i].as_str()
    }

    /// The value under the key that came `i`-th.
    pub fn value_at(&self, i: usize) -> (r: &V)
        requires
            i < self.order().len(),
        ensures
            self@.contains_key(self.order()[i as int]),
            *r == self@[self.order()[i as int]],
    {
        proof {
            use_type_invariant(self);
            assert(self.order()[i as int] == self.parts.keys@[i as int]@);
        }
        &self.parts.values[i]
    }
}

/// A set of texts that remembers the order in which they first came.
pub struct StringSet {
    map: StringMap<()>,
}

impl View for StringSet {
    type V = Set<Text>;

    closed spec fn view(&self) -> Set<Text> {
        self.map@.dom()
    }
}

impl StringSet {
    /// The texts in the order in which they first came.
    pub closed spec fn order(&self) -> Seq<Text> {
        self.map.order()
    }

    /// The texts in order are those of the set, each once.
    pub open spec fn ordered(&self) -> bool {
        &&& forall|k: Text| self@.contains(k) <==> #[trigger] self.order().contains(k)
        &&& self.order().no_duplicates()
    }

    /// The empty set.
    pub fn new() -> (r: Self)
        ensures
            r@ == Set::<Text>::empty(),
            r.order() == Seq::<Text>::empty(),
    {
        let r = StringSet { map: StringMap::new() };
        assert(r@ =~= Set::<Text>::empty());
        r
    }

    /// Every set is ordered.
    pub fn check_order(&self)
        ensures
            self.ordered(),
    {
        self.map.check_order();
    }

    /// Adds `key`; says whether it is new.
    pub fn insert(&mut self, key: String) -> (r: bool)
        ensures
            final(self)@ == old(self)@.insert(key@),
            final(self).order() == if old(self)@.contains(key@) {
                old(self).order()
            } else {
                old(self).order().push(key@)
            },
            r == !old(self)@.contains(key@),
    {
        let ghost before = *self;
        let r = self.map.insert(key, ()).is_none();
        assert(self@ =~= before@.insert(key@));
        r
    }

    /// The text as the set holds it.
    pub fn get<'a>(&'a self, key: &str) -> (r: Option<&'a str>)
        ensures
            r.deep_view() == if self@.contains(key@) {
                Some(key@)
            } else {
                None
            },
    {
        self.map.get_key(key)
    }

    /// Whether `key` is in the set.
    pub fn contains(&self, key: &str) -> (r: bool)
        ensures
            r == self@.contains(key@),
    {
        self.map.contains_key(key)
    }

    /// Whether the set has no text.
    pub fn is_empty(&self) -> (r: bool)
        ensures
            r == (self.order().len() == 0),
    {
        self.len() == 0
    }

    /// The number of texts.
    pub fn len(&self) -> (r: usize)
        ensures
            r == self.order().len(),
    {
        self.map.len()
    }

    /// The text that came `i`-th.
    pub fn at(&self, i: usize) -> (r: &str)
        requires
            i < self.order().len(),
        ensures
            r@ == self.order()[i as int],
            self@.contains(r@),
    {
        self.map.key_at(i)
    }
}

// ---------------------------------------------------------------------------
// Positions by key
// ---------------------------------------------------------------------------

/// A set of pairs of texts that remembers the order in which they came.
pub struct PairSet {
    pairs: Vec<(String, String)>,
    map: StringMap<StringSet>,
}

impl View for PairSet {
    type V = Seq<(Text, Text)>;

    /// The pairs, in the order in which they came.
    closed spec fn view(&self) -> Seq<(Text, Text)> {
        self.pairs.deep_view()
    }
}

impl PairSet {
    #[verifier::type_invariant]
    spec fn valid(self) -> bool {
        &&& self.pairs.deep_view().no_duplicates()
        &&& forall|a: Text, b: Text| #[trigger]
            self.pairs.deep_view().contains((a, b)) <==> self.map@.contains_key(a) && self.map@[a]@.contains(b)
    }

    /// The set without pairs.
    pub fn new() -> (r: Self)
        ensures
            r@ == Seq::<(Text, Text)>::empty(),
    {
        let pairs: Vec<(String, String)> = Vec::new();
        assert(pairs.deep_view() =~= Seq::<(Text, Text)>::empty());
        PairSet { pairs, map: StringMap::new() }
    }

    /// The set with one more pair, and whether it is new.
    pub fn with(self, a: &str, b: &str) -> (r: (Self, bool))
        ensures
            r.1 == !self@.contains((a@, b@)),
            r.0@ == if self@.contains((a@, b@)) {
                self@
            } else {
                self@.push((a@, b@))
            },
            self@.no_duplicates(),
    {
        proof {
            use_type_invariant(&self);
        }
        let PairSet { mut pairs, mut map } = self;
        let ghost before = map@;
        let mut seconds = match map.insert(a.to_owned(), StringSet::new()) {
            Some(s) => s,
            None => StringSet::new(),
        };
        let ghost had = seconds@;
        let fresh = seconds.insert(b.to_owned());
        let ghost has = seconds@;
        map.insert(a.to_owned(), seconds);
        let ghost old_pairs = pairs.deep_view();
        let ghost new_pairs = if old_pairs.contains((a@, b@)) {
            old_pairs
        } else {
            old_pairs.push((a@, b@))
        };
        proof {
            assert(old_pairs.contains((a@, b@)) <==> had.contains(b@));
            assert forall|x: Text, y: Text| #[trigger] new_pairs.contains((x, y)) <==> map@.contains_key(
                x,
            ) && map@[x]@.contains(y) by {
                assert(old_pairs.contains((x, y)) <==> before.contains_key(x) && before[x]@.contains(
                    y,
                ));
                if !old_pairs.contains((a@, b@)) {
                    if old_pairs.contains((x, y)) {
                        let i = choose|i: int| 0 <= i < old_pairs.len() && old_pairs[i] == (x, y);
                        assert(new_pairs[i] == (x, y));
                    }
                    if (x, y) == (a@, b@) {
                        assert(new_pairs[old_pairs.len() as int] == (x, y));
                    }
                    if new_pairs.contains((x, y)) && (x, y) != (a@, b@) {
                        let i = choose|i: int| 0 <= i < new_pairs.len() && new_pairs[i] == (x, y);
                        assert(old_pairs[i] == (x, y));
                    }
                }
            }
            assert(new_pairs.no_duplicates());
        }
        if fresh {
            pairs.push((a.to_owned(), b.to_owned()));
            assert(pairs.deep_view() =~= old_pairs.push((a@, b@)));
        }
        (PairSet { pairs, map }, fresh)
    }

    /// The number of pairs.
    pub fn len(&self) -> (r: usize)
        ensures
            r == self@.len(),
    {
        self.pairs.len()
    }

    /// The pair that came `i`-th.
    pub fn at(&self, i: usize) -> (r: (&str, &str))
        requires
            i < self@.len(),
        ensures
            (r.0@, r.1@) == self@[i as int],
    {
        let pair = &self.pairs[i];
        (pair.0.as_str(), pair.1.as_str())
    }
}

/// The positions at which a key stands, in ascending order.
pub open spec fn positions_of(keys: Seq<Text>, key: Text) -> Seq<usize>
    decreases keys.len(),
{
    if keys.len() == 0 {
        Seq::empty()
    } else if keys.last() == key {
        positions_of(keys.drop_last(), key).push((keys.len() - 1) as usize)
    } else {
        positions_of(keys.drop_last(), key)
    }
}

/// The positions at which a key stands are those, all of them, and in ascending order.
pub proof fn lemma_positions(keys: Seq<Text>, key: Text)
    requires
        keys.len() <= usize::MAX,
    ensures
        forall|i: int|
            0 <= i < positions_of(keys, key).len() ==> (#[trigger] positions_of(keys, key)[i])
                < keys.len() && keys[positions_of(keys, key)[i] as int] == key,
        forall|i: int, j: int|
            0 <= i < j < positions_of(keys, key).len() ==> #[trigger] positions_of(keys, key)[i]
                < #[trigger] positions_of(keys, key)[j],
        forall|p: int|
            0 <= p < keys.len() && #[trigger] keys[p] == key ==> positions_of(keys, key).contains(
                p as usize,
            ),
    decreases keys.len(),
{
    if keys.len() > 0 {
        let init = keys.drop_last();
        lemma_positions(init, key);
        let before = positions_of(init, key);
        let now = positions_of(keys, key);
        assert forall|i: int| 0 <= i < now.len() implies (#[trigger] now[i]) < keys.len()
            && keys[now[i] as int] == key by {
            if i < before.len() {
                assert(now[i] == before[i]);
                assert(init[before[i] as int] == keys[before[i] as int]);
            }
        }
        assert forall|i: int, j: int| 0 <= i < j < now.len() implies #[trigger] now[i]
            < #[trigger] now[j] by {
            assert(now[i] == before[i]);
            if j < before.len() {
                assert(now[j] == before[j]);
            }
        }
        assert forall|p: int| 0 <= p < keys.len() && #[trigger] keys[p] == key implies now.contains(
            p as usize,
        ) by {
            if p < init.len() {
                assert(init[p] == keys[p]);
                assert(before.contains(p as usize));
                let i = choose|i: int| 0 <= i < before.len() && before[i] == p as usize;
                assert(now[i] == p as usize);
            } else {
                assert(now[now.len() - 1] == p as usize);
            }
        }
    }
}

/// Finds the positions of a key in a list of keys.
pub struct TextIndex {
    keys: Ghost<Seq<Text>>,
    count: usize,
    positions: StringMap<Vec<usize>>,
}

impl View for TextIndex {
    type V = Seq<Text>;

    closed spec fn view(&self) -> Seq<Text> {
        self.keys@
    }
}

impl TextIndex {
    #[verifier::type_invariant]
    spec fn valid(self) -> bool {
        &&& self.count == self.keys@.len()
        &&& forall|k: Text| #[trigger]
            positions_of(self.keys@, k) == if self.positions@.contains_key(k) {
                self.positions@[k]@
            } else {
                Seq::empty()
            }
    }

    /// The index of the empty list.
    pub fn new() -> (r: Self)
        ensures
            r@ == Seq::<Text>::empty(),
    {
        TextIndex { keys: Ghost(Seq::empty()), count: 0, positions: StringMap::new() }
    }

    /// The index of the list with one key more.
    pub fn with(self, key: &str) -> (r: Self)
        requires
            self@.len() < usize::MAX,
        ensures
            r@ == self@.push(key@),
    {
        proof {
            use_type_invariant(&self);
        }
        let TextIndex { keys, count, positions } = self;
        let ghost old_keys = keys@;
        let ghost old_positions = positions@;
        let ghost new_keys = old_keys.push(key@);
        let mut positions = positions;
        let mut list = match positions.insert(key.to_owned(), Vec::new()) {
            Some(v) => v,
            None => Vec::new(),
        };
        list.push(count);
        positions.insert(key.to_owned(), list);
        proof {
            assert(new_keys.drop_last() =~= old_keys);
            assert forall|k: Text| #[trigger] positions_of(new_keys, k) == if positions@.contains_key(
                k,
            ) {
                positions@[k]@
            } else {
                Seq::empty()
            } by {
                assert(positions_of(old_keys, k) == if old_positions.contains_key(k) {
                    old_positions[k]@
                } else {
                    Seq::empty()
                });
                if k == key@ {
                    assert(positions@[k]@ =~= positions_of(old_keys, k).push(count));
                }
            }
        }
        TextIndex { keys: Ghost(new_keys), count: count + 1, positions }
    }

    /// The positions at which a key stands; `None` where it does not occur.
    pub fn get(&self, key: &str) -> (r: Option<&Vec<usize>>)
        ensures
            match r {
                Some(v) => v@ == positions_of(self@, key@),
                None => positions_of(self@, key@) == Seq::<usize>::empty(),
            },
    {
        proof {
            use_type_invariant(self);
        }
        let r = self.positions.get(key);
        assert(positions_of(self.keys@, key@) == if self.positions@.contains_key(key@) {
            self.positions@[key@]@
        } else {
            Seq::empty()
        });
        r
    }
}

/// What a sequence holds after one more item.
pub proof fn lemma_push_contains<T>(s: Seq<T>, last: T, x: T)
    ensures
        s.push(last).contains(x) <==> s.contains(x) || x == last,
{
    let t = s.push(last);
    if s.contains(x) {
        let i = choose|i: int| 0 <= i < s.len() && s[i] == x;
        assert(t[i] == x);
    }
    if x == last {
        assert(t[s.len() as int] == x);
    }
    if t.contains(x) && x != last {
        let i = choose|i: int| 0 <= i < t.len() && t[i] == x;
        assert(s[i] == x);
    }
}

} // verus!
