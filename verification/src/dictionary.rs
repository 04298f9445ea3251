//! A small dictionary from text to text, kept as a list without repeated keys.

use vstd::prelude::*;

verus! {

/// No key stands twice in `pairs`.
pub open spec fn keys_distinct(pairs: Seq<(String, String)>) -> bool {
    forall|i: int, j: int| 0 <= i < j < pairs.len() ==> pairs[i].0@ != pairs[j].0@
}

/// `key` is the key of the pair at `at`.
pub open spec fn key_at(pairs: Seq<(String, String)>, key: Seq<char>, at: int) -> bool {
    0 <= at < pairs.len() && pairs[at].0@ == key
}

/// The map that a list of pairs stands for.
pub open spec fn pairs_map(pairs: Seq<(String, String)>) -> Map<Seq<char>, Seq<char>> {
    Map::new(
        |key: Seq<char>| exists|at: int| key_at(pairs, key, at),
        |key: Seq<char>| pairs[choose|at: int| key_at(pairs, key, at)].1@,
    )
}

/// The map that a list of pairs builds up, a later pair taking the place of
/// an earlier one with the same key.
pub open spec fn collected(pairs: Seq<(String, String)>) -> Map<Seq<char>, Seq<char>>
    decreases pairs.len(),
{
    if pairs.len() == 0 {
        Map::empty()
    } else {
        collected(pairs.drop_last()).insert(pairs.last().0@, pairs.last().1@)
    }
}

/// The map of the networks on which a container has an address, from the
/// list of the networks it is attached to.
pub open spec fn addressed(endpoints: Seq<(String, Option<String>)>) -> Map<Seq<char>, Seq<char>>
    decreases endpoints.len(),
{
    if endpoints.len() == 0 {
        Map::empty()
    } else {
        let earlier = addressed(endpoints.drop_last());
        match endpoints.last().1 {
            Some(ip) => earlier.insert(endpoints.last().0@, ip@),
            None => earlier,
        }
    }
}

/// Text values by text keys: the labels of a container, or the addresses it
/// has on the networks it is attached to.
#[derive(Debug)]
pub struct TextMap {
    entries: Vec<(String, String)>,
}

impl View for TextMap {
    type V = Map<Seq<char>, Seq<char>>;

    closed spec fn view(&self) -> Map<Seq<char>, Seq<char>> {
        pairs_map(self.entries@)
    }
}

impl TextMap {
    /// No key stands twice.
    #[verifier::type_invariant]
    spec fn well_formed(&self) -> bool {
        keys_distinct(self.entries@)
    }

    /// The empty dictionary.
    pub fn new() -> (made: TextMap)
        ensures
            made@ == Map::<Seq<char>, Seq<char>>::empty(),
    {
        let made = TextMap { entries: Vec::new() };
        assert(made@ =~= Map::<Seq<char>, Seq<char>>::empty());
        made
    }

    /// The dictionary of `pairs`. Of two pairs with the same key the later
    /// one counts.
    pub fn from_pairs(pairs: Vec<(String, String)>) -> (made: TextMap)
        ensures
            made@ == collected(pairs@),
    {
        let mut made = TextMap::new();
        let mut at: usize = 0;
        while at < pairs.len()
            invariant
                at <= pairs.len(),
                made@ == collected(pairs@.take(at as int)),
            decreases pairs.len() - at,
        {
            assert(pairs@.take(at + 1).drop_last() =~= pairs@.take(at as int));
            made.insert(pairs[at].0.clone(), pairs[at].1.clone());
            at += 1;
        }
        assert(pairs@.take(at as int) =~= pairs@);
        made
    }

    /// The addresses of a container by network, from the networks it is
    /// attached to: a network on which it has no address is left out.
    pub fn from_endpoints(endpoints: Vec<(String, Option<String>)>) -> (made: TextMap)
        ensures
            made@ == addressed(endpoints@),
    {
        let mut made = TextMap::new();
        let mut at: usize = 0;
        while at < endpoints.len()
            invariant
                at <= endpoints.len(),
                made@ == addressed(endpoints@.take(at as int)),
            decreases endpoints.len() - at,
        {
            assert(endpoints@.take(at + 1).drop_last() =~= endpoints@.take(at as int));
            match &endpoints[at].1 {
                Some(ip) => {
                    made.insert(endpoints[at].0.clone(), ip.clone());
                },
                None => {},
            }
            at += 1;
        }
        assert(endpoints@.take(at as int) =~= endpoints@);
        made
    }

    /// Number of keys.
    pub fn len(&self) -> (n: usize)
        ensures
            n == self@.len(),
            self@.dom().finite(),
    {
        proof {
            use_type_invariant(self);
            lemma_pairs_map_len(self.entries@);
        }
        self.entries.len()
    }

    fn position(&self, key: &String) -> (found: Option<usize>)
        ensures
            match found {
                Some(at) => key_at(self.entries@, key@, at as int),
                None => forall|at: int| !key_at(self.entries@, key@, at),
            },
    {
        let mut at: usize = 0;
        while at < self.entries.len()
            invariant
                at <= self.entries.len(),
                forall|earlier: int| 0 <= earlier < at ==> !key_at(self.entries@, key@, earlier),
            decreases self.entries.len() - at,
        {
            if self.entries[at].0 == *key {
                return Some(at);
            }
            at += 1;
        }
        None
    }

    /// The value that stands under `key`, if any.
    pub fn get(&self, key: &str) -> (value: Option<&String>)
        ensures
            match value {
                Some(text) => self@.contains_key(key@) && self@[key@] == text@,
                None => !self@.contains_key(key@),
            },
    {
        let wanted = key.to_owned();
        proof {
            use_type_invariant(self);
        }
        match self.position(&wanted) {
            Some(at) => {
                proof {
                    lemma_pairs_map_at(self.entries@, at as int);
                }
                Some(&self.entries[at].1)
            },
            None => None,
        }
    }

    /// Whether a value stands under `key`.
    pub fn contains_key(&self, key: &str) -> (held: bool)
        ensures
            held == self@.contains_key(key@),
    {
        self.get(key).is_some()
    }

    /// Puts `value` under `key`, in place of what stood there.
    pub fn insert(&mut self, key: String, value: String)
        ensures
            final(self)@ == old(self)@.insert(key@, value@),
    {
        proof {
            use_type_invariant(&*self);
        }
        let found = self.position(&key);
        let mut entries: Vec<(String, String)> = Vec::new();
        std::mem::swap(&mut self.entries, &mut entries);
        match found {
            Some(at) => {
                proof {
                    lemma_pairs_map_update(entries@, at as int, (key, value));
                }
                entries.set(at, (key, value));
            },
            None => {
                proof {
                    lemma_pairs_map_push(entries@, (key, value));
                }
                entries.push((key, value));
            },
        }
        self.entries = entries;
    }

    /// A copy with the same keys and values.
    pub fn duplicate(&self) -> (copy: TextMap)
        ensures
            copy@ == self@,
    {
        proof {
            use_type_invariant(self);
        }
        let mut entries: Vec<(String, String)> = Vec::new();
        let mut at: usize = 0;
        while at < self.entries.len()
            invariant
                at <= self.entries.len(),
                entries@ == self.entries@.take(at as int),
            decreases self.entries.len() - at,
        {
            let key = self.entries[at].0.clone();
            let value = self.entries[at].1.clone();
            entries.push((key, value));
            assert(entries@ =~= self.entries@.take(at + 1));
            at += 1;
        }
        assert(entries@ =~= self.entries@);
        TextMap { entries }
    }
}

impl Clone for TextMap {
    fn clone(&self) -> (copy: TextMap)
        ensures
            copy@ == self@,
    {
        self.duplicate()
    }
}

/// With distinct keys, the pair at `at` is what the map holds under its key.
proof fn lemma_pairs_map_at(pairs: Seq<(String, String)>, at: int)
    requires
        keys_distinct(pairs),
        0 <= at < pairs.len(),
    ensures
        pairs_map(pairs).contains_key(pairs[at].0@),
        pairs_map(pairs)[pairs[at].0@] == pairs[at].1@,
{
    let key = pairs[at].0@;
    assert(key_at(pairs, key, at));
    let chosen = choose|i: int| key_at(pairs, key, i);
    assert(key_at(pairs, key, chosen));
    assert(chosen == at);
}

/// Adding a pair under a key that is not there yet inserts it into the map.
proof fn lemma_pairs_map_push(pairs: Seq<(String, String)>, pair: (String, String))
    requires
        keys_distinct(pairs),
        forall|at: int| !key_at(pairs, pair.0@, at),
    ensures
        keys_distinct(pairs.push(pair)),
        pairs_map(pairs.push(pair)) == pairs_map(pairs).insert(pair.0@, pair.1@),
{
    let longer = pairs.push(pair);
    assert forall|i: int, j: int| 0 <= i < j < longer.len() implies longer[i].0@
        != longer[j].0@ by {
        if j == pairs.len() {
            assert(!key_at(pairs, pair.0@, i));
        }
    }
    let wanted = pairs_map(pairs).insert(pair.0@, pair.1@);
    assert forall|key: Seq<char>| pairs_map(longer).contains_key(key) == wanted.contains_key(
        key,
    ) by {
        if pairs_map(longer).contains_key(key) {
            let at = choose|at: int| key_at(longer, key, at);
            if at < pairs.len() {
                assert(key_at(pairs, key, at));
            }
        }
        if wanted.contains_key(key) {
            if key == pair.0@ {
                assert(key_at(longer, key, pairs.len() as int));
            } else {
                let at = choose|at: int| key_at(pairs, key, at);
                assert(key_at(longer, key, at));
            }
        }
    }
    assert forall|key: Seq<char>| pairs_map(longer).contains_key(key) implies pairs_map(
        longer,
    )[key] == wanted[key] by {
        let at = choose|at: int| key_at(longer, key, at);
        lemma_pairs_map_at(longer, at);
        if at < pairs.len() {
            assert(key_at(pairs, key, at));
            lemma_pairs_map_at(pairs, at);
        }
    }
    assert(pairs_map(longer) =~= wanted);
}

/// Replacing the pair at `at` by one with the same key inserts it into the map.
proof fn lemma_pairs_map_update(pairs: Seq<(String, String)>, at: int, pair: (String, String))
    requires
        keys_distinct(pairs),
        key_at(pairs, pair.0@, at),
    ensures
        keys_distinct(pairs.update(at, pair)),
        pairs_map(pairs.update(at, pair)) == pairs_map(pairs).insert(pair.0@, pair.1@),
{
    let changed = pairs.update(at, pair);
    let wanted = pairs_map(pairs).insert(pair.0@, pair.1@);
    assert forall|key: Seq<char>| pairs_map(changed).contains_key(key) == wanted.contains_key(
        key,
    ) by {
        if pairs_map(changed).contains_key(key) {
            let i = choose|i: int| key_at(changed, key, i);
            assert(key_at(pairs, key, i));
        }
        if wanted.contains_key(key) {
            if key == pair.0@ {
                assert(key_at(changed, key, at));
            } else {
                let i = choose|i: int| key_at(pairs, key, i);
                assert(key_at(changed, key, i));
            }
        }
    }
    assert forall|key: Seq<char>| pairs_map(changed).contains_key(key) implies pairs_map(
        changed,
    )[key] == wanted[key] by {
        let i = choose|i: int| key_at(changed, key, i);
        lemma_pairs_map_at(changed, i);
        if i != at {
            assert(key_at(pairs, key, i));
            lemma_pairs_map_at(pairs, i);
        }
    }
    assert(pairs_map(changed) =~= wanted);
}

/// With distinct keys, the map has as many keys as the list has pairs.
proof fn lemma_pairs_map_len(pairs: Seq<(String, String)>)
    requires
        keys_distinct(pairs),
    ensures
        pairs_map(pairs).dom().finite(),
        pairs_map(pairs).len() == pairs.len(),
    decreases pairs.len(),
{
    if pairs.len() == 0 {
        assert(pairs_map(pairs) =~= Map::<Seq<char>, Seq<char>>::empty());
    } else {
        let shorter = pairs.drop_last();
        lemma_pairs_map_len(shorter);
        assert forall|at: int| !key_at(shorter, pairs.last().0@, at) by {
            if key_at(shorter, pairs.last().0@, at) {
                assert(pairs[at].0@ != pairs[pairs.len() - 1].0@);
            }
        }
        lemma_pairs_map_push(shorter, pairs.last());
        assert(shorter.push(pairs.last()) =~= pairs);
        assert(!pairs_map(shorter).contains_key(pairs.last().0@)) by {
            if pairs_map(shorter).contains_key(pairs.last().0@) {
                let at = choose|at: int| key_at(shorter, pairs.last().0@, at);
                assert(key_at(shorter, pairs.last().0@, at));
            }
        }
    }
}

} // verus!
