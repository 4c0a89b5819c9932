//! A table from texts to values that can be pruned by age.
use crate::text::{begins_with, same_text, texts};
use crate::time::Timestamp;
use vstd::prelude::*;

verus! {

/// A value with an age: when it was last updated, and how much was observed.
pub trait Aged: Sized {
    /// When the value was last updated.
    spec fn updated(self) -> Option<Timestamp>;

    /// How much the value has seen.
    spec fn seen(self) -> nat;

    /// Returns when the value was last updated.
    fn last_updated(&self) -> (r: Option<Timestamp>)
        ensures
            r == self.updated(),
    ;

    /// Returns how much the value has seen.
    fn weight(&self) -> (r: usize)
        ensures
            r == self.seen(),
    ;
}

/// Whether an update is no later than another; none at all comes first.
pub open spec fn updated_by(a: Option<Timestamp>, b: Option<Timestamp>) -> bool {
    match (a, b) {
        (None, _) => true,
        (Some(_), None) => false,
        (Some(x), Some(y)) => x@ <= y@,
    }
}

/// Whether a value is no fresher than another: it was updated earlier, or at the same time and has
/// seen no more.
pub open spec fn no_fresher<V: Aged>(a: V, b: V) -> bool {
    updated_by(a.updated(), b.updated()) && (updated_by(b.updated(), a.updated()) ==> a.seen()
        <= b.seen())
}

/// Whether a value outlives a cutoff: it was never updated, or not before it.
pub open spec fn outlives<V: Aged>(value: V, cutoff: Timestamp) -> bool {
    value.updated() is None || cutoff@ <= value.updated()->0@
}

/// The values of a map that outlive a cutoff.
pub open spec fn survivors<V: Aged>(before: Map<Seq<char>, V>, cutoff: Timestamp) -> Map<
    Seq<char>,
    V,
> {
    Map::new(
        |key: Seq<char>| before.contains_key(key) && outlives(before[key], cutoff),
        |key: Seq<char>| before[key],
    )
}

/// The values of a map whose keys do not begin with a prefix.
pub open spec fn without_prefix<V>(before: Map<Seq<char>, V>, prefix: Seq<char>) -> Map<
    Seq<char>,
    V,
> {
    Map::new(
        |key: Seq<char>| before.contains_key(key) && !prefix.is_prefix_of(key),
        |key: Seq<char>| before[key],
    )
}

/// The views of the values of a map.
pub open spec fn views<T: View>(map: Map<Seq<char>, T>) -> Map<Seq<char>, T::V> {
    Map::new(|key: Seq<char>| map.contains_key(key), |key: Seq<char>| map[key]@)
}

/// A table from texts to values.
///
/// Its view is the map that it stands for.
#[derive(Debug)]
pub struct KeyedTable<V> {
    entries: Vec<(String, V)>,
}

/// Whether some entry has a key.
spec fn has_key<V>(entries: Seq<(String, V)>, key: Seq<char>) -> bool {
    exists|i: int| 0 <= i < entries.len() && (#[trigger] entries[i]).0@ == key
}

/// The value of the entry with a key.
spec fn value_at<V>(entries: Seq<(String, V)>, key: Seq<char>) -> V {
    entries[choose|i: int| 0 <= i < entries.len() && (#[trigger] entries[i]).0@ == key].1
}

/// The map that entries stand for.
spec fn map_of<V>(entries: Seq<(String, V)>) -> Map<Seq<char>, V> {
    Map::new(|key: Seq<char>| has_key(entries, key), |key: Seq<char>| value_at(entries, key))
}

/// Whether no two entries have the same key.
spec fn keys_apart<V>(entries: Seq<(String, V)>) -> bool {
    forall|i: int, j: int|
        0 <= i < j < entries.len() ==> (#[trigger] entries[i]).0@ != (#[trigger] entries[j]).0@
}

impl<V> View for KeyedTable<V> {
    type V = Map<Seq<char>, V>;

    closed spec fn view(&self) -> Map<Seq<char>, V> {
        map_of(self.entries@)
    }
}

/// Each entry is found under its key.
proof fn lemma_entry<V>(entries: Seq<(String, V)>, i: int)
    requires
        keys_apart(entries),
        0 <= i < entries.len(),
    ensures
        map_of(entries).contains_key(entries[i].0@),
        map_of(entries)[entries[i].0@] == entries[i].1,
{
    let key = entries[i].0@;
    assert(has_key(entries, key));
    let j = choose|j: int| 0 <= j < entries.len() && (#[trigger] entries[j]).0@ == key;
    assert(i == j);
}

/// A table holds as many keys as entries.
proof fn lemma_size<V>(entries: Seq<(String, V)>)
    requires
        keys_apart(entries),
    ensures
        map_of(entries).dom().finite(),
        map_of(entries).dom().len() == entries.len(),
{
    let keys = entries.map_values(|e: (String, V)| e.0@);
    assert(keys.no_duplicates());
    keys.unique_seq_to_set();
    assert forall|key: Seq<char>| map_of(entries).dom().contains(key) <==> keys.to_set().contains(
        key,
    ) by {
        if has_key(entries, key) {
            let i = choose|i: int| 0 <= i < entries.len() && (#[trigger] entries[i]).0@ == key;
            assert(keys[i] == key);
        }
        if keys.contains(key) {
            let i = choose|i: int| 0 <= i < keys.len() && keys[i] == key;
            assert(entries[i].0@ == key);
        }
    }
    assert(map_of(entries).dom() =~= keys.to_set());
}

/// An entry more is a key more.
proof fn lemma_push<V>(entries: Seq<(String, V)>, key: String, value: V)
    requires
        keys_apart(entries),
        !map_of(entries).contains_key(key@),
    ensures
        keys_apart(entries.push((key, value))),
        map_of(entries.push((key, value))) == map_of(entries).insert(key@, value),
{
    let after = entries.push((key, value));
    assert forall|i: int, j: int| 0 <= i < j < after.len() implies (#[trigger] after[i]).0@ != (
    #[trigger] after[j]).0@ by {
        assert(after[i] == entries[i]);
        if j == entries.len() {
            assert(has_key(entries, entries[i].0@));
        } else {
            assert(after[j] == entries[j]);
        }
    }
    assert forall|k: Seq<char>| #[trigger] map_of(after).contains_key(k) <==> map_of(
        entries,
    ).insert(key@, value).contains_key(k) by {
        if has_key(after, k) {
            let i = choose|i: int| 0 <= i < after.len() && (#[trigger] after[i]).0@ == k;
            if i < entries.len() {
                assert(entries[i].0@ == k);
            }
        }
        if has_key(entries, k) {
            let i = choose|i: int| 0 <= i < entries.len() && (#[trigger] entries[i]).0@ == k;
            assert(after[i].0@ == k);
        }
        if k == key@ {
            assert(after[entries.len() as int].0@ == k);
        }
    }
    assert forall|k: Seq<char>| #[trigger] map_of(after).contains_key(k) implies map_of(after)[k]
        == map_of(entries).insert(key@, value)[k] by {
        let i = choose|i: int| 0 <= i < after.len() && (#[trigger] after[i]).0@ == k;
        lemma_entry(after, i);
        if i < entries.len() {
            assert(after[i] == entries[i]);
            lemma_entry(entries, i);
        }
    }
    assert(map_of(after) =~= map_of(entries).insert(key@, value));
}

/// An entry less is a key less.
proof fn lemma_remove<V>(entries: Seq<(String, V)>, i: int)
    requires
        keys_apart(entries),
        0 <= i < entries.len(),
    ensures
        keys_apart(entries.remove(i)),
        map_of(entries.remove(i)) == map_of(entries).remove(entries[i].0@),
{
    let after = entries.remove(i);
    let key = entries[i].0@;
    assert forall|a: int, b: int| 0 <= a < b < after.len() implies (#[trigger] after[a]).0@ != (
    #[trigger] after[b]).0@ by {
        let x = if a < i {
            a
        } else {
            a + 1
        };
        let y = if b < i {
            b
        } else {
            b + 1
        };
        assert(after[a] == entries[x] && after[b] == entries[y]);
    }
    assert forall|k: Seq<char>| #[trigger] map_of(after).contains_key(k) <==> map_of(
        entries,
    ).remove(key).contains_key(k) by {
        if has_key(after, k) {
            let a = choose|a: int| 0 <= a < after.len() && (#[trigger] after[a]).0@ == k;
            let x = if a < i {
                a
            } else {
                a + 1
            };
            assert(entries[x] == after[a]);
            assert(entries[i].0@ == key);
        }
        if has_key(entries, k) && k != key {
            let x = choose|x: int| 0 <= x < entries.len() && (#[trigger] entries[x]).0@ == k;
            let a = if x < i {
                x
            } else {
                x - 1
            };
            assert(after[a] == entries[x]);
        }
    }
    assert forall|k: Seq<char>| #[trigger] map_of(after).contains_key(k) implies map_of(after)[k]
        == map_of(entries).remove(key)[k] by {
        let a = choose|a: int| 0 <= a < after.len() && (#[trigger] after[a]).0@ == k;
        let x = if a < i {
            a
        } else {
            a + 1
        };
        lemma_entry(after, a);
        assert(entries[x] == after[a]);
        lemma_entry(entries, x);
    }
    assert(map_of(after) =~= map_of(entries).remove(key));
}

impl<V> KeyedTable<V> {
    #[verifier::type_invariant]
    spec fn valid(self) -> bool {
        keys_apart(self.entries@)
    }

    /// Makes an empty table.
    pub fn new() -> (r: Self)
        ensures
            r@ == Map::<Seq<char>, V>::empty(),
    {
        let r = KeyedTable { entries: Vec::new() };
        proof {
            assert(r@ =~= Map::<Seq<char>, V>::empty());
        }
        r
    }

    /// Counts the keys.
    pub fn len(&self) -> (r: usize)
        ensures
            self@.dom().finite(),
            r == self@.dom().len(),
    {
        proof {
            use_type_invariant(self);
            lemma_size(self.entries@);
        }
        self.entries.len()
    }

    /// Tests whether there is no key.
    pub fn is_empty(&self) -> (r: bool)
        ensures
            r == (self@ == Map::<Seq<char>, V>::empty()),
    {
        proof {
            use_type_invariant(self);
            if self.entries@.len() > 0 {
                lemma_entry(self.entries@, 0);
            } else {
                assert(self@ =~= Map::<Seq<char>, V>::empty());
            }
        }
        self.entries.len() == 0
    }

    /// Lists the keys, each once.
    pub fn keys(&self) -> (r: Vec<String>)
        ensures
            texts(r@).no_duplicates(),
            forall|key: Seq<char>| #[trigger]
                texts(r@).contains(key) <==> self@.contains_key(key),
    {
        proof {
            use_type_invariant(self);
        }
        let mut out: Vec<String> = Vec::new();
        let mut i: usize = 0;
        while i < self.entries.len()
            invariant
                i <= self.entries.len(),
                out.len() == i,
                forall|k: int| 0 <= k < i ==> #[trigger] out@[k] == self.entries@[k].0,
            decreases self.entries.len() - i,
        {
            out.push(self.entries[i].0.clone());
            i += 1;
        }
        proof {
            assert forall|a: int, b: int| 0 <= a < b < out.len() implies texts(out@)[a] != texts(
                out@,
            )[b] by {
                assert(out@[a] == self.entries@[a].0 && out@[b] == self.entries@[b].0);
            }
            assert forall|key: Seq<char>| #[trigger]
                texts(out@).contains(key) <==> self@.contains_key(key) by {
                if texts(out@).contains(key) {
                    let k = choose|k: int| 0 <= k < out.len() && texts(out@)[k] == key;
                    assert(out@[k] == self.entries@[k].0);
                    lemma_entry(self.entries@, k);
                }
                if has_key(self.entries@, key) {
                    let k = choose|k: int|
                        0 <= k < self.entries@.len() && (#[trigger] self.entries@[k]).0@ == key;
                    assert(out@[k] == self.entries@[k].0);
                    assert(texts(out@)[k] == key);
                }
            }
        }
        out
    }

    fn position(&self, key: &str) -> (r: Option<usize>)
        ensures
            match r {
                Some(i) => i < self.entries@.len() && self.entries@[i as int].0@ == key@,
                None => !has_key(self.entries@, key@),
            },
    {
        let mut i: usize = 0;
        while i < self.entries.len()
            invariant
                i <= self.entries.len(),
                forall|k: int| 0 <= k < i ==> (#[trigger] self.entries@[k]).0@ != key@,
            decreases self.entries.len() - i,
        {
            if same_text(self.entries[i].0.as_str(), key) {
                return Some(i);
            }
            i += 1;
        }
        None
    }

    /// Looks up the value under a key.
    pub fn get(&self, key: &str) -> (r: Option<&V>)
        ensures
            if self@.contains_key(key@) {
                r is Some && *r->0 == self@[key@]
            } else {
                r is None
            },
    {
        proof {
            use_type_invariant(self);
        }
        match self.position(key) {
            Some(i) => {
                proof {
                    lemma_entry(self.entries@, i as int);
                }
                Some(&self.entries[i].1)
            },
            None => None,
        }
    }

    /// Tests whether there is a value under a key.
    pub fn contains_key(&self, key: &str) -> (r: bool)
        ensures
            r == self@.contains_key(key@),
    {
        self.get(key).is_some()
    }

    /// Takes the value under a key out of the table.
    pub fn remove(&mut self, key: &str) -> (r: Option<V>)
        ensures
            final(self)@ == old(self)@.remove(key@),
            if old(self)@.contains_key(key@) {
                r is Some && r->0 == old(self)@[key@]
            } else {
                r is None
            },
    {
        proof {
            use_type_invariant(&*self);
        }
        match self.position(key) {
            Some(i) => {
                let mut entries: Vec<(String, V)> = Vec::new();
                std::mem::swap(&mut entries, &mut self.entries);
                proof {
                    lemma_entry(entries@, i as int);
                    lemma_remove(entries@, i as int);
                }
                let (_, value) = entries.remove(i);
                self.entries = entries;
                Some(value)
            },
            None => {
                proof {
                    assert(self@.remove(key@) =~= self@);
                }
                None
            },
        }
    }

    /// Puts a value under a key, over the one that was there.
    pub fn insert(&mut self, key: String, value: V)
        ensures
            final(self)@ == old(self)@.insert(key@, value),
    {
        let _ = self.remove(key.as_str());
        proof {
            use_type_invariant(&*self);
        }
        let mut entries: Vec<(String, V)> = Vec::new();
        std::mem::swap(&mut entries, &mut self.entries);
        proof {
            lemma_push(entries@, key, value);
            assert(old(self)@.remove(key@).insert(key@, value) =~= old(self)@.insert(key@, value));
        }
        entries.push((key, value));
        self.entries = entries;
    }

    /// Drops every value whose key begins with `prefix`.
    pub fn remove_prefixed(&mut self, prefix: &str)
        ensures
            final(self)@ == without_prefix(old(self)@, prefix@),
    {
        proof {
            use_type_invariant(&*self);
        }
        let mut entries: Vec<(String, V)> = Vec::new();
        std::mem::swap(&mut entries, &mut self.entries);
        let ghost before = map_of(entries@);
        let mut i: usize = 0;
        while i < entries.len()
            invariant
                i <= entries.len(),
                keys_apart(entries@),
                forall|k: int|
                    0 <= k < i ==> !prefix@.is_prefix_of((#[trigger] entries@[k]).0@),
                forall|key: Seq<char>|
                    #![trigger map_of(entries@).contains_key(key)]
                    #![trigger before.contains_key(key)]
                    map_of(entries@).contains_key(key) || (before.contains_key(key)
                        && prefix@.is_prefix_of(key)) <==> before.contains_key(key),
                forall|key: Seq<char>| #[trigger]
                    map_of(entries@).contains_key(key) ==> map_of(entries@)[key] == before[key],
            decreases entries.len() - i,
        {
            if begins_with(entries[i].0.as_str(), prefix) {
                proof {
                    lemma_entry(entries@, i as int);
                    lemma_remove(entries@, i as int);
                }
                let _ = entries.remove(i);
            } else {
                i += 1;
            }
        }
        proof {
            assert forall|key: Seq<char>| #[trigger]
                map_of(entries@).contains_key(key) implies !prefix@.is_prefix_of(key) by {
                let k = choose|k: int|
                    0 <= k < entries@.len() && (#[trigger] entries@[k]).0@ == key;
                assert(entries@[k].0@ == key);
            }
            assert(map_of(entries@) =~= without_prefix(before, prefix@));
        }
        self.entries = entries;
    }
}

impl<V: Aged> KeyedTable<V> {
    /// Drops every value that does not outlive `cutoff`.
    pub fn drop_before(&mut self, cutoff: Timestamp)
        ensures
            final(self)@ == survivors(old(self)@, cutoff),
    {
        proof {
            use_type_invariant(&*self);
        }
        let mut entries: Vec<(String, V)> = Vec::new();
        std::mem::swap(&mut entries, &mut self.entries);
        let ghost before = map_of(entries@);
        let mut i: usize = 0;
        while i < entries.len()
            invariant
                i <= entries.len(),
                keys_apart(entries@),
                forall|k: int| 0 <= k < i ==> outlives((#[trigger] entries@[k]).1, cutoff),
                forall|key: Seq<char>|
                    #![trigger map_of(entries@).contains_key(key)]
                    #![trigger before.contains_key(key)]
                    map_of(entries@).contains_key(key) || (before.contains_key(key) && !outlives(
                        before[key],
                        cutoff,
                    )) <==> before.contains_key(key),
                forall|key: Seq<char>| #[trigger]
                    map_of(entries@).contains_key(key) ==> map_of(entries@)[key] == before[key],
            decreases entries.len() - i,
        {
            let keep = match entries[i].1.last_updated() {
                Some(updated_at) => cutoff.at_or_before(updated_at),
                None => true,
            };
            if keep {
                i += 1;
            } else {
                proof {
                    lemma_entry(entries@, i as int);
                    lemma_remove(entries@, i as int);
                }
                let _ = entries.remove(i);
            }
        }
        proof {
            assert forall|key: Seq<char>| #[trigger]
                map_of(entries@).contains_key(key) implies outlives(before[key], cutoff) by {
                let k = choose|k: int|
                    0 <= k < entries@.len() && (#[trigger] entries@[k]).0@ == key;
                lemma_entry(entries@, k);
            }
            assert(map_of(entries@) =~= survivors(before, cutoff));
        }
        self.entries = entries;
    }

    /// Drops values until no more than `max` are left, the least fresh ones first.
    ///
    /// Returns whether any was dropped. Which of two equally fresh values goes first is left open.
    pub fn keep_freshest(&mut self, max: usize) -> (r: bool)
        ensures
            r == (old(self)@.dom().len() > max),
            kept_freshest(old(self)@, final(self)@, max as nat),
    {
        proof {
            use_type_invariant(&*self);
            lemma_size(self.entries@);
        }
        let mut entries: Vec<(String, V)> = Vec::new();
        std::mem::swap(&mut entries, &mut self.entries);
        let over = entries.len() > max;
        let ghost before = map_of(entries@);
        while entries.len() > max
            invariant
                keys_apart(entries@),
                before.dom().finite(),
                over == (before.dom().len() > max),
                entries@.len() <= before.dom().len(),
                !over ==> entries@.len() == before.dom().len(),
                over ==> entries@.len() >= max,
                freshest_of(before, map_of(entries@)),
            decreases entries.len(),
        {
            let at = stalest(&entries);
            let ghost old_entries = entries@;
            proof {
                lemma_entry(entries@, at as int);
                lemma_remove(entries@, at as int);
            }
            let _ = entries.remove(at);
            proof {
                lemma_drop_stalest(before, old_entries, at as int);
            }
        }
        proof {
            lemma_size(entries@);
        }
        self.entries = entries;
        over
    }
}

/// Whether `after` is part of `before`, and nothing dropped is fresher than anything kept.
pub open spec fn freshest_of<V: Aged>(
    before: Map<Seq<char>, V>,
    after: Map<Seq<char>, V>,
) -> bool {
    &&& forall|key: Seq<char>| #[trigger]
        after.contains_key(key) ==> before.contains_key(key) && after[key] == before[key]
    &&& forall|dropped: Seq<char>, kept: Seq<char>|
        #[trigger] before.contains_key(dropped) && !after.contains_key(dropped)
            && #[trigger] after.contains_key(kept) ==> no_fresher(before[dropped], before[kept])
}

/// Whether `after` is what is left of `before` when no more than `max` values stay, the freshest
/// ones.
pub open spec fn kept_freshest<V: Aged>(
    before: Map<Seq<char>, V>,
    after: Map<Seq<char>, V>,
    max: nat,
) -> bool {
    &&& before.dom().finite()
    &&& after.dom().finite()
    &&& after.dom().len() == if before.dom().len() > max {
        max
    } else {
        before.dom().len()
    }
    &&& freshest_of(before, after)
}

proof fn lemma_drop_stalest<V: Aged>(
    before: Map<Seq<char>, V>,
    entries: Seq<(String, V)>,
    at: int,
)
    requires
        keys_apart(entries),
        0 <= at < entries.len(),
        freshest_of(before, map_of(entries)),
        forall|k: int|
            0 <= k < entries.len() ==> no_fresher(entries[at].1, (#[trigger] entries[k]).1),
    ensures
        freshest_of(before, map_of(entries.remove(at))),
{
    lemma_remove(entries, at);
    lemma_entry(entries, at);
    let now = map_of(entries);
    let after = map_of(entries.remove(at));
    assert forall|dropped: Seq<char>, kept: Seq<char>|
        #[trigger] before.contains_key(dropped) && !after.contains_key(dropped)
            && #[trigger] after.contains_key(kept) implies no_fresher(
        before[dropped],
        before[kept],
    ) by {
        assert(now.contains_key(kept));
        let k = choose|k: int| 0 <= k < entries.len() && (#[trigger] entries[k]).0@ == kept;
        lemma_entry(entries, k);
        if !now.contains_key(dropped) {
        } else {
            assert(dropped == entries[at].0@);
        }
    }
}

fn is_no_fresher<V: Aged>(a: &V, b: &V) -> (r: bool)
    ensures
        r == no_fresher(*a, *b),
{
    match (a.last_updated(), b.last_updated()) {
        (None, None) => a.weight() <= b.weight(),
        (None, Some(_)) => true,
        (Some(_), None) => false,
        (Some(x), Some(y)) => if !x.at_or_before(y) {
            false
        } else if !y.at_or_before(x) {
            true
        } else {
            a.weight() <= b.weight()
        },
    }
}

/// Finds a value that no other is staler than.
fn stalest<V: Aged>(entries: &Vec<(String, V)>) -> (r: usize)
    requires
        entries.len() > 0,
    ensures
        r < entries.len(),
        forall|k: int|
            0 <= k < entries.len() ==> no_fresher(
                entries@[r as int].1,
                (#[trigger] entries@[k]).1,
            ),
{
    let mut at: usize = 0;
    let mut i: usize = 1;
    while i < entries.len()
        invariant
            at < i <= entries.len(),
            forall|k: int|
                0 <= k < i ==> no_fresher(entries@[at as int].1, (#[trigger] entries@[k]).1),
        decreases entries.len() - i,
    {
        if !is_no_fresher(&entries[at].1, &entries[i].1) {
            at = i;
        }
        i += 1;
    }
    at
}

/// As long as the values fit, none is dropped.
pub proof fn law_nothing_goes_without_need<V: Aged>(
    before: Map<Seq<char>, V>,
    after: Map<Seq<char>, V>,
    max: nat,
)
    requires
        kept_freshest(before, after, max),
        before.dom().len() <= max,
    ensures
        after == before,
{
    assert forall|key: Seq<char>| after.dom().contains(key) implies before.dom().contains(key) by {
        assert(after.contains_key(key));
    }
    vstd::set_lib::lemma_subset_equality(after.dom(), before.dom());
    assert(after =~= before);
}

/// What was updated at or after a cutoff, or never, outlives it as it is, and nothing else does.
pub proof fn law_cutoff_drops_what_is_older<V: Aged>(
    before: Map<Seq<char>, V>,
    cutoff: Timestamp,
    key: Seq<char>,
)
    ensures
        survivors(before, cutoff).contains_key(key) <==> before.contains_key(key) && !(
        before[key].updated() matches Some(t) && t@ < cutoff@),
        survivors(before, cutoff).contains_key(key) ==> survivors(before, cutoff)[key]
            == before[key],
{
}

/// When values have to go, none is kept that was updated before one that goes.
pub proof fn law_stalest_go_first<V: Aged>(
    before: Map<Seq<char>, V>,
    after: Map<Seq<char>, V>,
    max: nat,
    dropped: Seq<char>,
    kept: Seq<char>,
)
    requires
        kept_freshest(before, after, max),
        before.contains_key(dropped),
        !after.contains_key(dropped),
        after.contains_key(kept),
    ensures
        after[kept] == before[kept],
        before[kept].updated() is None ==> before[dropped].updated() is None,
        (before[dropped].updated() matches Some(d) && before[kept].updated() matches Some(k)) ==> (
        before[dropped].updated()->0)@ <= (before[kept].updated()->0)@,
        before[dropped].updated() == before[kept].updated() ==> before[dropped].seen()
            <= before[kept].seen(),
        after.dom().len() == max,
{
    if before.dom().len() <= max {
        law_nothing_goes_without_need(before, after, max);
    }
}

} // verus!
