//! The store of market data: what is known of each item, by the item's name,
//! and which item was fetched when, by the time of the fetch. The store never
//! looks into the prices themselves.

use std::collections::BTreeMap;
use vstd::prelude::*;

verus! {

/// Seconds between two fetches in the background.
pub const BACKGROUND_FETCH_DELAY: u64 = 8;

/// A generous guess at the number of items there are.
pub const MAX_ITEMS_ESTIMATE: u64 = 1000;

/// Seconds after which stored data is stale: the time it takes to fetch every
/// item three times over.
pub const MAX_AGE: u64 = BACKGROUND_FETCH_DELAY * MAX_ITEMS_ESTIMATE * 3;

/// What is stored of one item.
#[derive(Clone, Debug)]
pub struct ItemData<T> {
    /// When the prices were fetched, in seconds since 1970; for an item that
    /// was never fetched, a number that tells it from all others.
    pub last_fetch: u64,
    pub ducats: Option<u32>,
    /// The prices, as the caller keeps them.
    pub prices: T,
}

/// The store: items by name, and names by the time of the last fetch.
pub struct DataManager<T> {
    items: Vec<(String, ItemData<T>)>,
    ordered: BTreeMap<u64, String>,
}

/// What a [`DataManager`] stands for in contracts.
pub struct DataManagerView<T> {
    /// The data of each item, by name.
    pub map: Map<Seq<char>, ItemData<T>>,
    /// The names of the items, by the time of their last fetch. Of two items
    /// fetched at the same time, only the one stored later is found here.
    pub ordered: Map<u64, Seq<char>>,
}

/// Whether no key stands twice in `s`.
pub open spec fn keys_unique<K, V>(s: Seq<(K, V)>) -> bool {
    forall|i: int, j: int| 0 <= i < j < s.len() ==> s[i].0 != s[j].0
}

/// The map that a sequence of keys and values writes; of two values under
/// one key, the later counts.
pub open spec fn as_map<K, V>(s: Seq<(K, V)>) -> Map<K, V>
    decreases s.len(),
{
    if s.len() == 0 {
        Map::empty()
    } else {
        as_map(s.drop_last()).insert(s.last().0, s.last().1)
    }
}

/// The contents of the item store with the names as texts.
pub open spec fn item_pairs<T>(items: Seq<(String, ItemData<T>)>) -> Seq<(Seq<char>, ItemData<T>)> {
    items.map_values(|e: (String, ItemData<T>)| (e.0@, e.1))
}

/// The contents of the time index with the names as texts.
pub open spec fn names_at(ordered: Map<u64, String>) -> Map<u64, Seq<char>> {
    ordered.map_values(|name: String| name@)
}

/// A key is in the map exactly if it stands in the sequence.
proof fn lemma_as_map_dom<K, V>(s: Seq<(K, V)>, k: K)
    ensures
        as_map(s).contains_key(k) <==> exists|i: int| 0 <= i < s.len() && (#[trigger] s[i]).0 == k,
    decreases s.len(),
{
    if s.len() > 0 {
        let front = s.drop_last();
        lemma_as_map_dom(front, k);
        if as_map(s).contains_key(k) {
            if s.last().0 == k {
                assert(s[s.len() - 1].0 == k);
            } else {
                let i = choose|i: int| 0 <= i < front.len() && (#[trigger] front[i]).0 == k;
                assert(s[i] == front[i]);
            }
        }
        if exists|i: int| 0 <= i < s.len() && (#[trigger] s[i]).0 == k {
            let i = choose|i: int| 0 <= i < s.len() && (#[trigger] s[i]).0 == k;
            if i < s.len() - 1 {
                assert(front[i] == s[i]);
            }
        }
    }
}

/// With unique keys, the map holds under each key the value that stands with
/// it in the sequence.
proof fn lemma_as_map_at<K, V>(s: Seq<(K, V)>, i: int)
    requires
        keys_unique(s),
        0 <= i < s.len(),
    ensures
        as_map(s).contains_key(s[i].0),
        as_map(s)[s[i].0] == s[i].1,
    decreases s.len(),
{
    let front = s.drop_last();
    if i < s.len() - 1 {
        assert(keys_unique(front)) by {
            assert forall|a: int, b: int| 0 <= a < b < front.len() implies front[a].0
                != front[b].0 by {
                assert(front[a] == s[a] && front[b] == s[b]);
            }
        }
        assert(front[i] == s[i]);
        lemma_as_map_at(front, i);
        assert(s[i].0 != s[s.len() - 1].0);
    }
}

/// Appending a pair stores its value under its key.
proof fn lemma_as_map_push<K, V>(s: Seq<(K, V)>, k: K, v: V)
    ensures
        as_map(s.push((k, v))) == as_map(s).insert(k, v),
{
    assert(s.push((k, v)).drop_last() =~= s);
}

/// With unique keys, changing the value at one place stores the new value
/// under that place's key.
proof fn lemma_as_map_update<K, V>(s: Seq<(K, V)>, i: int, v: V)
    requires
        keys_unique(s),
        0 <= i < s.len(),
    ensures
        as_map(s.update(i, (s[i].0, v))) == as_map(s).insert(s[i].0, v),
        keys_unique(s.update(i, (s[i].0, v))),
    decreases s.len(),
{
    let changed = s.update(i, (s[i].0, v));
    let front = s.drop_last();
    assert(keys_unique(front)) by {
        assert forall|a: int, b: int| 0 <= a < b < front.len() implies front[a].0 != front[b].0 by {
            assert(front[a] == s[a] && front[b] == s[b]);
        }
    }
    if i == s.len() - 1 {
        assert(changed.drop_last() =~= front);
        assert(as_map(changed) =~= as_map(s).insert(s[i].0, v));
    } else {
        assert(front[i] == s[i]);
        lemma_as_map_update(front, i, v);
        assert(changed.drop_last() =~= front.update(i, (s[i].0, v)));
        assert(changed.last() == s.last());
        assert(s[i].0 != s[s.len() - 1].0);
        assert(as_map(changed) =~= as_map(s).insert(s[i].0, v));
    }
    assert forall|a: int, b: int| 0 <= a < b < changed.len() implies changed[a].0
        != changed[b].0 by {
        assert(changed[a].0 == s[a].0 && changed[b].0 == s[b].0);
    }
}

/// `BTreeMap::first_key_value`: the entry under the smallest key, if the map
/// has any.
#[verifier::external_body]
fn first_entry(ordered: &BTreeMap<u64, String>) -> (r: Option<(u64, &String)>)
    ensures
        r is None <==> forall|t: u64| !ordered@.contains_key(t),
        match r {
            Some((time, name)) => ordered@.contains_key(time) && ordered@[time] == *name
                && forall|t: u64| ordered@.contains_key(t) ==> time <= t,
            None => true,
        },
{
    ordered.first_key_value().map(|(time, name)| (*time, name))
}

/// `BTreeMap::last_key_value`: the largest key, if the map has any.
#[verifier::external_body]
fn last_key(ordered: &BTreeMap<u64, String>) -> (r: Option<u64>)
    ensures
        r is None <==> forall|t: u64| !ordered@.contains_key(t),
        r is Some ==> ordered@.contains_key(r->0) && forall|t: u64|
            ordered@.contains_key(t) ==> t <= r->0,
{
    ordered.last_key_value().map(|(time, _)| *time)
}

impl<T> View for DataManager<T> {
    type V = DataManagerView<T>;

    closed spec fn view(&self) -> DataManagerView<T> {
        DataManagerView {
            map: as_map(item_pairs(self.items@)),
            ordered: names_at(self.ordered@),
        }
    }
}

impl<T> DataManagerView<T> {
    /// The store after `data` was stored under `name`: the time of an
    /// earlier fetch of the item leaves the index, and the new time enters
    /// it.
    pub open spec fn inserted(self, name: Seq<char>, data: ItemData<T>) -> DataManagerView<T> {
        let cleared = if self.map.contains_key(name) {
            self.ordered.remove(self.map[name].last_fetch)
        } else {
            self.ordered
        };
        DataManagerView {
            map: self.map.insert(name, data),
            ordered: cleared.insert(data.last_fetch, name),
        }
    }

    /// Whether `time` is the earliest in the index.
    pub open spec fn is_oldest(self, time: u64) -> bool {
        self.ordered.contains_key(time) && forall|t: u64|
            self.ordered.contains_key(t) ==> time <= t
    }

    /// Whether `time` is the first that no time in the index reaches: zero
    /// for an empty index, else one more than the latest.
    pub open spec fn is_next_free(self, time: u64) -> bool {
        &&& forall|t: u64| self.ordered.contains_key(t) ==> t < time
        &&& time == 0 || self.ordered.contains_key((time - 1) as u64)
    }

    /// Whether the index reaches the last number there is, so that no time is
    /// free after it.
    pub open spec fn is_full(self) -> bool {
        self.ordered.contains_key(u64::MAX)
    }

    /// Whether the data stored under `name` is no older than `max_age` at the
    /// time `now`.
    pub open spec fn is_fresh(self, name: Seq<char>, now: u64, max_age: u64) -> bool {
        self.map.contains_key(name) && self.map[name].last_fetch + max_age >= now
    }
}

fn same_text(a: &String, b: &String) -> (r: bool)
    ensures
        r == (a@ == b@),
{
    *a == *b
}

impl<T> DataManager<T> {
    #[verifier::type_invariant]
    spec fn names_and_times_once(self) -> bool {
        keys_unique(item_pairs(self.items@))
    }

    /// An empty store.
    pub fn new() -> (r: DataManager<T>)
        ensures
            r@.map == Map::<Seq<char>, ItemData<T>>::empty(),
            r@.ordered == Map::<u64, Seq<char>>::empty(),
    {
        let r = DataManager { items: Vec::new(), ordered: BTreeMap::new() };
        assert(item_pairs(r.items@) =~= Seq::empty());
        assert(names_at(r.ordered@) =~= Map::<u64, Seq<char>>::empty());
        r
    }

    fn position_of(&self, name: &String) -> (r: Option<usize>)
        ensures
            r is Some <==> self@.map.contains_key(name@),
            r is Some ==> r->0 < self.items@.len() && self.items@[r->0 as int].0@ == name@
                && self@.map[name@] == self.items@[r->0 as int].1,
    {
        proof {
            use_type_invariant(self);
            lemma_as_map_dom(item_pairs(self.items@), name@);
        }
        let mut i: usize = 0;
        while i < self.items.len()
            invariant
                0 <= i <= self.items@.len(),
                forall|k: int| 0 <= k < i ==> (#[trigger] item_pairs(self.items@)[k]).0 != name@,
            decreases self.items@.len() - i,
        {
            if same_text(&self.items[i].0, name) {
                proof {
                    use_type_invariant(self);
                    assert(item_pairs(self.items@)[i as int].0 == name@);
                    lemma_as_map_at(item_pairs(self.items@), i as int);
                    lemma_as_map_dom(item_pairs(self.items@), name@);
                }
                return Some(i);
            }
            i += 1;
        }
        None
    }

    /// The data stored under `name`.
    pub fn get(&self, name: &String) -> (r: Option<&ItemData<T>>)
        ensures
            r is Some <==> self@.map.contains_key(name@),
            r is Some ==> *r->0 == self@.map[name@],
    {
        match self.position_of(name) {
            Some(i) => Some(&self.items[i].1),
            None => None,
        }
    }

    /// The ducats stored under `name`.
    pub fn get_ducats(&self, name: &String) -> (r: Option<u32>)
        ensures
            r == if self@.map.contains_key(name@) {
                self@.map[name@].ducats
            } else {
                None
            },
    {
        match self.get(name) {
            Some(data) => data.ducats,
            None => None,
        }
    }

    /// The data stored under `name`, unless it is older than `max_age` at the
    /// time `now`.
    pub fn get_if_fresh(&self, name: &String, now: u64, max_age: u64) -> (r: Option<&ItemData<T>>)
        ensures
            r is Some <==> self@.is_fresh(name@, now, max_age),
            r is Some ==> *r->0 == self@.map[name@],
    {
        match self.get(name) {
            Some(data) => {
                if data.last_fetch as u128 + (max_age as u128) < now as u128 {
                    None
                } else {
                    Some(data)
                }
            },
            None => None,
        }
    }

    /// The item whose fetch lies furthest back, with the time of that fetch.
    pub fn get_oldest(&self) -> (r: Option<(u64, &String)>)
        ensures
            r is None <==> self@.ordered.dom() =~= Set::<u64>::empty(),
            match r {
                Some((time, name)) => self@.is_oldest(time) && self@.ordered[time] == name@,
                None => true,
            },
    {
        let r = first_entry(&self.ordered);
        proof {
            match r {
                Some((time, name)) => {
                    assert(self@.ordered.dom().contains(time));
                },
                None => {
                    assert(self@.ordered.dom() =~= Set::<u64>::empty());
                },
            }
        }
        r
    }

    /// The first time that no time in the index reaches, if there is one.
    fn next_free(&self) -> (r: Option<u64>)
        ensures
            r is Some <==> !self@.is_full(),
            r is Some ==> self@.is_next_free(r->0),
    {
        match last_key(&self.ordered) {
            None => Some(0),
            Some(latest) => {
                if latest == u64::MAX {
                    None
                } else {
                    Some(latest + 1)
                }
            },
        }
    }

    /// Stores `data` under `name`, in place of what was stored there.
    pub fn insert(&mut self, name: String, data: ItemData<T>)
        ensures
            final(self)@ == old(self)@.inserted(name@, data),
    {
        proof {
            use_type_invariant(&*self);
        }
        let last_fetch = data.last_fetch;
        match self.position_of(&name) {
            Some(i) => {
                let stale = self.items[i].1.last_fetch;
                self.forget_time(stale);
                self.replace_item(i, data);
            },
            None => {
                self.append_item(name_copy(&name), data);
            },
        }
        self.index_time(last_fetch, name);
    }

    /// Stores an item that was never fetched, unless the item is stored
    /// already. The item gets the first time that no time in the index
    /// reaches, so that it is the last to be fetched anew. Gives the time
    /// that the item got, or nothing if the item was not stored: it is not
    /// stored either if the index has no time left.
    pub fn insert_unknown(&mut self, name: String, ducats: Option<u32>, prices: T) -> (r: Option<
        u64,
    >)
        ensures
            r is Some <==> !old(self)@.map.contains_key(name@) && !old(self)@.is_full(),
            r is None ==> final(self)@ == old(self)@,
            r is Some ==> old(self)@.is_next_free(r->0) && final(self)@ == old(self)@.inserted(
                name@,
                ItemData { last_fetch: r->0, ducats, prices },
            ),
    {
        if self.position_of(&name).is_some() {
            return None;
        }
        let time = match self.next_free() {
            Some(time) => time,
            None => {
                return None;
            },
        };
        self.insert(name, ItemData { last_fetch: time, ducats, prices });
        Some(time)
    }

    /// Everything that is stored, by name.
    pub fn items(&self) -> (r: &Vec<(String, ItemData<T>)>)
        ensures
            as_map(item_pairs(r@)) == self@.map,
            keys_unique(item_pairs(r@)),
    {
        proof {
            use_type_invariant(self);
        }
        &self.items
    }

    fn forget_time(&mut self, time: u64)
        ensures
            final(self)@.map == old(self)@.map,
            final(self)@.ordered == old(self)@.ordered.remove(time),
            final(self).items@ == old(self).items@,
    {
        broadcast use vstd::laws_cmp::group_laws_cmp;

        proof {
            use_type_invariant(&*self);
        }
        let ghost before = self.ordered@;
        let mut ordered: BTreeMap<u64, String> = BTreeMap::new();
        core::mem::swap(&mut self.ordered, &mut ordered);
        ordered.remove(&time);
        proof {
            assert(ordered@ == before.remove(time));
            assert(names_at(before.remove(time)) =~= names_at(before).remove(time));
        }
        self.ordered = ordered;
    }

    fn index_time(&mut self, time: u64, name: String)
        ensures
            final(self)@.map == old(self)@.map,
            final(self)@.ordered == old(self)@.ordered.insert(time, name@),
    {
        broadcast use vstd::laws_cmp::group_laws_cmp;

        proof {
            use_type_invariant(&*self);
        }
        let ghost before = self.ordered@;
        let mut ordered: BTreeMap<u64, String> = BTreeMap::new();
        core::mem::swap(&mut self.ordered, &mut ordered);
        ordered.insert(time, name);
        proof {
            assert(ordered@ == before.insert(time, name));
            assert(names_at(before.insert(time, name)) =~= names_at(before).insert(time, name@));
        }
        self.ordered = ordered;
    }

    fn replace_item(&mut self, i: usize, data: ItemData<T>)
        requires
            i < old(self).items@.len(),
        ensures
            final(self)@.map == old(self)@.map.insert(old(self).items@[i as int].0@, data),
            final(self)@.ordered == old(self)@.ordered,
    {
        proof {
            use_type_invariant(&*self);
        }
        let ghost pairs = item_pairs(self.items@);
        let name = name_copy(&self.items[i].0);
        proof {
            lemma_as_map_update(pairs, i as int, data);
            assert(item_pairs(self.items@.update(i as int, (name, data))) =~= pairs.update(
                i as int,
                (name@, data),
            ));
        }
        let mut items: Vec<(String, ItemData<T>)> = Vec::new();
        core::mem::swap(&mut self.items, &mut items);
        items.set(i, (name, data));
        self.items = items;
    }

    fn append_item(&mut self, name: String, data: ItemData<T>)
        requires
            !old(self)@.map.contains_key(name@),
        ensures
            final(self)@.map == old(self)@.map.insert(name@, data),
            final(self)@.ordered == old(self)@.ordered,
    {
        proof {
            use_type_invariant(&*self);
        }
        let ghost pairs = item_pairs(self.items@);
        proof {
            lemma_as_map_push(pairs, name@, data);
            assert(item_pairs(self.items@.push((name, data))) =~= pairs.push((name@, data)));
            assert forall|a: int, b: int| 0 <= a < b < pairs.len() + 1 implies pairs.push(
                (name@, data),
            )[a].0 != pairs.push((name@, data))[b].0 by {
                lemma_as_map_dom(pairs, name@);
                if b == pairs.len() {
                    assert(pairs[a].0 != name@);
                }
            }
        }
        let mut items: Vec<(String, ItemData<T>)> = Vec::new();
        core::mem::swap(&mut self.items, &mut items);
        items.push((name, data));
        self.items = items;
    }
}

fn name_copy(name: &String) -> (r: String)
    ensures
        r@ == name@,
{
    name.clone()
}

} // verus!
