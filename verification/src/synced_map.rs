use vstd::prelude::*;
use vstd::string::*;
use crate::assoc::{as_map, has_key, keys_distinct, lemma_as_map_at, lemma_as_map_push,
    lemma_as_map_remove, lemma_as_map_update};
use crate::text::str_equal;

verus! {

/// The entries of a map of messages, with their keys as character sequences.
pub open spec fn entry_keys<V>(s: Seq<(String, V)>) -> Seq<(Seq<char>, V)> {
    s.map_values(|e: (String, V)| (e.0@, e.1))
}

/// A map from message ids to values, kept in step with another such map.
#[derive(Clone)]
pub struct SyncedMessageMap<V> {
    entries: Vec<(String, V)>,
}

impl<V> View for SyncedMessageMap<V> {
    type V = Map<Seq<char>, V>;

    closed spec fn view(&self) -> Map<Seq<char>, V> {
        as_map(entry_keys(self.entries@))
    }
}

impl<V> SyncedMessageMap<V> {
    /// Well-formedness: no message id occurs twice.
    pub closed spec fn wf(&self) -> bool {
        keys_distinct(entry_keys(self.entries@))
    }

    /// The number of messages.
    pub closed spec fn len_spec(&self) -> nat {
        self.entries@.len()
    }

    pub proof fn lemma_len(&self)
        requires
            self.wf(),
        ensures
            self@.dom().finite(),
            self@.len() == self.len_spec(),
    {
        lemma_map_len(entry_keys(self.entries@));
    }

    /// An empty map (with room for `max_size` messages).
    pub fn new(max_size: usize) -> (res: SyncedMessageMap<V>)
        ensures
            res.wf(),
            res@ == Map::<Seq<char>, V>::empty(),
    {
        let res = SyncedMessageMap { entries: Vec::with_capacity(max_size) };
        assert(entry_keys(res.entries@) =~= Seq::empty());
        assert(res@ =~= Map::empty());
        res
    }

    /// The map of the given (id, value) pairs, of which there are at most `max_size`.
    pub fn from(entries: Vec<(String, V)>, max_size: usize) -> (res: SyncedMessageMap<V>)
        requires
            keys_distinct(entry_keys(entries@)),
            entries@.len() <= max_size,
        ensures
            res.wf(),
            res@ == as_map(entry_keys(entries@)),
            res.len_spec() == entries@.len(),
    {
        SyncedMessageMap { entries }
    }

    /// The position of the entry with id `key`, if there is one.
    fn position_of(&self, key: &str) -> (res: Option<usize>)
        requires
            self.wf(),
        ensures
            match res {
                Some(i) => i < self.entries@.len() && self.entries@[i as int].0@ == key@,
                None => !has_key(entry_keys(self.entries@), key@),
            },
    {
        let mut i: usize = 0;
        while i < self.entries.len()
            invariant
                i <= self.entries@.len(),
                forall|j: int| 0 <= j < i ==> #[trigger] self.entries@[j].0@ != key@,
            decreases self.entries@.len() - i,
        {
            if str_equal(self.entries[i].0.as_str(), key) {
                return Some(i);
            }
            i = i + 1;
        }
        proof {
            if has_key(entry_keys(self.entries@), key@) {
                let j = choose|j: int| 0 <= j < self.entries@.len() && entry_keys(self.entries@)[j].0 == key@;
                assert(self.entries@[j].0@ != key@);
            }
        }
        None
    }

    /// Whether a message with id `key` is in the map.
    pub fn contains_key(&self, key: &str) -> (res: bool)
        requires
            self.wf(),
        ensures
            res == self@.contains_key(key@),
    {
        match self.position_of(key) {
            Some(i) => {
                proof {
                    lemma_as_map_at(entry_keys(self.entries@), i as int);
                }
                true
            },
            None => false,
        }
    }

    /// The ids of the entries, in order.
    pub closed spec fn id_seq(self) -> Seq<Seq<char>> {
        self.entries@.map_values(|e: (String, V)| e.0@)
    }

    /// The number of messages.
    pub fn len(&self) -> (n: usize)
        ensures
            n == self.len_spec(),
            n == self.id_seq().len(),
    {
        self.entries.len()
    }

    /// The `j`-th entry: its id and its value.
    pub fn entry_at(&self, j: usize) -> (res: (&str, &V))
        requires
            self.wf(),
            j < self.len_spec(),
        ensures
            res.0@ == self.id_seq()[j as int],
            self@.contains_key(res.0@),
            self@[res.0@] == *res.1,
    {
        proof {
            lemma_as_map_at(entry_keys(self.entries@), j as int);
        }
        (self.entries[j].0.as_str(), &self.entries[j].1)
    }

    /// Brings this map in step with `offshore` once the syncer has done its work on the values
    /// (see `take_missing` and `take_value`): `results[j]` is what came of the `j`-th entry of
    /// `offshore`, the value to keep under its id (the updated or the newly made one, if there
    /// is one) and whether the syncer succeeded. Sets each id to its value, in order, and stops
    /// at the first failure, returning its error; the ids before it (and its own value, if it
    /// has one) stay synced.
    pub fn sync<OffshoreV>(&mut self, offshore: &SyncedMessageMap<OffshoreV>, results: Vec<(Option<V>, Result<(), String>)>) -> (res: Result<(), String>)
        requires
            old(self).wf(),
            offshore.wf(),
            results@.len() == offshore.len_spec(),
        ensures
            final(self).wf(),
            res is Ok ==> forall|j: int| 0 <= j < results@.len() ==> #[trigger] results@[j].1 is Ok,
            res is Ok ==> final(self)@ == synced_through(old(self)@, offshore.id_seq(), results@, results@.len() as int),
            res matches Err(e) ==> exists|t: int|
                0 <= t < results@.len() && #[trigger] results@[t].1 == Err::<(), String>(e)
                    && (forall|j: int| 0 <= j < t ==> #[trigger] results@[j].1 is Ok)
                    && final(self)@ == synced_through(old(self)@, offshore.id_seq(), results@, t + 1),
    {
        let ghost orig = results@;
        let ghost start = self@;
        let ghost ids = offshore.id_seq();
        let mut rest = results;
        let n = offshore.entries.len();
        let mut t: usize = 0;
        while t < n
            invariant
                self.wf(),
                offshore.wf(),
                n == ids.len(),
                n == orig.len(),
                ids == offshore.id_seq(),
                start == old(self)@,
                orig == results@,
                t <= n,
                rest@ == orig.subrange(t as int, n as int),
                forall|j: int| 0 <= j < t ==> #[trigger] orig[j].1 is Ok,
                self@ == synced_through(start, ids, orig, t as int),
            decreases n - t,
        {
            let ghost before = self@;
            let (value, outcome) = rest.remove(0);
            proof {
                assert(orig[t as int] == (value, outcome));
                assert(rest@ =~= orig.subrange(t + 1, n as int));
            }
            match value {
                Some(v) => {
                    self.set_value(String::from_str(offshore.entries[t].0.as_str()), v);
                },
                None => {},
            }
            proof {
                assert(ids[t as int] == offshore.entries@[t as int].0@);
                assert(self@ == synced_through(start, ids, orig, t + 1));
            }
            match outcome {
                Ok(()) => {},
                Err(e) => {
                    proof {
                        let tt = t as int;
                        assert(orig[tt].1 == Err::<(), String>(e));
                        assert(forall|j: int| 0 <= j < tt ==> #[trigger] orig[j].1 is Ok);
                        assert(exists|t2: int|
                            0 <= t2 < orig.len() && #[trigger] orig[t2].1 == Err::<(), String>(e)
                                && (forall|j: int| 0 <= j < t2 ==> #[trigger] orig[j].1 is Ok)
                                && self@ == synced_through(start, ids, orig, t2 + 1));
                    }
                    return Err(e);
                },
            }
            t = t + 1;
        }
        Ok(())
    }

    /// Takes out the entries whose id `offshore` lacks (their values are the ones to expire);
    /// the entries whose id it has stay as they are.
    pub fn take_missing<OffshoreV>(&mut self, offshore: &SyncedMessageMap<OffshoreV>) -> (dropped: Vec<(String, V)>)
        requires
            old(self).wf(),
            offshore.wf(),
        ensures
            final(self).wf(),
            final(self)@ == old(self)@.restrict(offshore@.dom()),
            keys_distinct(entry_keys(dropped@)),
            as_map(entry_keys(dropped@)) == old(self)@.remove_keys(offshore@.dom()),
    {
        let ghost start = self@;
        let mut dropped: Vec<(String, V)> = Vec::new();
        let mut i: usize = 0;
        proof {
            assert(entry_keys(dropped@) =~= Seq::empty());
        }
        while i < self.entries.len()
            invariant
                self.wf(),
                offshore.wf(),
                start == old(self)@,
                i <= self.entries@.len(),
                forall|j: int| 0 <= j < i ==> #[trigger] offshore@.contains_key(self.entries@[j].0@),
                forall|k: Seq<char>| #[trigger] self@.contains_key(k) ==> start.contains_key(k) && self@[k] == start[k],
                forall|k: Seq<char>| start.contains_key(k) && offshore@.contains_key(k) ==> #[trigger] self@.contains_key(k),
                keys_distinct(entry_keys(dropped@)),
                forall|k: Seq<char>|
                    #[trigger] as_map(entry_keys(dropped@)).contains_key(k) ==> start.contains_key(k)
                        && !offshore@.contains_key(k) && !self@.contains_key(k)
                        && as_map(entry_keys(dropped@))[k] == start[k],
                forall|k: Seq<char>|
                    start.contains_key(k) && !offshore@.contains_key(k) ==> #[trigger] self@.contains_key(k)
                        || as_map(entry_keys(dropped@)).contains_key(k),
            decreases self.entries@.len() - i,
        {
            let keep = offshore.contains_key(self.entries[i].0.as_str());
            if keep {
                i = i + 1;
            } else {
                let ghost before = entry_keys(self.entries@);
                let ghost old_map = self@;
                let ghost old_dropped = entry_keys(dropped@);
                proof {
                    lemma_as_map_at(before, i as int);
                }
                let (id, value) = self.entries.remove(i);
                let ghost k = id@;
                let ghost v = value;
                dropped.push((id, value));
                proof {
                    assert(entry_keys(self.entries@) =~= before.remove(i as int));
                    lemma_as_map_remove(before, i as int);
                    assert(self@ == old_map.remove(k));
                    assert(!has_key(old_dropped, k)) by {
                        if has_key(old_dropped, k) {
                            let a = choose|a: int| 0 <= a < old_dropped.len() && old_dropped[a].0 == k;
                            lemma_as_map_at(old_dropped, a);
                        }
                    }
                    assert(entry_keys(dropped@) =~= old_dropped.push((k, v)));
                    lemma_as_map_push(old_dropped, k, v);
                    assert forall|j: int| 0 <= j < i implies #[trigger] offshore@.contains_key(self.entries@[j].0@) by {
                        assert(self.entries@[j].0@ == before[j].0);
                    }
                }
            }
        }
        proof {
            assert forall|k: Seq<char>| #[trigger] self@.contains_key(k) implies offshore@.contains_key(k) by {
                let e = entry_keys(self.entries@);
                let j = choose|j: int| 0 <= j < e.len() && e[j].0 == k;
                assert(self.entries@[j].0@ == k);
            }
            assert(self@ =~= start.restrict(offshore@.dom()));
            let dm = as_map(entry_keys(dropped@));
            assert forall|k: Seq<char>| start.contains_key(k) && !offshore@.contains_key(k) implies #[trigger] dm.contains_key(k) by {
                if !dm.contains_key(k) {
                    assert(self@.contains_key(k));
                }
            }
            assert(dm =~= start.remove_keys(offshore@.dom()));
        }
        dropped
    }

    /// Takes out the entry with id `key`, if there is one, handing back its id and value.
    pub fn take_value(&mut self, key: &str) -> (res: Option<(String, V)>)
        requires
            old(self).wf(),
        ensures
            final(self).wf(),
            match res {
                Some((id, value)) => {
                    &&& old(self)@.contains_key(key@)
                    &&& id@ == key@
                    &&& value == old(self)@[key@]
                    &&& final(self)@ == old(self)@.remove(key@)
                },
                None => !old(self)@.contains_key(key@) && final(self)@ == old(self)@,
            },
    {
        match self.position_of(key) {
            Some(i) => {
                let ghost before = entry_keys(self.entries@);
                proof {
                    lemma_as_map_at(before, i as int);
                }
                let entry = self.entries.remove(i);
                proof {
                    assert(entry_keys(self.entries@) =~= before.remove(i as int));
                    lemma_as_map_remove(before, i as int);
                }
                Some(entry)
            },
            None => None,
        }
    }

    /// Gives id `key` the value `value`, adding the id if it is new.
    pub fn set_value(&mut self, key: String, value: V)
        requires
            old(self).wf(),
        ensures
            final(self).wf(),
            final(self)@ == old(self)@.insert(key@, value),
    {
        let ghost before = entry_keys(self.entries@);
        let ghost k = key@;
        let ghost v = value;
        match self.position_of(key.as_str()) {
            Some(i) => {
                self.entries.set(i, (key, value));
                proof {
                    assert(entry_keys(self.entries@) =~= before.update(i as int, (before[i as int].0, v)));
                    lemma_as_map_update(before, i as int, v);
                }
            },
            None => {
                self.entries.push((key, value));
                proof {
                    assert(entry_keys(self.entries@) =~= before.push((k, v)));
                    lemma_as_map_push(before, k, v);
                }
            },
        }
    }
}

/// The map `m` once the first `t` results are set: each value that a result carries is put
/// under the id of its position in `ids`.
pub open spec fn synced_through<V>(
    m: Map<Seq<char>, V>,
    ids: Seq<Seq<char>>,
    results: Seq<(Option<V>, Result<(), String>)>,
    t: int,
) -> Map<Seq<char>, V>
    decreases t,
{
    if t <= 0 {
        m
    } else {
        let prev = synced_through(m, ids, results, t - 1);
        match results[t - 1].0 {
            Some(v) => prev.insert(ids[t - 1], v),
            None => prev,
        }
    }
}

/// The map that an association list with distinct keys stands for has as many entries.
proof fn lemma_map_len<V>(e: Seq<(Seq<char>, V)>)
    requires
        keys_distinct(e),
    ensures
        as_map(e).dom().finite(),
        as_map(e).len() == e.len(),
    decreases e.len(),
{
    if e.len() == 0 {
        assert(as_map(e).dom() =~= Set::empty());
    } else {
        let d = e.drop_last();
        assert(keys_distinct(d));
        lemma_map_len(d);
        assert(!has_key(d, e.last().0)) by {
            if has_key(d, e.last().0) {
                let j = choose|j: int| 0 <= j < d.len() && d[j].0 == e.last().0;
                assert(e[j].0 == e[e.len() - 1].0);
            }
        }
        lemma_as_map_push(d, e.last().0, e.last().1);
        assert(d.push(e.last()) =~= e);
    }
}

} // verus!
