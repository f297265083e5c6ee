use vstd::prelude::*;

verus! {

/// `p` is the position of the first occurrence of `k` in `keys`.
pub open spec fn is_first_position(keys: Seq<u128>, k: u128, p: int) -> bool {
    &&& 0 <= p < keys.len()
    &&& keys[p] == k
    &&& forall|j: int| 0 <= j < p ==> keys[j] != k
}

/// `e` is the retained form of `orig[j]`, whose key first occurs at position `p` of `keys`.
pub open spec fn entry_retained_from<N, I>(
    e: ApiHistoryEntry<N, I>,
    orig: Seq<ApiHistoryEntry<N, I>>,
    j: int,
    p: int,
    keys: Seq<u128>,
) -> bool {
    &&& is_first_position(keys, orig[j].key, p)
    &&& e == retained_entry(orig[j], keys)
}

/// Each kept entry `kept[i]` is the retained form of the entry `orig[src[i]]` it was kept from,
/// whose key first occurs at position `pos[i]` of `keys`.
pub open spec fn kept_relation<N, I>(
    kept: Seq<ApiHistoryEntry<N, I>>,
    orig: Seq<ApiHistoryEntry<N, I>>,
    src: Seq<int>,
    pos: Seq<int>,
    keys: Seq<u128>,
) -> bool {
    forall|i: int|
        0 <= i < kept.len() ==> #[trigger] entry_retained_from(kept[i], orig, src[i], pos[i], keys)
}

proof fn lemma_kept_relation_push<N, I>(
    kept: Seq<ApiHistoryEntry<N, I>>,
    orig: Seq<ApiHistoryEntry<N, I>>,
    src: Seq<int>,
    pos: Seq<int>,
    keys: Seq<u128>,
    new_e: ApiHistoryEntry<N, I>,
    j: int,
    p: int,
)
    requires
        kept_relation(kept, orig, src, pos, keys),
        src.len() == kept.len(),
        pos.len() == kept.len(),
        is_first_position(keys, orig[j].key, p),
        new_e == retained_entry(orig[j], keys),
    ensures
        kept_relation(kept.push(new_e), orig, src.push(j), pos.push(p), keys),
{
    let k2 = kept.push(new_e);
    let s2 = src.push(j);
    let p2 = pos.push(p);
    assert forall|i: int| 0 <= i < k2.len() implies #[trigger] entry_retained_from(k2[i], orig, s2[i], p2[i], keys) by {
        if i < kept.len() {
            assert(k2[i] == kept[i]);
            assert(s2[i] == src[i]);
            assert(p2[i] == pos[i]);
        }
    }
    reveal(kept_relation);
    assert(kept_relation(k2, orig, s2, p2, keys));
}

/// Returns the position of the first occurrence of `k` in `keys`, if there is one.
pub fn first_position(keys: &Vec<u128>, k: u128) -> (res: Option<usize>)
    ensures
        match res {
            Some(p) => is_first_position(keys@, k, p as int),
            None => !keys@.contains(k),
        },
{
    let mut i: usize = 0;
    while i < keys.len()
        invariant
            i <= keys.len(),
            forall|j: int| 0 <= j < i ==> keys@[j] != k,
        decreases keys.len() - i,
    {
        if keys[i] == k {
            return Some(i);
        }
        i = i + 1;
    }
    None
}

/// One cached item of an API history list.
#[derive(Clone)]
pub struct ApiHistoryEntry<N, I> {
    /// The key of the API result this item was made from.
    pub key: u128,
    /// Whether the item was updated during the last update of the list.
    pub just_updated: bool,
    /// The position of the item among the unexpired API results.
    pub index: usize,
    /// The long-lived ("native") form of the API result.
    pub item: N,
    /// Data prepared for building the item's texture.
    pub intermediate: I,
}

/// A cache for data associated with items returned from API calls, keyed by
/// the API items' keys (each key occurs at most once).
#[derive(Clone)]
pub struct ApiHistoryList<N, I> {
    max_items: usize,
    entries: Vec<ApiHistoryEntry<N, I>>,
}

/// The entries of `s` have pairwise distinct keys.
pub open spec fn keys_unique<N, I>(s: Seq<ApiHistoryEntry<N, I>>) -> bool {
    forall|i: int, j: int| 0 <= i < s.len() && 0 <= j < s.len() && i != j ==> s[i].key != s[j].key
}

/// The entries of `s` have pairwise distinct indices.
pub open spec fn indices_unique<N, I>(s: Seq<ApiHistoryEntry<N, I>>) -> bool {
    forall|i: int, j: int| 0 <= i < s.len() && 0 <= j < s.len() && i != j ==> s[i].index != s[j].index
}

pub open spec fn seq_has_key<N, I>(s: Seq<ApiHistoryEntry<N, I>>, k: u128) -> bool {
    exists|i: int| 0 <= i < s.len() && s[i].key == k
}

/// The map from keys to entries that a sequence of entries with unique keys stands for.
pub open spec fn entries_as_map<N, I>(s: Seq<ApiHistoryEntry<N, I>>) -> Map<u128, ApiHistoryEntry<N, I>> {
    Map::new(
        |k: u128| seq_has_key(s, k),
        |k: u128| s[choose|i: int| 0 <= i < s.len() && s[i].key == k],
    )
}

/// The entry at `i` is what the map view holds for its key.
pub proof fn lemma_entries_as_map_at<N, I>(s: Seq<ApiHistoryEntry<N, I>>, i: int)
    requires
        keys_unique(s),
        0 <= i < s.len(),
    ensures
        entries_as_map(s).dom().contains(s[i].key),
        entries_as_map(s)[s[i].key] == s[i],
{
    let k = s[i].key;
    assert(seq_has_key(s, k));
    let c = choose|c: int| 0 <= c < s.len() && s[c].key == k;
    assert(c == i);
}

/// Position `q` of `keys` holds the first occurrence of a key that `m` has no entry for.
pub open spec fn is_missing_position<V>(keys: Seq<u128>, m: Map<u128, V>, q: int) -> bool {
    &&& 0 <= q < keys.len()
    &&& is_first_position(keys, keys[q], q)
    &&& !m.dom().contains(keys[q])
}

/// The entry that was retained for key `k` when the unexpired API keys were `keys`.
pub open spec fn retained_entry<N, I>(e: ApiHistoryEntry<N, I>, keys: Seq<u128>) -> ApiHistoryEntry<N, I> {
    ApiHistoryEntry {
        just_updated: false,
        index: (choose|p: int| is_first_position(keys, e.key, p)) as usize,
        ..e
    }
}

impl<N, I> ApiHistoryList<N, I> {
    /// Well-formedness: no key occurs twice, and no two entries have the same index.
    pub closed spec fn wf(self) -> bool {
        &&& keys_unique(self.entries@)
        &&& indices_unique(self.entries@)
    }

    /// Each cached entry carries the key it is cached under.
    pub proof fn lemma_keys_match(self)
        requires
            self.wf(),
        ensures
            forall|k: u128| #[trigger] self@.contains_key(k) ==> self@[k].key == k,
    {
        assert forall|k: u128| #[trigger] self@.contains_key(k) implies self@[k].key == k by {
            let a = choose|a: int| 0 <= a < self.entries@.len() && self.entries@[a].key == k;
            lemma_entries_as_map_at(self.entries@, a);
        }
    }

    /// Two cached entries with the same index are the same entry.
    pub proof fn lemma_index_unique(self, k1: u128, k2: u128)
        requires
            self.wf(),
            self@.contains_key(k1),
            self@.contains_key(k2),
            self@[k1].index == self@[k2].index,
        ensures
            k1 == k2,
    {
        let a = choose|a: int| 0 <= a < self.entries@.len() && self.entries@[a].key == k1;
        let b = choose|b: int| 0 <= b < self.entries@.len() && self.entries@[b].key == k2;
        lemma_entries_as_map_at(self.entries@, a);
        lemma_entries_as_map_at(self.entries@, b);
    }

    /// The cached entries, by key.
    pub closed spec fn view(self) -> Map<u128, ApiHistoryEntry<N, I>> {
        entries_as_map(self.entries@)
    }

    pub closed spec fn max_items_spec(self) -> usize {
        self.max_items
    }

    /// The number of cached entries.
    pub closed spec fn len_spec(self) -> nat {
        self.entries@.len()
    }

    pub fn new(max_items: usize) -> (list: Self)
        ensures
            list.wf(),
            list@ == Map::<u128, ApiHistoryEntry<N, I>>::empty(),
            list.max_items_spec() == max_items,
            list.len_spec() == 0,
    {
        let list = ApiHistoryList { max_items, entries: Vec::new() };
        assert(list@ =~= Map::<u128, ApiHistoryEntry<N, I>>::empty());
        list
    }

    pub fn get_max_items(&self) -> (max_items: usize)
        ensures
            max_items == self.max_items_spec(),
    {
        self.max_items
    }

    pub fn len(&self) -> (len: usize)
        ensures
            len == self.len_spec(),
    {
        self.entries.len()
    }

    /// Looks up the entry cached for `key`.
    pub fn get(&self, key: u128) -> (res: Option<&ApiHistoryEntry<N, I>>)
        requires
            self.wf(),
        ensures
            match res {
                Some(e) => self@.contains_key(key) && self@[key] == *e,
                None => !self@.contains_key(key),
            },
    {
        let mut i: usize = 0;
        while i < self.entries.len()
            invariant
                self.wf(),
                i <= self.entries@.len(),
                forall|j: int| 0 <= j < i ==> self.entries@[j].key != key,
            decreases self.entries.len() - i,
        {
            if self.entries[i].key == key {
                proof {
                    lemma_entries_as_map_at(self.entries@, i as int);
                }
                return Some(&self.entries[i]);
            }
            i = i + 1;
        }
        None
    }

    /// The position in `entries` of the entry with key `key`.
    fn position_of_key(&self, key: u128) -> (i: usize)
        requires
            self.wf(),
            self@.contains_key(key),
        ensures
            i < self.entries@.len(),
            self.entries@[i as int].key == key,
            self@[key] == self.entries@[i as int],
    {
        let mut i: usize = 0;
        while i < self.entries.len()
            invariant
                self.wf(),
                self@.contains_key(key),
                i <= self.entries@.len(),
                forall|j: int| 0 <= j < i ==> self.entries@[j].key != key,
            decreases self.entries.len() - i,
        {
            if self.entries[i].key == key {
                proof {
                    lemma_entries_as_map_at(self.entries@, i as int);
                }
                return i;
            }
            i = i + 1;
        }
        proof {
            let j = choose|j: int| 0 <= j < self.entries@.len() && self.entries@[j].key == key;
            assert(self.entries@[j].key != key);
        }
        0
    }

    /// Whether an entry is cached for `key`.
    pub fn contains_key(&self, key: u128) -> (res: bool)
        requires
            self.wf(),
        ensures
            res == self@.contains_key(key),
    {
        match self.get(key) {
            Some(_) => true,
            None => false,
        }
    }

    /// The keys of all cached entries.
    pub fn keys(&self) -> (keys: Vec<u128>)
        requires
            self.wf(),
        ensures
            forall|k: u128| keys@.contains(k) <==> self@.contains_key(k),
            keys@.no_duplicates(),
            keys@.len() == self.len_spec(),
    {
        let mut keys: Vec<u128> = Vec::new();
        let mut i: usize = 0;
        while i < self.entries.len()
            invariant
                self.wf(),
                i <= self.entries@.len(),
                keys@.len() == i,
                forall|j: int| 0 <= j < i ==> keys@[j] == self.entries@[j].key,
            decreases self.entries.len() - i,
        {
            keys.push(self.entries[i].key);
            i = i + 1;
        }
        proof {
            assert forall|k: u128| keys@.contains(k) <==> self@.contains_key(k) by {
                if keys@.contains(k) {
                    let j = choose|j: int| 0 <= j < keys@.len() && keys@[j] == k;
                    lemma_entries_as_map_at(self.entries@, j);
                }
                if self@.contains_key(k) {
                    let j = choose|j: int| 0 <= j < self.entries@.len() && self.entries@[j].key == k;
                    assert(keys@[j] == k);
                }
            }
        }
        keys
    }

    /// Finds the entry whose position among the unexpired API results is `index`.
    pub fn entry_at_index(&self, index: usize) -> (res: Option<&ApiHistoryEntry<N, I>>)
        requires
            self.wf(),
        ensures
            match res {
                Some(e) => e.index == index && self@.contains_key(e.key) && self@[e.key] == *e,
                None => forall|k: u128| self@.contains_key(k) ==> self@[k].index != index,
            },
    {
        let mut i: usize = 0;
        while i < self.entries.len()
            invariant
                self.wf(),
                i <= self.entries@.len(),
                forall|j: int| 0 <= j < i ==> self.entries@[j].index != index,
            decreases self.entries.len() - i,
        {
            if self.entries[i].index == index {
                proof {
                    lemma_entries_as_map_at(self.entries@, i as int);
                }
                return Some(&self.entries[i]);
            }
            i = i + 1;
        }
        proof {
            assert forall|k: u128| self@.contains_key(k) implies self@[k].index != index by {
                let j = choose|j: int| 0 <= j < self.entries@.len() && self.entries@[j].key == k;
                lemma_entries_as_map_at(self.entries@, j);
            }
        }
        None
    }

    /// Step one of an update: keeps only the entries whose key is among the unexpired
    /// API results `unexpired_keys`, sets each kept entry's index to the position of the
    /// first API result with its key, and clears every kept entry's `just_updated` flag.
    pub fn retain_present_keys(&mut self, unexpired_keys: &Vec<u128>)
        requires
            old(self).wf(),
        ensures
            final(self).wf(),
            final(self).max_items_spec() == old(self).max_items_spec(),
            forall|k: u128|
                #[trigger] final(self)@.contains_key(k) <==> (old(self)@.contains_key(k)
                    && unexpired_keys@.contains(k)),
            forall|k: u128|
                #![trigger final(self)@[k]]
                final(self)@.contains_key(k) ==> final(self)@[k] == retained_entry(
                    old(self)@[k],
                    unexpired_keys@,
                ),
            forall|k: u128|
                #![trigger final(self)@[k]]
                final(self)@.contains_key(k) ==> is_first_position(
                    unexpired_keys@,
                    k,
                    final(self)@[k].index as int,
                ),
    {
        let ghost old_view = self@;
        let num_keys = unexpired_keys.len();
        let mut remaining: Vec<ApiHistoryEntry<N, I>> = Vec::new();
        core::mem::swap(&mut remaining, &mut self.entries);
        let ghost orig = remaining@;
        let mut kept: Vec<ApiHistoryEntry<N, I>> = Vec::new();
        let ghost mut src: Seq<int> = Seq::empty();
        let ghost mut pos: Seq<int> = Seq::empty();
        while remaining.len() > 0
            invariant
                keys_unique(orig),
                old_view == entries_as_map(orig),
                unexpired_keys@.len() == num_keys,
                remaining@.len() <= orig.len(),
                remaining@ == orig.take(remaining@.len() as int),
                src.len() == kept@.len(),
                pos.len() == kept@.len(),
                forall|i: int|
                    0 <= i < kept@.len() ==> remaining@.len() <= #[trigger] src[i] < orig.len(),
                forall|i: int, j: int| 0 <= i < j < kept@.len() ==> src[i] > src[j],
                kept_relation(kept@, orig, src, pos, unexpired_keys@),
                forall|j: int|
                    remaining@.len() <= j < orig.len() && unexpired_keys@.contains(
                        #[trigger] orig[j].key,
                    ) ==> exists|i: int| 0 <= i < kept@.len() && src[i] == j,
            decreases remaining.len(),
        {
            let ghost before_len = remaining@.len();
            let e = remaining.pop().unwrap();
            let ghost j = before_len - 1;
            assert(orig[j] === e) by {
                assert(orig.take(before_len as int)[j] == orig[j]);
            }
            assert(remaining@ == orig.take(remaining@.len() as int)) by {
                assert(remaining@ =~= orig.take(remaining@.len() as int));
            }
            match first_position(unexpired_keys, e.key) {
                Some(fp) => {
                    let ghost e_ghost = e;
                    let new_e = ApiHistoryEntry {
                        key: e.key,
                        just_updated: false,
                        index: fp,
                        item: e.item,
                        intermediate: e.intermediate,
                    };
                    proof {
                        let c = choose|c: int| is_first_position(unexpired_keys@, e_ghost.key, c);
                        assert(c == fp as int);
                        assert(new_e === retained_entry(e_ghost, unexpired_keys@));
                    }
                    let ghost kept_before = kept@;
                    let ghost src_before = src;
                    let ghost pos_before = pos;
                    assert(unexpired_keys@[fp as int] == e_ghost.key);
                    assert(unexpired_keys@.contains(e_ghost.key));
                    let ghost new_e_ghost = new_e;
                    kept.push(new_e);
                    proof {
                        lemma_kept_relation_push(
                            kept_before,
                            orig,
                            src_before,
                            pos_before,
                            unexpired_keys@,
                            new_e_ghost,
                            j,
                            fp as int,
                        );
                        src = src.push(j);
                        pos = pos.push(fp as int);
                        assert(kept@ == kept_before.push(new_e_ghost));
                        assert(src[kept@.len() - 1] == j);
                        assert forall|jj: int|
                            remaining@.len() <= jj < orig.len() && unexpired_keys@.contains(
                                #[trigger] orig[jj].key,
                            ) implies exists|i: int| 0 <= i < kept@.len() && src[i] == jj by {
                            if jj == j {
                                assert(src[kept@.len() - 1] == jj);
                            } else {
                                let i0 = choose|i: int|
                                    0 <= i < kept_before.len() && src_before[i] == jj;
                                assert(src[i0] == jj);
                            }
                        }
                    }
                },
                None => {
                    assert(kept_relation(kept@, orig, src, pos, unexpired_keys@));
                    assert(!unexpired_keys@.contains(orig[j].key));

                    assert forall|jj: int|
                        remaining@.len() <= jj < orig.len() && unexpired_keys@.contains(
                            #[trigger] orig[jj].key,
                        ) implies exists|i: int| 0 <= i < kept@.len() && src[i] == jj by {
                        if jj == j {
                            assert(false);
                        }
                    }
                },
            }
        }
        self.entries = kept;
        proof {
            let s = kept@;
            assert(keys_unique(s)) by {
                assert forall|a: int, b: int|
                    0 <= a < s.len() && 0 <= b < s.len() && a != b implies s[a].key
                    != s[b].key by {
                    assert(entry_retained_from(s[a], orig, src[a], pos[a], unexpired_keys@));
                    assert(entry_retained_from(s[b], orig, src[b], pos[b], unexpired_keys@));
                    assert(src[a] != src[b]);
                }
            }
            assert(indices_unique(s)) by {
                assert forall|a: int, b: int|
                    0 <= a < s.len() && 0 <= b < s.len() && a != b implies s[a].index
                    != s[b].index by {
                    assert(entry_retained_from(s[a], orig, src[a], pos[a], unexpired_keys@));
                    assert(entry_retained_from(s[b], orig, src[b], pos[b], unexpired_keys@));
                    assert(src[a] != src[b]);
                    assert(s[a].key != s[b].key);
                    let ks = unexpired_keys@;
                    let ca = choose|c: int| is_first_position(ks, s[a].key, c);
                    let cb = choose|c: int| is_first_position(ks, s[b].key, c);
                    lemma_first_position_unique(ks, s[a].key, ca, pos[a]);
                    lemma_first_position_unique(ks, s[b].key, cb, pos[b]);
                    assert(0 <= ca < num_keys && 0 <= cb < num_keys);
                    assert(ks[pos[a]] == s[a].key);
                    assert(ks[pos[b]] == s[b].key);
                }
            }
            assert forall|k: u128|
                #![trigger self@.dom().contains(k)]
                #![trigger old_view.dom().contains(k)]
                self@.contains_key(k) <==> (old_view.contains_key(k)
                    && unexpired_keys@.contains(k)) by {
                if self@.contains_key(k) {
                    let a = choose|a: int| 0 <= a < s.len() && s[a].key == k;
                    assert(entry_retained_from(s[a], orig, src[a], pos[a], unexpired_keys@));
                    assert(orig[src[a]].key == k);
                    assert(seq_has_key(orig, k));
                    assert(unexpired_keys@[pos[a]] == k);
                }
                if old_view.contains_key(k) && unexpired_keys@.contains(k) {
                    let j = choose|j: int| 0 <= j < orig.len() && orig[j].key == k;
                    assert(unexpired_keys@.contains(orig[j].key));
                    let a = choose|a: int| 0 <= a < s.len() && src[a] == j;
                    assert(entry_retained_from(s[a], orig, src[a], pos[a], unexpired_keys@));
                    assert(seq_has_key(s, k));
                }
            }
            assert forall|k: u128| #[trigger] self@.contains_key(k) implies self@[k] == retained_entry(
                old_view[k],
                unexpired_keys@,
            ) && is_first_position(unexpired_keys@, k, self@[k].index as int) by {
                let a = choose|a: int| 0 <= a < s.len() && s[a].key == k;
                lemma_entries_as_map_at(s, a);
                assert(entry_retained_from(s[a], orig, src[a], pos[a], unexpired_keys@));
                lemma_entries_as_map_at(orig, src[a]);
                assert(orig[src[a]].key == k);
                let ks = unexpired_keys@;
                assert(is_first_position(ks, k, pos[a]));
                let c = choose|c: int| is_first_position(ks, k, c);
                lemma_first_position_unique(ks, k, c, pos[a]);
                assert(0 <= c < num_keys);
            }
        }
    }

    /// The positions of the API results whose keys have no cached entry yet, in
    /// increasing order, counting only the first API result with each key.
    pub fn missing_key_positions(&self, unexpired_keys: &Vec<u128>) -> (positions: Vec<usize>)
        requires
            self.wf(),
        ensures
            forall|i: int, j: int| 0 <= i < j < positions@.len() ==> positions@[i] < positions@[j],
            forall|i: int|
                0 <= i < positions@.len() ==> is_missing_position(
                    unexpired_keys@,
                    self@,
                    #[trigger] positions@[i] as int,
                ),
            forall|q: int|
                #[trigger] is_missing_position(unexpired_keys@, self@, q) ==> positions@.contains(
                    q as usize,
                ),
    {
        let mut positions: Vec<usize> = Vec::new();
        let mut p: usize = 0;
        while p < unexpired_keys.len()
            invariant
                self.wf(),
                p <= unexpired_keys@.len(),
                forall|i: int, j: int|
                    0 <= i < j < positions@.len() ==> positions@[i] < positions@[j],
                forall|i: int| 0 <= i < positions@.len() ==> #[trigger] positions@[i] < p,
                forall|i: int|
                    0 <= i < positions@.len() ==> is_missing_position(
                        unexpired_keys@,
                        self@,
                        #[trigger] positions@[i] as int,
                    ),
                forall|q: int|
                    0 <= q < p && #[trigger] is_missing_position(unexpired_keys@, self@, q)
                        ==> positions@.contains(q as usize),
            decreases unexpired_keys.len() - p,
        {
            let k = unexpired_keys[p];
            let is_first = match first_position(unexpired_keys, k) {
                Some(f) => f == p,
                None => false,
            };
            let take = is_first && !self.contains_key(k);
            proof {
                assert(take == is_missing_position(unexpired_keys@, self@, p as int)) by {
                    if is_first_position(unexpired_keys@, k, p as int) {
                        assert(unexpired_keys@.contains(k));
                    }
                }
            }
            let ghost before = positions@;
            if take {
                positions.push(p);
                proof {
                    assert forall|q: int|
                        0 <= q < p + 1 && #[trigger] is_missing_position(unexpired_keys@, self@, q)
                            implies positions@.contains(q as usize) by {
                        if q < p {
                            let i = choose|i: int| 0 <= i < before.len() && before[i] == q as usize;
                            assert(positions@[i] == q as usize);
                        } else {
                            assert(positions@[before.len() as int] == p);
                        }
                    }
                }
            }
            p = p + 1;
        }
        positions
    }

    /// Step three of an update: caches a new entry for a key that has none yet.
    pub fn insert_new(&mut self, key: u128, index: usize, item: N, intermediate: I)
        requires
            old(self).wf(),
            !old(self)@.contains_key(key),
            forall|k: u128| #[trigger] old(self)@.contains_key(k) ==> old(self)@[k].index != index,
        ensures
            final(self).wf(),
            final(self).max_items_spec() == old(self).max_items_spec(),
            final(self)@ == old(self)@.insert(
                key,
                ApiHistoryEntry { key, just_updated: false, index, item, intermediate },
            ),
    {
        let ghost old_entries = self.entries@;
        let e = ApiHistoryEntry { key, just_updated: false, index, item, intermediate };
        let ghost e_ghost = e;
        self.entries.push(e);
        proof {
            let s = self.entries@;
            assert(s == old_entries.push(e_ghost));
            assert(keys_unique(s)) by {
                assert forall|a: int, b: int|
                    0 <= a < s.len() && 0 <= b < s.len() && a != b implies s[a].key
                    != s[b].key by {
                    if a == s.len() - 1 {
                        assert(!seq_has_key(old_entries, key));
                        assert(s[b] == old_entries[b]);
                    } else if b == s.len() - 1 {
                        assert(!seq_has_key(old_entries, key));
                        assert(s[a] == old_entries[a]);
                    }
                }
            }
            assert(indices_unique(s)) by {
                assert forall|a: int, b: int|
                    0 <= a < s.len() && 0 <= b < s.len() && a != b implies s[a].index
                    != s[b].index by {
                    if a == s.len() - 1 {
                        assert(s[b] == old_entries[b]);
                        lemma_entries_as_map_at(old_entries, b);
                    } else if b == s.len() - 1 {
                        assert(s[a] == old_entries[a]);
                        lemma_entries_as_map_at(old_entries, a);
                    }
                }
            }
            lemma_push_view(old_entries, e_ghost);
        }
    }

    /// Step two of an update: replaces the item cached for `key` with its updated form,
    /// and records whether this counts as an update.
    pub fn set_item(&mut self, key: u128, item: N, just_updated: bool)
        requires
            old(self).wf(),
            old(self)@.contains_key(key),
        ensures
            final(self).wf(),
            final(self).max_items_spec() == old(self).max_items_spec(),
            final(self)@ == old(self)@.insert(
                key,
                ApiHistoryEntry { item, just_updated, ..old(self)@[key] },
            ),
    {
        let i = self.position_of_key(key);
        let ghost old_entries = self.entries@;
        let mut removed = self.entries.remove(i);
        removed.item = item;
        removed.just_updated = just_updated;
        let ghost r = removed;
        self.entries.insert(i, removed);
        proof {
            let s = self.entries@;
            assert(s == old_entries.update(i as int, r)) by {
                assert(s =~= old_entries.update(i as int, r));
            }
            lemma_update_view(old_entries, i as int, r);
        }
    }

    /// Removes the entry cached for `key` and hands it back.
    pub fn remove(&mut self, key: u128) -> (e: ApiHistoryEntry<N, I>)
        requires
            old(self).wf(),
            old(self)@.contains_key(key),
        ensures
            final(self).wf(),
            final(self).max_items_spec() == old(self).max_items_spec(),
            e == old(self)@[key],
            e.key == key,
            final(self)@ == old(self)@.remove(key),
    {
        let i = self.position_of_key(key);
        let ghost old_entries = self.entries@;
        let e = self.entries.remove(i);
        proof {
            lemma_remove_view(old_entries, i as int);
        }
        e
    }

    /// Caches `e` under its key, which has no entry yet, at an index that no other entry has.
    pub fn insert_entry(&mut self, e: ApiHistoryEntry<N, I>)
        requires
            old(self).wf(),
            !old(self)@.contains_key(e.key),
            forall|k: u128| #[trigger] old(self)@.contains_key(k) ==> old(self)@[k].index != e.index,
        ensures
            final(self).wf(),
            final(self).max_items_spec() == old(self).max_items_spec(),
            final(self)@ == old(self)@.insert(e.key, e),
    {
        let ghost old_entries = self.entries@;
        let ghost e_ghost = e;
        let ghost key = e.key;
        let ghost index = e.index;
        self.entries.push(e);
        proof {
            let s = self.entries@;
            assert(s == old_entries.push(e_ghost));
            assert(keys_unique(s)) by {
                assert forall|a: int, b: int|
                    0 <= a < s.len() && 0 <= b < s.len() && a != b implies s[a].key
                    != s[b].key by {
                    if a == s.len() - 1 {
                        assert(!seq_has_key(old_entries, key));
                        assert(s[b] == old_entries[b]);
                    } else if b == s.len() - 1 {
                        assert(!seq_has_key(old_entries, key));
                        assert(s[a] == old_entries[a]);
                    }
                }
            }
            assert(indices_unique(s)) by {
                assert forall|a: int, b: int|
                    0 <= a < s.len() && 0 <= b < s.len() && a != b implies s[a].index
                    != s[b].index by {
                    if a == s.len() - 1 {
                        assert(s[b] == old_entries[b]);
                        lemma_entries_as_map_at(old_entries, b);
                    } else if b == s.len() - 1 {
                        assert(s[a] == old_entries[a]);
                        lemma_entries_as_map_at(old_entries, a);
                    }
                }
            }
            lemma_push_view(old_entries, e_ghost);
        }
    }

    /// Replaces the texture data prepared for the entry cached for `key`.
    pub fn set_intermediate(&mut self, key: u128, intermediate: I)
        requires
            old(self).wf(),
            old(self)@.contains_key(key),
        ensures
            final(self).wf(),
            final(self).max_items_spec() == old(self).max_items_spec(),
            final(self)@ == old(self)@.insert(key, ApiHistoryEntry { intermediate, ..old(self)@[key] }),
    {
        let i = self.position_of_key(key);
        let ghost old_entries = self.entries@;
        let mut removed = self.entries.remove(i);
        removed.intermediate = intermediate;
        let ghost r = removed;
        self.entries.insert(i, removed);
        proof {
            let s = self.entries@;
            assert(s == old_entries.update(i as int, r)) by {
                assert(s =~= old_entries.update(i as int, r));
            }
            lemma_update_view(old_entries, i as int, r);
        }
    }
}

/// An update of an API history list holds an entry for exactly the keys of the unexpired API
/// results, each at the position of its key's first occurrence: the entries kept by
/// `retain_present_keys` (those whose keys are still present, at their keys' first positions),
/// together with the entries added by `insert_new` at each position that
/// `missing_key_positions` gives.
pub proof fn law_update_holds_exactly_present_keys<N, I>(
    before: Map<u128, ApiHistoryEntry<N, I>>,
    retained: Map<u128, ApiHistoryEntry<N, I>>,
    added: Map<u128, ApiHistoryEntry<N, I>>,
    keys: Seq<u128>,
)
    requires
        forall|k: u128| #[trigger] retained.contains_key(k) <==> (before.contains_key(k) && keys.contains(k)),
        forall|k: u128| #[trigger] retained.contains_key(k) ==> is_first_position(keys, k, retained[k].index as int),
        forall|k: u128|
            #[trigger] added.contains_key(k) <==> (exists|q: int| #[trigger] is_missing_position(keys, retained, q) && keys[q] == k),
        forall|k: u128| #[trigger] added.contains_key(k) ==> added[k].index < keys.len() && keys[added[k].index as int] == k
            && is_missing_position(keys, retained, added[k].index as int),
    ensures
        forall|k: u128| #[trigger] retained.union_prefer_right(added).contains_key(k) <==> keys.contains(k),
        forall|k: u128|
            #[trigger] retained.union_prefer_right(added).contains_key(k) ==> is_first_position(
                keys,
                k,
                retained.union_prefer_right(added)[k].index as int,
            ),
{
    let updated = retained.union_prefer_right(added);
    assert forall|k: u128| #[trigger] updated.contains_key(k) <==> keys.contains(k) by {
        if keys.contains(k) && !retained.contains_key(k) {
            let q = choose|q: int| 0 <= q < keys.len() && keys[q] == k;
            lemma_first_position_exists(keys, k, q);
            let p = choose|p: int| is_first_position(keys, k, p);
            assert(is_missing_position(keys, retained, p));
            assert(added.contains_key(k));
        }
        if added.contains_key(k) {
            let q = added[k].index as int;
            assert(keys[q] == k);
        }
    }
}

/// If `k` occurs in `keys`, it has a first position.
pub proof fn lemma_first_position_exists(keys: Seq<u128>, k: u128, q: int)
    requires
        0 <= q < keys.len(),
        keys[q] == k,
    ensures
        exists|p: int| is_first_position(keys, k, p),
    decreases q,
{
    if exists|j: int| 0 <= j < q && keys[j] == k {
        let j = choose|j: int| 0 <= j < q && keys[j] == k;
        lemma_first_position_exists(keys, k, j);
    } else {
        assert(is_first_position(keys, k, q));
    }
}

/// The first position of a key is unique.
pub proof fn lemma_first_position_unique(keys: Seq<u128>, k: u128, p: int, q: int)
    requires
        is_first_position(keys, k, p),
        is_first_position(keys, k, q),
    ensures
        p == q,
{
    if p < q {
        assert(keys[p] == k);
    } else if q < p {
        assert(keys[q] == k);
    }
}

proof fn lemma_push_view<N, I>(s: Seq<ApiHistoryEntry<N, I>>, e: ApiHistoryEntry<N, I>)
    requires
        keys_unique(s.push(e)),
    ensures
        entries_as_map(s.push(e)) == entries_as_map(s).insert(e.key, e),
{
    let t = s.push(e);
    assert(keys_unique(s)) by {
        assert forall|a: int, b: int|
            0 <= a < s.len() && 0 <= b < s.len() && a != b implies s[a].key != s[b].key by {
            assert(t[a] == s[a] && t[b] == s[b]);
        }
    }
    let m1 = entries_as_map(t);
    let m2 = entries_as_map(s).insert(e.key, e);
    assert forall|k: u128| m1.dom().contains(k) <==> m2.dom().contains(k) by {
        if seq_has_key(t, k) {
            let a = choose|a: int| 0 <= a < t.len() && t[a].key == k;
            if a < s.len() {
                assert(s[a].key == k);
            }
        }
        if seq_has_key(s, k) {
            let a = choose|a: int| 0 <= a < s.len() && s[a].key == k;
            assert(t[a].key == k);
        }
        assert(t[s.len() as int].key == e.key);
    }
    assert forall|k: u128| #[trigger] m1.dom().contains(k) implies m1[k] == m2[k] by {
        let a = choose|a: int| 0 <= a < t.len() && t[a].key == k;
        lemma_entries_as_map_at(t, a);
        if a == s.len() {
            assert(t[a] == e);
        } else {
            assert(t[a] == s[a]);
            assert(t[a].key != t[s.len() as int].key);
            lemma_entries_as_map_at(s, a);
        }
    }
    assert(m1 =~= m2);
}

proof fn lemma_update_view<N, I>(s: Seq<ApiHistoryEntry<N, I>>, i: int, e: ApiHistoryEntry<N, I>)
    requires
        keys_unique(s),
        indices_unique(s),
        0 <= i < s.len(),
        e.key == s[i].key,
        e.index == s[i].index,
    ensures
        keys_unique(s.update(i, e)),
        indices_unique(s.update(i, e)),
        entries_as_map(s.update(i, e)) == entries_as_map(s).insert(e.key, e),
{
    let t = s.update(i, e);
    assert(keys_unique(t)) by {
        assert forall|a: int, b: int|
            0 <= a < t.len() && 0 <= b < t.len() && a != b implies t[a].key != t[b].key by {
            assert(t[a].key == s[a].key && t[b].key == s[b].key);
        }
    }
    assert(indices_unique(t)) by {
        assert forall|a: int, b: int|
            0 <= a < t.len() && 0 <= b < t.len() && a != b implies t[a].index != t[b].index by {
            assert(t[a].index == s[a].index && t[b].index == s[b].index);
        }
    }
    let m1 = entries_as_map(t);
    let m2 = entries_as_map(s).insert(e.key, e);
    lemma_entries_as_map_at(s, i);
    assert forall|k: u128| m1.dom().contains(k) <==> m2.dom().contains(k) by {
        if seq_has_key(t, k) {
            let a = choose|a: int| 0 <= a < t.len() && t[a].key == k;
            assert(s[a].key == k);
        }
        if seq_has_key(s, k) {
            let a = choose|a: int| 0 <= a < s.len() && s[a].key == k;
            assert(t[a].key == k);
        }
    }
    assert forall|k: u128| #[trigger] m1.dom().contains(k) implies m1[k] == m2[k] by {
        let a = choose|a: int| 0 <= a < t.len() && t[a].key == k;
        lemma_entries_as_map_at(t, a);
        if a == i {
            assert(t[a] == e);
        } else {
            assert(t[a] == s[a]);
            lemma_entries_as_map_at(s, a);
        }
    }
    assert(m1 =~= m2);
}

proof fn lemma_remove_view<N, I>(s: Seq<ApiHistoryEntry<N, I>>, i: int)
    requires
        keys_unique(s),
        indices_unique(s),
        0 <= i < s.len(),
    ensures
        keys_unique(s.remove(i)),
        indices_unique(s.remove(i)),
        entries_as_map(s.remove(i)) == entries_as_map(s).remove(s[i].key),
{
    let k = s[i].key;
    let t = s.remove(i);
    assert forall|a: int| 0 <= a < t.len() implies #[trigger] t[a] == (if a < i {
        s[a]
    } else {
        s[a + 1]
    }) by {}
    assert(keys_unique(t)) by {
        assert forall|a: int, b: int|
            0 <= a < t.len() && 0 <= b < t.len() && a != b implies t[a].key != t[b].key by {
            let a2 = if a < i { a } else { a + 1 };
            let b2 = if b < i { b } else { b + 1 };
            assert(t[a] == s[a2] && t[b] == s[b2]);
        }
    }
    assert(indices_unique(t)) by {
        assert forall|a: int, b: int|
            0 <= a < t.len() && 0 <= b < t.len() && a != b implies t[a].index != t[b].index by {
            let a2 = if a < i { a } else { a + 1 };
            let b2 = if b < i { b } else { b + 1 };
            assert(t[a] == s[a2] && t[b] == s[b2]);
        }
    }
    let m1 = entries_as_map(t);
    let m2 = entries_as_map(s).remove(k);
    assert forall|x: u128| #[trigger] m1.dom().contains(x) <==> m2.dom().contains(x) by {
        if seq_has_key(t, x) {
            let a = choose|a: int| 0 <= a < t.len() && t[a].key == x;
            let a2 = if a < i { a } else { a + 1 };
            assert(t[a] == s[a2]);
            assert(s[a2].key == x);
            assert(a2 != i);
        }
        if seq_has_key(s, x) && x != k {
            let a = choose|a: int| 0 <= a < s.len() && s[a].key == x;
            assert(a != i);
            let a2 = if a < i { a } else { a - 1 };
            assert(t[a2] == s[a]);
        }
    }
    assert forall|x: u128| #[trigger] m1.dom().contains(x) implies m1[x] == m2[x] by {
        let a = choose|a: int| 0 <= a < t.len() && t[a].key == x;
        lemma_entries_as_map_at(t, a);
        let a2 = if a < i { a } else { a + 1 };
        assert(t[a] == s[a2]);
        lemma_entries_as_map_at(s, a2);
    }
    assert(m1 =~= m2);
}

} // verus!
