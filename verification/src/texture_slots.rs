use vstd::prelude::*;
use crate::assoc::{as_map, has_key, keys_distinct, lemma_as_map_at, lemma_as_map_push, lemma_as_map_update, lemma_as_map_remove};
use vstd::string::*;
use crate::api_history_list::{ApiHistoryList, ApiHistoryEntry};

verus! {

/// A handle to a texture in the texture pool (the texture's index in the pool).
#[derive(Copy, Clone, PartialEq, Eq, Structural, Hash, Debug)]
pub struct TextureHandle {
    handle: u16,
}

impl TextureHandle {
    pub closed spec fn index_spec(self) -> u16 {
        self.handle
    }

    /// The handle of the texture at position `index` of the pool.
    pub fn from_index(index: u16) -> (handle: TextureHandle)
        ensures
            handle.index_spec() == index,
    {
        TextureHandle { handle: index }
    }

    pub fn index(&self) -> (index: u16)
        ensures
            index == self.index_spec(),
    {
        self.handle
    }
}

/// What a request for a texture slot needs done.
#[derive(Copy, Clone, PartialEq, Eq, Structural, Debug)]
pub enum SlotRequest {
    /// Remake this existing (previously unused, now used) texture.
    Reuse(TextureHandle),
    /// Make a new texture in the pool, and register it with `add_new_slot`.
    MakeNew,
}

/// Manages a subset of the textures in the texture pool, each marked used or unused.
#[derive(Clone, Debug)]
pub struct TextureSubpoolManager {
    subpool: Vec<(TextureHandle, bool)>,
    max_size: usize,
}

impl TextureSubpoolManager {
    /// Well-formedness: no texture occurs twice, and the subpool is not over its size.
    pub closed spec fn wf(self) -> bool {
        &&& keys_distinct(self.subpool@)
        &&& self.subpool@.len() <= self.max_size
    }

    /// Which textures the subpool holds, and whether each is used.
    pub closed spec fn view(self) -> Map<TextureHandle, bool> {
        as_map(self.subpool@)
    }

    /// The number of textures in the subpool.
    pub closed spec fn size(self) -> nat {
        self.subpool@.len()
    }

    pub closed spec fn max_size_spec(self) -> usize {
        self.max_size
    }

    /// Whether the subpool holds a texture that is not in use.
    pub open spec fn has_unused(self) -> bool {
        exists|h: TextureHandle| #[trigger] self@.contains_key(h) && !self@[h]
    }

    pub fn new(subpool_size: usize) -> (manager: Self)
        ensures
            manager.wf(),
            manager@ == Map::<TextureHandle, bool>::empty(),
            manager.size() == 0,
            manager.max_size_spec() == subpool_size,
    {
        let manager = TextureSubpoolManager { subpool: Vec::new(), max_size: subpool_size };
        assert(manager@ =~= Map::<TextureHandle, bool>::empty());
        manager
    }

    fn find(&self, handle: TextureHandle) -> (res: Option<usize>)
        requires
            self.wf(),
        ensures
            match res {
                Some(i) => i < self.subpool@.len() && self.subpool@[i as int].0 == handle,
                None => !has_key(self.subpool@, handle),
            },
    {
        let mut i: usize = 0;
        while i < self.subpool.len()
            invariant
                i <= self.subpool@.len(),
                forall|j: int| 0 <= j < i ==> self.subpool@[j].0 != handle,
            decreases self.subpool.len() - i,
        {
            if self.subpool[i].0 == handle {
                return Some(i);
            }
            i = i + 1;
        }
        None
    }

    /// Whether `handle` is in the subpool, and if so, whether it is in use.
    pub fn get(&self, handle: TextureHandle) -> (res: Option<bool>)
        requires
            self.wf(),
        ensures
            match res {
                Some(used) => self@.contains_key(handle) && self@[handle] == used,
                None => !self@.contains_key(handle),
            },
    {
        match self.find(handle) {
            Some(i) => {
                proof {
                    lemma_as_map_at(self.subpool@, i as int);
                }
                Some(self.subpool[i].1)
            },
            None => None,
        }
    }

    /// Whether the subpool has room for one more texture.
    pub fn has_room(&self) -> (res: bool)
        ensures
            res == (self.size() < self.max_size_spec()),
    {
        self.subpool.len() < self.max_size
    }

    /// Whether `request_slot` can be called: the subpool has room, or an unused texture.
    pub fn can_request_slot(&self) -> (res: bool)
        requires
            self.wf(),
        ensures
            res == (self.size() < self.max_size_spec() || self.has_unused()),
    {
        if self.subpool.len() < self.max_size {
            return true;
        }
        match self.first_unused() {
            Some(i) => {
                proof {
                    lemma_as_map_at(self.subpool@, i as int);
                    assert(self@.contains_key(self.subpool@[i as int].0));
                }
                true
            },
            None => false,
        }
    }

    fn first_unused(&self) -> (res: Option<usize>)
        requires
            self.wf(),
        ensures
            match res {
                Some(i) => i < self.subpool@.len() && !self.subpool@[i as int].1,
                None => !self.has_unused(),
            },
    {
        let mut i: usize = 0;
        while i < self.subpool.len()
            invariant
                self.wf(),
                i <= self.subpool@.len(),
                forall|j: int| 0 <= j < i ==> self.subpool@[j].1,
            decreases self.subpool.len() - i,
        {
            if !self.subpool[i].1 {
                return Some(i);
            }
            i = i + 1;
        }
        proof {
            assert forall|h: TextureHandle| #[trigger] self@.contains_key(h) implies self@[h] by {
                let j = choose|j: int| 0 <= j < self.subpool@.len() && self.subpool@[j].0 == h;
                lemma_as_map_at(self.subpool@, j);
            }
        }
        None
    }

    /// Requests a texture slot. While the subpool has room, a new texture is to be made;
    /// once it is full, an unused texture is marked used and handed back for remaking.
    pub fn request_slot(&mut self) -> (req: SlotRequest)
        requires
            old(self).wf(),
            old(self).size() < old(self).max_size_spec() || old(self).has_unused(),
        ensures
            final(self).wf(),
            final(self).max_size_spec() == old(self).max_size_spec(),
            final(self).size() == old(self).size(),
            old(self).size() < old(self).max_size_spec() ==> req == SlotRequest::MakeNew
                && final(self)@ == old(self)@,
            old(self).size() == old(self).max_size_spec() ==> match req {
                SlotRequest::Reuse(h) => old(self)@.contains_key(h) && !old(self)@[h]
                    && final(self)@ == old(self)@.insert(h, true),
                SlotRequest::MakeNew => false,
            },
    {
        if self.subpool.len() < self.max_size {
            return SlotRequest::MakeNew;
        }
        match self.first_unused() {
            Some(i) => {
                let h = self.subpool[i].0;
                let ghost old_s = self.subpool@;
                self.subpool.set(i, (h, true));
                proof {
                    lemma_as_map_at(old_s, i as int);
                    lemma_as_map_update(old_s, i as int, true);
                    assert(self.subpool@ == old_s.update(i as int, (old_s[i as int].0, true)));
                }
                SlotRequest::Reuse(h)
            },
            None => {
                SlotRequest::MakeNew
            },
        }
    }

    /// Registers a newly made texture as a used slot of the subpool.
    pub fn add_new_slot(&mut self, handle: TextureHandle)
        requires
            old(self).wf(),
            old(self).size() < old(self).max_size_spec(),
            !old(self)@.contains_key(handle),
        ensures
            final(self).wf(),
            final(self).max_size_spec() == old(self).max_size_spec(),
            final(self).size() == old(self).size() + 1,
            final(self)@ == old(self)@.insert(handle, true),
    {
        let ghost old_s = self.subpool@;
        self.subpool.push((handle, true));
        proof {
            lemma_as_map_push(old_s, handle, true);
        }
    }

    /// Gives a used texture back to the subpool, marking it unused.
    pub fn give_back_slot(&mut self, incoming_texture: TextureHandle)
        requires
            old(self).wf(),
            old(self)@.contains_key(incoming_texture),
            old(self)@[incoming_texture],
        ensures
            final(self).wf(),
            final(self).max_size_spec() == old(self).max_size_spec(),
            final(self).size() == old(self).size(),
            final(self)@ == old(self)@.insert(incoming_texture, false),
    {
        match self.find(incoming_texture) {
            Some(i) => {
                let ghost old_s = self.subpool@;
                self.subpool.set(i, (incoming_texture, false));
                proof {
                    lemma_as_map_update(old_s, i as int, false);
                    assert(self.subpool@ == old_s.update(i as int, (old_s[i as int].0, false)));
                }
            },
            None => {
                proof {
                    lemma_as_map_unreachable(self.subpool@, incoming_texture);
                }
            },
        }
    }
}

proof fn lemma_as_map_unreachable<K, V>(s: Seq<(K, V)>, k: K)
    requires
        as_map(s).dom().contains(k),
    ensures
        has_key(s, k),
{
}

/// Keeps one texture per item of an API history list, drawing them from a subpool.
#[derive(Clone, Debug)]
pub struct ApiHistoryListTextureManager {
    max_items: usize,
    keys_to_textures: Vec<(u128, TextureHandle)>,
    texture_subpool_manager: TextureSubpoolManager,
}

impl ApiHistoryListTextureManager {
    /// Well-formedness: keys and textures each occur once, and every texture bound to
    /// a key is a used texture of the subpool.
    pub closed spec fn wf(self) -> bool {
        &&& keys_distinct(self.keys_to_textures@)
        &&& self.texture_subpool_manager.wf()
        &&& self.texture_subpool_manager.max_size_spec() == self.max_items
        &&& forall|i: int, j: int|
            0 <= i < self.keys_to_textures@.len() && 0 <= j < self.keys_to_textures@.len() && i
                != j ==> self.keys_to_textures@[i].1 != self.keys_to_textures@[j].1
        &&& forall|i: int|
            0 <= i < self.keys_to_textures@.len() ==> {
                let h = #[trigger] self.keys_to_textures@[i].1;
                &&& self.texture_subpool_manager@.contains_key(h)
                &&& self.texture_subpool_manager@[h]
            }
    }

    /// The texture bound to each key.
    pub closed spec fn view(self) -> Map<u128, TextureHandle> {
        as_map(self.keys_to_textures@)
    }

    /// The subpool the textures come from.
    pub closed spec fn subpool(self) -> TextureSubpoolManager {
        self.texture_subpool_manager
    }

    pub closed spec fn max_items_spec(self) -> usize {
        self.max_items
    }

    pub fn new(max_items: usize) -> (manager: Self)
        ensures
            manager.wf(),
            manager@ == Map::<u128, TextureHandle>::empty(),
            manager.subpool()@ == Map::<TextureHandle, bool>::empty(),
            manager.subpool().size() == 0,
            manager.subpool().max_size_spec() == max_items,
            manager.max_items_spec() == max_items,
    {
        let manager = ApiHistoryListTextureManager {
            max_items,
            keys_to_textures: Vec::new(),
            texture_subpool_manager: TextureSubpoolManager::new(max_items),
        };
        assert(manager@ =~= Map::<u128, TextureHandle>::empty());
        manager
    }

    /// Read access to the subpool (to ask whether a slot can be requested).
    pub fn get_subpool(&self) -> (subpool: &TextureSubpoolManager)
        ensures
            *subpool == self.subpool(),
    {
        &self.texture_subpool_manager
    }

    fn find_key(&self, key: u128) -> (res: Option<usize>)
        ensures
            match res {
                Some(i) => i < self.keys_to_textures@.len() && self.keys_to_textures@[i as int].0
                    == key,
                None => !has_key(self.keys_to_textures@, key),
            },
    {
        let mut i: usize = 0;
        while i < self.keys_to_textures.len()
            invariant
                i <= self.keys_to_textures@.len(),
                forall|j: int| 0 <= j < i ==> self.keys_to_textures@[j].0 != key,
            decreases self.keys_to_textures.len() - i,
        {
            if self.keys_to_textures[i].0 == key {
                return Some(i);
            }
            i = i + 1;
        }
        None
    }

    /// The texture bound to `key`, if there is one.
    pub fn get_texture(&self, key: u128) -> (res: Option<TextureHandle>)
        requires
            self.wf(),
        ensures
            match res {
                Some(h) => self@.contains_key(key) && self@[key] == h,
                None => !self@.contains_key(key),
            },
    {
        match self.find_key(key) {
            Some(i) => {
                proof {
                    lemma_as_map_at(self.keys_to_textures@, i as int);
                }
                Some(self.keys_to_textures[i].1)
            },
            None => None,
        }
    }

    /// Unbinds `key`, giving its texture back to the subpool.
    pub fn unbind(&mut self, key: u128)
        requires
            old(self).wf(),
            old(self)@.contains_key(key),
        ensures
            final(self).wf(),
            final(self).max_items_spec() == old(self).max_items_spec(),
            final(self)@ == old(self)@.remove(key),
            old(self).subpool()@.contains_key(old(self)@[key]),
            final(self).subpool()@ == old(self).subpool()@.insert(old(self)@[key], false),
            final(self).subpool().size() == old(self).subpool().size(),
    {
        let i = match self.find_key(key) {
            Some(i) => i,
            None => {
                proof {
                    lemma_as_map_unreachable(self.keys_to_textures@, key);
                }
                0
            },
        };
        let ghost old_kt = self.keys_to_textures@;
        proof {
            lemma_as_map_at(old_kt, i as int);
        }
        let (_, h) = self.keys_to_textures.remove(i);
        proof {
            lemma_as_map_remove(old_kt, i as int);
            assert(self.keys_to_textures@ == old_kt.remove(i as int));
        }
        self.texture_subpool_manager.give_back_slot(h);
        proof {
            let kt = self.keys_to_textures@;
            assert forall|a: int| 0 <= a < kt.len() implies #[trigger] kt[a] == (if a < i {
                old_kt[a]
            } else {
                old_kt[a + 1]
            }) by {}
            assert forall|a: int, b: int|
                0 <= a < kt.len() && 0 <= b < kt.len() && a != b implies kt[a].1 != kt[b].1 by {
                let a2 = if a < i { a } else { a + 1 };
                let b2 = if b < i { b } else { b + 1 };
                assert(kt[a] == old_kt[a2] && kt[b] == old_kt[b2]);
            }
            assert forall|a: int| 0 <= a < kt.len() implies {
                let g = #[trigger] kt[a].1;
                &&& self.texture_subpool_manager@.contains_key(g)
                &&& self.texture_subpool_manager@[g]
            } by {
                let a2 = if a < i { a } else { a + 1 };
                assert(kt[a] == old_kt[a2]);
                assert(old_kt[a2].1 != old_kt[i as int].1);
                assert(old_kt[a2].1 == old_kt[a2].1);
            }
        }
    }

    /// Binds a key that has no texture yet to a used texture of the subpool that no other
    /// key has.
    pub fn bind(&mut self, key: u128, handle: TextureHandle)
        requires
            old(self).wf(),
            !old(self)@.contains_key(key),
            old(self).subpool()@.contains_key(handle),
            old(self).subpool()@[handle],
            forall|k: u128| #[trigger] old(self)@.contains_key(k) ==> old(self)@[k] != handle,
        ensures
            final(self).wf(),
            final(self).max_items_spec() == old(self).max_items_spec(),
            final(self)@ == old(self)@.insert(key, handle),
            final(self).subpool() == old(self).subpool(),
    {
        let ghost old_kt = self.keys_to_textures@;
        self.keys_to_textures.push((key, handle));
        proof {
            assert(!has_key(old_kt, key));
            lemma_as_map_push(old_kt, key, handle);
            let kt = self.keys_to_textures@;
            assert forall|a: int, b: int|
                0 <= a < kt.len() && 0 <= b < kt.len() && a != b implies kt[a].1 != kt[b].1 by {
                if a == old_kt.len() {
                    lemma_as_map_at(old_kt, b);
                    assert(kt[b] == old_kt[b]);
                } else if b == old_kt.len() {
                    lemma_as_map_at(old_kt, a);
                    assert(kt[a] == old_kt[a]);
                } else {
                    assert(kt[a] == old_kt[a] && kt[b] == old_kt[b]);
                }
            }
            assert forall|a: int| 0 <= a < kt.len() implies {
                let g = #[trigger] kt[a].1;
                &&& self.texture_subpool_manager@.contains_key(g)
                &&& self.texture_subpool_manager@[g]
            } by {
                if a < old_kt.len() {
                    assert(kt[a] == old_kt[a]);
                }
            }
        }
    }

    /// Requests a slot from the subpool for a new key (see `TextureSubpoolManager::request_slot`).
    pub fn request_slot(&mut self) -> (req: SlotRequest)
        requires
            old(self).wf(),
            old(self).subpool().size() < old(self).subpool().max_size_spec() || old(
                self,
            ).subpool().has_unused(),
        ensures
            final(self).wf(),
            final(self).max_items_spec() == old(self).max_items_spec(),
            final(self)@ == old(self)@,
            final(self).subpool().max_size_spec() == old(self).subpool().max_size_spec(),
            final(self).subpool().size() == old(self).subpool().size(),
            old(self).subpool().size() < old(self).subpool().max_size_spec() ==> req
                == SlotRequest::MakeNew && final(self).subpool()@ == old(self).subpool()@,
            old(self).subpool().size() == old(self).subpool().max_size_spec() ==> match req {
                SlotRequest::Reuse(h) => old(self).subpool()@.contains_key(h) && !old(
                    self,
                ).subpool()@[h] && final(self).subpool()@ == old(self).subpool()@.insert(h, true)
                    && forall|k: u128| #[trigger] final(self)@.contains_key(k) ==> final(self)@[k] != h,
                SlotRequest::MakeNew => false,
            },
    {
        let req = self.texture_subpool_manager.request_slot();
        proof {
            let kt = self.keys_to_textures@;
            assert forall|a: int| 0 <= a < kt.len() implies {
                let g = #[trigger] kt[a].1;
                &&& self.texture_subpool_manager@.contains_key(g)
                &&& self.texture_subpool_manager@[g]
            } by {}
            match req {
                SlotRequest::Reuse(h) => {
                    assert forall|k: u128| #[trigger] self@.contains_key(k) implies self@[k] != h by {
                        let a = choose|a: int| 0 <= a < kt.len() && kt[a].0 == k;
                        lemma_as_map_at(kt, a);
                    }
                },
                SlotRequest::MakeNew => {},
            }
        }
        req
    }

    /// Registers a newly made texture with the subpool, and binds it to `key`.
    pub fn add_new_slot_for(&mut self, key: u128, handle: TextureHandle)
        requires
            old(self).wf(),
            !old(self)@.contains_key(key),
            old(self).subpool().size() < old(self).subpool().max_size_spec(),
            !old(self).subpool()@.contains_key(handle),
        ensures
            final(self).wf(),
            final(self).max_items_spec() == old(self).max_items_spec(),
            final(self)@ == old(self)@.insert(key, handle),
            final(self).subpool()@ == old(self).subpool()@.insert(handle, true),
            final(self).subpool().size() == old(self).subpool().size() + 1,
    {
        self.texture_subpool_manager.add_new_slot(handle);
        proof {
            let kt = self.keys_to_textures@;
            assert forall|a: int| 0 <= a < kt.len() implies {
                let g = #[trigger] kt[a].1;
                &&& self.texture_subpool_manager@.contains_key(g)
                &&& self.texture_subpool_manager@[g]
            } by {
                assert(kt[a].1 != handle);
            }
            assert forall|k: u128| #[trigger] self@.contains_key(k) implies self@[k] != handle by {
                let a = choose|a: int| 0 <= a < kt.len() && kt[a].0 == k;
                lemma_as_map_at(kt, a);
            }
        }
        self.bind(key, handle);
    }

    /// The keys bound to a texture that `api_history_list` no longer holds.
    pub fn keys_to_drop<N, I>(&self, api_history_list: &ApiHistoryList<N, I>) -> (keys: Vec<u128>)
        requires
            self.wf(),
            api_history_list.wf(),
        ensures
            keys@.no_duplicates(),
            forall|k: u128|
                keys@.contains(k) <==> (self@.contains_key(k) && !api_history_list@.contains_key(k)),
    {
        let mut keys: Vec<u128> = Vec::new();
        let mut i: usize = 0;
        let ghost kt = self.keys_to_textures@;
        while i < self.keys_to_textures.len()
            invariant
                self.wf(),
                api_history_list.wf(),
                kt == self.keys_to_textures@,
                i <= kt.len(),
                keys@.no_duplicates(),
                forall|k: u128|
                    keys@.contains(k) <==> (exists|a: int| 0 <= a < i && #[trigger] kt[a].0 == k)
                        && !api_history_list@.contains_key(k),
            decreases kt.len() - i,
        {
            let k = self.keys_to_textures[i].0;
            let ghost before = keys@;
            if !api_history_list.contains_key(k) {
                proof {
                    assert(!keys@.contains(k)) by {
                        if keys@.contains(k) {
                            let a = choose|a: int| 0 <= a < i && #[trigger] kt[a].0 == k;
                            assert(kt[a].0 == kt[i as int].0);
                        }
                    }
                }
                keys.push(k);
            }
            proof {
                assert forall|x: u128|
                    keys@.contains(x) <==> (exists|a: int| 0 <= a < i + 1 && #[trigger] kt[a].0 == x)
                        && !api_history_list@.contains_key(x) by {
                    if x == k {
                        assert(kt[i as int].0 == x);
                        if !api_history_list@.contains_key(k) {
                            assert(keys@[keys@.len() - 1] == x);
                        }
                    } else {
                        if exists|a: int| 0 <= a < i + 1 && #[trigger] kt[a].0 == x {
                            let a = choose|a: int| 0 <= a < i + 1 && #[trigger] kt[a].0 == x;
                            assert(a < i);
                        }
                        if keys@.contains(x) {
                            let b = choose|b: int| 0 <= b < keys@.len() && keys@[b] == x;
                            assert(before[b] == x);
                        }
                        if before.contains(x) {
                            let b = choose|b: int| 0 <= b < before.len() && before[b] == x;
                            assert(keys@[b] == x);
                        }
                    }
                }
            }
            i = i + 1;
        }
        proof {
            assert forall|k: u128|
                keys@.contains(k) <==> (self@.contains_key(k) && !api_history_list@.contains_key(k)) by {
                if self@.contains_key(k) {
                    let a = choose|a: int| 0 <= a < kt.len() && kt[a].0 == k;
                    assert(kt[a].0 == k);
                }
            }
        }
        keys
    }

    /// The keys that `api_history_list` holds but that have no texture bound yet.
    pub fn keys_to_add<N, I>(&self, api_history_list: &ApiHistoryList<N, I>) -> (keys: Vec<u128>)
        requires
            self.wf(),
            api_history_list.wf(),
        ensures
            keys@.no_duplicates(),
            forall|k: u128|
                keys@.contains(k) <==> (api_history_list@.contains_key(k) && !self@.contains_key(k)),
    {
        let list_keys = api_history_list.keys();
        let mut keys: Vec<u128> = Vec::new();
        let mut i: usize = 0;
        while i < list_keys.len()
            invariant
                self.wf(),
                i <= list_keys@.len(),
                list_keys@.no_duplicates(),
                forall|k: u128| list_keys@.contains(k) <==> api_history_list@.contains_key(k),
                keys@.no_duplicates(),
                forall|k: u128|
                    keys@.contains(k) <==> (exists|a: int| 0 <= a < i && #[trigger] list_keys@[a] == k)
                        && !self@.contains_key(k),
            decreases list_keys.len() - i,
        {
            let k = list_keys[i];
            let ghost before = keys@;
            if self.get_texture(k).is_none() {
                proof {
                    assert(!keys@.contains(k)) by {
                        if keys@.contains(k) {
                            let a = choose|a: int| 0 <= a < i && #[trigger] list_keys@[a] == k;
                            assert(list_keys@[a] == list_keys@[i as int]);
                        }
                    }
                }
                keys.push(k);
            }
            proof {
                assert forall|x: u128|
                    keys@.contains(x) <==> (exists|a: int| 0 <= a < i + 1 && #[trigger] list_keys@[a] == x)
                        && !self@.contains_key(x) by {
                    if x == k {
                        assert(list_keys@[i as int] == x);
                        if !self@.contains_key(k) {
                            assert(keys@[keys@.len() - 1] == x);
                        }
                    } else {
                        if exists|a: int| 0 <= a < i + 1 && #[trigger] list_keys@[a] == x {
                            let a = choose|a: int| 0 <= a < i + 1 && #[trigger] list_keys@[a] == x;
                            assert(a < i);
                        }
                        if keys@.contains(x) {
                            let b = choose|b: int| 0 <= b < keys@.len() && keys@[b] == x;
                            assert(before[b] == x);
                        }
                        if before.contains(x) {
                            let b = choose|b: int| 0 <= b < before.len() && before[b] == x;
                            assert(keys@[b] == x);
                        }
                    }
                }
            }
            i = i + 1;
        }
        proof {
            assert forall|k: u128|
                keys@.contains(k) <==> (api_history_list@.contains_key(k) && !self@.contains_key(k)) by {
                if list_keys@.contains(k) {
                    let a = choose|a: int| 0 <= a < list_keys@.len() && list_keys@[a] == k;
                    assert(list_keys@[a] == k);
                }
            }
        }
        keys
    }

    /// The textures of bound keys whose entry in `api_history_list` was just updated
    /// (these are to be remade).
    pub fn textures_to_remake<N, I>(&self, api_history_list: &ApiHistoryList<N, I>) -> (textures: Vec<
        TextureHandle,
    >)
        requires
            self.wf(),
            api_history_list.wf(),
        ensures
            forall|h: TextureHandle|
                textures@.contains(h) <==> exists|k: u128|
                    #[trigger] self@.contains_key(k) && self@[k] == h
                        && api_history_list@.contains_key(k) && api_history_list@[k].just_updated,
    {
        let mut textures: Vec<TextureHandle> = Vec::new();
        let mut i: usize = 0;
        let ghost kt = self.keys_to_textures@;
        while i < self.keys_to_textures.len()
            invariant
                self.wf(),
                api_history_list.wf(),
                kt == self.keys_to_textures@,
                i <= kt.len(),
                forall|h: TextureHandle|
                    textures@.contains(h) <==> exists|a: int|
                        0 <= a < i && #[trigger] kt[a].1 == h && api_history_list@.contains_key(kt[a].0)
                            && api_history_list@[kt[a].0].just_updated,
            decreases kt.len() - i,
        {
            let (k, h) = self.keys_to_textures[i];
            let take = match api_history_list.get(k) {
                Some(entry) => entry.just_updated,
                None => false,
            };
            let ghost before = textures@;
            if take {
                textures.push(h);
            }
            proof {
                assert forall|x: TextureHandle|
                    textures@.contains(x) <==> exists|a: int|
                        0 <= a < i + 1 && #[trigger] kt[a].1 == x && api_history_list@.contains_key(kt[a].0)
                            && api_history_list@[kt[a].0].just_updated by {
                    if textures@.contains(x) {
                        if before.contains(x) {
                            let a = choose|a: int|
                                0 <= a < i && #[trigger] kt[a].1 == x && api_history_list@.contains_key(kt[a].0)
                                    && api_history_list@[kt[a].0].just_updated;
                            assert(0 <= a < i + 1);
                        } else {
                            assert(x == h);
                            assert(kt[i as int].1 == x);
                        }
                    }
                    if exists|a: int|
                        0 <= a < i + 1 && #[trigger] kt[a].1 == x && api_history_list@.contains_key(kt[a].0)
                            && api_history_list@[kt[a].0].just_updated {
                        let a = choose|a: int|
                            0 <= a < i + 1 && #[trigger] kt[a].1 == x && api_history_list@.contains_key(kt[a].0)
                                && api_history_list@[kt[a].0].just_updated;
                        if a < i {
                            assert(before.contains(x));
                            if take {
                                assert(textures@[before.len() as int] == h);
                                let b = choose|b: int| 0 <= b < before.len() && before[b] == x;
                                assert(textures@[b] == x);
                            }
                        } else {
                            assert(take);
                            assert(textures@[before.len() as int] == x);
                        }
                    }
                }
            }
            i = i + 1;
        }
        proof {
            assert forall|x: TextureHandle|
                textures@.contains(x) <==> exists|k: u128|
                    #[trigger] self@.contains_key(k) && self@[k] == x
                        && api_history_list@.contains_key(k) && api_history_list@[k].just_updated by {
                if textures@.contains(x) {
                    let a = choose|a: int|
                        0 <= a < kt.len() && #[trigger] kt[a].1 == x && api_history_list@.contains_key(kt[a].0)
                            && api_history_list@[kt[a].0].just_updated;
                    lemma_as_map_at(kt, a);
                    assert(self@.contains_key(kt[a].0));
                }
                if exists|k: u128|
                    #[trigger] self@.contains_key(k) && self@[k] == x
                        && api_history_list@.contains_key(k) && api_history_list@[k].just_updated {
                    let k = choose|k: u128|
                        #[trigger] self@.contains_key(k) && self@[k] == x
                            && api_history_list@.contains_key(k) && api_history_list@[k].just_updated;
                    let a = choose|a: int| 0 <= a < kt.len() && kt[a].0 == k;
                    lemma_as_map_at(kt, a);
                    assert(kt[a].1 == x);
                }
            }
        }
        textures
    }

    /// Step one of syncing with an API history list: keeps the textures of the keys that
    /// the list still holds, and gives the textures of the other keys back to the subpool.
    /// Returns the textures of kept keys whose entry was just updated (to be remade).
    pub fn retain_for_list<N, I>(&mut self, api_history_list: &ApiHistoryList<N, I>) -> (to_remake: Vec<
        TextureHandle,
    >)
        requires
            old(self).wf(),
            api_history_list.wf(),
        ensures
            final(self).wf(),
            final(self).max_items_spec() == old(self).max_items_spec(),
            final(self).subpool().size() == old(self).subpool().size(),
            final(self).subpool().max_size_spec() == old(self).subpool().max_size_spec(),
            forall|k: u128|
                #[trigger] final(self)@.contains_key(k) <==> (old(self)@.contains_key(k)
                    && api_history_list@.contains_key(k)),
            forall|k: u128| #[trigger]
                final(self)@.contains_key(k) ==> final(self)@[k] == old(self)@[k],
            forall|h: TextureHandle|
                #[trigger] final(self).subpool()@.contains_key(h) <==> old(self).subpool()@.contains_key(h),
            forall|h: TextureHandle|
                #[trigger] final(self).subpool()@.contains_key(h) ==> (final(self).subpool()@[h] <==> (
                old(self).subpool()@[h] && !is_dropped_texture(old(self)@, api_history_list@, h))),
            forall|h: TextureHandle|
                to_remake@.contains(h) <==> exists|k: u128|
                    #[trigger] final(self)@.contains_key(k) && final(self)@[k] == h
                        && api_history_list@.contains_key(k) && api_history_list@[k].just_updated,
    {
        let ghost old_map = self@;
        let ghost old_sub = self.subpool()@;
        let drop = self.keys_to_drop(api_history_list);
        let mut t: usize = 0;
        while t < drop.len()
            invariant
                self.wf(),
                api_history_list.wf(),
                self.max_items_spec() == old(self).max_items_spec(),
                self.subpool().size() == old(self).subpool().size(),
                self.subpool().max_size_spec() == old(self).subpool().max_size_spec(),
                t <= drop@.len(),
                drop@.no_duplicates(),
                forall|k: u128|
                    drop@.contains(k) <==> (old_map.contains_key(k) && !api_history_list@.contains_key(k)),
                forall|k: u128|
                    #[trigger] self@.contains_key(k) <==> (old_map.contains_key(k) && !exists|u: int|
                        0 <= u < t && drop@[u] == k),
                forall|k: u128| #[trigger] self@.contains_key(k) ==> self@[k] == old_map[k],
                forall|h: TextureHandle|
                    #[trigger] self.subpool()@.contains_key(h) <==> old_sub.contains_key(h),
                forall|h: TextureHandle|
                    #[trigger] self.subpool()@.contains_key(h) ==> (self.subpool()@[h] <==> (old_sub[h]
                        && !exists|u: int| 0 <= u < t && #[trigger] old_map[drop@[u]] == h)),
            decreases drop.len() - t,
        {
            let k = drop[t];
            proof {
                assert(drop@.contains(k));
                assert(!exists|u: int| 0 <= u < t && drop@[u] == k) by {
                    if exists|u: int| 0 <= u < t && drop@[u] == k {
                        let u = choose|u: int| 0 <= u < t && drop@[u] == k;
                        assert(drop@[u] == drop@[t as int]);
                    }
                }
            }
            let ghost before_map = self@;
            let ghost before_sub = self.subpool()@;
            assert(before_map.contains_key(k));
            assert(before_map[k] == old_map[k]);
            self.unbind(k);
            proof {
                assert forall|x: u128|
                    #[trigger] self@.contains_key(x) <==> (old_map.contains_key(x) && !exists|u: int|
                        0 <= u < t + 1 && drop@[u] == x) by {
                    if x != k {
                        if exists|u: int| 0 <= u < t + 1 && drop@[u] == x {
                            let u = choose|u: int| 0 <= u < t + 1 && drop@[u] == x;
                            assert(u < t);
                        }
                    } else {
                        assert(drop@[t as int] == x);
                    }
                }
                assert forall|h: TextureHandle|
                    #[trigger] self.subpool()@.contains_key(h) implies (self.subpool()@[h] <==> (old_sub[h]
                        && !exists|u: int| 0 <= u < t + 1 && #[trigger] old_map[drop@[u]] == h)) by {
                    if h == before_map[k] {
                        assert(old_map[drop@[t as int]] == h);
                    } else {
                        if exists|u: int| 0 <= u < t + 1 && #[trigger] old_map[drop@[u]] == h {
                            let u = choose|u: int| 0 <= u < t + 1 && #[trigger] old_map[drop@[u]] == h;
                            assert(u < t);
                        }
                    }
                }
            }
            t = t + 1;
        }
        proof {
            assert forall|k: u128|
                #[trigger] self@.contains_key(k) <==> (old_map.contains_key(k)
                    && api_history_list@.contains_key(k)) by {
                if exists|u: int| 0 <= u < drop@.len() && drop@[u] == k {
                    let u = choose|u: int| 0 <= u < drop@.len() && drop@[u] == k;
                    assert(drop@.contains(k));
                }
                if old_map.contains_key(k) && !api_history_list@.contains_key(k) {
                    assert(drop@.contains(k));
                    let u = choose|u: int| 0 <= u < drop@.len() && drop@[u] == k;
                }
            }
            assert forall|h: TextureHandle|
                #[trigger] self.subpool()@.contains_key(h) implies (self.subpool()@[h] <==> (old_sub[h]
                    && !is_dropped_texture(old_map, api_history_list@, h))) by {
                if exists|u: int| 0 <= u < drop@.len() && #[trigger] old_map[drop@[u]] == h {
                    let u = choose|u: int| 0 <= u < drop@.len() && #[trigger] old_map[drop@[u]] == h;
                    assert(drop@.contains(drop@[u]));
                    assert(is_dropped_texture(old_map, api_history_list@, h));
                }
                if is_dropped_texture(old_map, api_history_list@, h) {
                    let k = choose|k: u128|
                        #[trigger] old_map.contains_key(k) && !api_history_list@.contains_key(k)
                            && old_map[k] == h;
                    assert(drop@.contains(k));
                    let u = choose|u: int| 0 <= u < drop@.len() && drop@[u] == k;
                    assert(old_map[drop@[u]] == h);
                }
            }
        }
        self.textures_to_remake(api_history_list)
    }

    /// The texture for the list item whose position among the API results is `index`.
    pub fn get_texture_at_index<N, I>(&self, index: usize, api_history_list: &ApiHistoryList<N, I>) -> (res: Option<
        TextureHandle,
    >)
        requires
            self.wf(),
            api_history_list.wf(),
            api_history_list.max_items_spec() == self.max_items_spec(),
        ensures
            match res {
                Some(h) => exists|k: u128|
                    #[trigger] api_history_list@.contains_key(k) && api_history_list@[k].index == index
                        && self@.contains_key(k) && self@[k] == h,
                None => forall|k: u128|
                    #[trigger] api_history_list@.contains_key(k) && api_history_list@[k].index == index
                        ==> !self@.contains_key(k),
            },
    {
        match api_history_list.entry_at_index(index) {
            Some(entry) => {
                let res = self.get_texture(entry.key);
                proof {
                    match res {
                        Some(h) => {
                            assert(api_history_list@.contains_key(entry.key));
                        },
                        None => {
                            assert forall|k: u128|
                                #[trigger] api_history_list@.contains_key(k) && api_history_list@[k].index
                                    == index implies !self@.contains_key(k) by {
                                api_history_list.lemma_index_unique(k, entry.key);
                            }
                        },
                    }
                }
                res
            },
            None => None,
        }
    }
}

/// The texture `h` is bound to a key of `bound` that `list` no longer holds.
pub open spec fn is_dropped_texture<N, I>(
    bound: Map<u128, TextureHandle>,
    list: Map<u128, ApiHistoryEntry<N, I>>,
    h: TextureHandle,
) -> bool {
    exists|k: u128| #[trigger] bound.contains_key(k) && !list.contains_key(k) && bound[k] == h
}

/// Where a texture stands for a new key: the key has no texture, and the texture is a used
/// texture of the subpool that no key has (as after a `Reuse` request).
pub open spec fn can_bind(m: ApiHistoryListTextureManager, key: u128, handle: TextureHandle) -> bool {
    &&& !m@.contains_key(key)
    &&& m.subpool()@.contains_key(handle)
    &&& m.subpool()@[handle]
    &&& forall|k: u128| #[trigger] m@.contains_key(k) ==> m@[k] != handle
}

/// Where a newly made texture stands for a new key: the key has no texture, the subpool has
/// room, and the texture is not in it yet.
pub open spec fn can_add_made(m: ApiHistoryListTextureManager, key: u128, handle: TextureHandle) -> bool {
    &&& !m@.contains_key(key)
    &&& m.subpool().size() < m.subpool().max_size_spec()
    &&& !m.subpool()@.contains_key(handle)
}

/// What is left to do for the textures once the manager is in step with an API history list:
/// the textures to remake in place, and the keys that need a texture.
pub struct TextureUpdatePlan {
    /// Each kept key whose entry was just updated, with its texture.
    pub remake: Vec<(u128, TextureHandle)>,
    /// The keys of the list that have no texture.
    pub add: Vec<u128>,
}

impl ApiHistoryListTextureManager {
    /// Whether some key is bound to `handle`.
    fn texture_is_bound(&self, handle: TextureHandle) -> (res: bool)
        requires
            self.wf(),
        ensures
            res == exists|k: u128| #[trigger] self@.contains_key(k) && self@[k] == handle,
    {
        let mut i: usize = 0;
        while i < self.keys_to_textures.len()
            invariant
                self.wf(),
                i <= self.keys_to_textures@.len(),
                forall|a: int| 0 <= a < i ==> self.keys_to_textures@[a].1 != handle,
            decreases self.keys_to_textures@.len() - i,
        {
            if self.keys_to_textures[i].1 == handle {
                proof {
                    lemma_as_map_at(self.keys_to_textures@, i as int);
                    assert(self@.contains_key(self.keys_to_textures@[i as int].0));
                }
                return true;
            }
            i = i + 1;
        }
        proof {
            if exists|k: u128| #[trigger] self@.contains_key(k) && self@[k] == handle {
                let k = choose|k: u128| #[trigger] self@.contains_key(k) && self@[k] == handle;
                let kt = self.keys_to_textures@;
                let a = choose|a: int| 0 <= a < kt.len() && kt[a].0 == k;
                lemma_as_map_at(kt, a);
            }
        }
        false
    }

    /// The kept keys whose entry in `api_history_list` was just updated, with their textures.
    fn keys_to_remake<N, I>(&self, api_history_list: &ApiHistoryList<N, I>) -> (pairs: Vec<(u128, TextureHandle)>)
        requires
            self.wf(),
            api_history_list.wf(),
        ensures
            pairs@.no_duplicates(),
            forall|k: u128, h: TextureHandle|
                pairs@.contains((k, h)) <==> (self@.contains_key(k) && self@[k] == h
                    && api_history_list@.contains_key(k) && api_history_list@[k].just_updated),
    {
        let list_keys = api_history_list.keys();
        let mut pairs: Vec<(u128, TextureHandle)> = Vec::new();
        let mut i: usize = 0;
        while i < list_keys.len()
            invariant
                self.wf(),
                api_history_list.wf(),
                i <= list_keys@.len(),
                list_keys@.no_duplicates(),
                forall|k: u128| list_keys@.contains(k) <==> api_history_list@.contains_key(k),
                pairs@.no_duplicates(),
                forall|k: u128, h: TextureHandle|
                    pairs@.contains((k, h)) <==> ((exists|a: int| 0 <= a < i && #[trigger] list_keys@[a] == k)
                        && self@.contains_key(k) && self@[k] == h && api_history_list@[k].just_updated),
            decreases list_keys@.len() - i,
        {
            let k = list_keys[i];
            proof {
                assert(list_keys@.contains(k));
            }
            let ghost before = pairs@;
            match self.get_texture(k) {
                Some(h) => {
                    match api_history_list.get(k) {
                        Some(entry) => {
                            if entry.just_updated {
                                proof {
                                    assert(!before.contains((k, h))) by {
                                        if before.contains((k, h)) {
                                            let a = choose|a: int| 0 <= a < i && #[trigger] list_keys@[a] == k;
                                            assert(list_keys@[a] == list_keys@[i as int]);
                                        }
                                    }
                                }
                                pairs.push((k, h));
                            }
                        },
                        None => {},
                    }
                },
                None => {},
            }
            proof {
                assert forall|x: u128, g: TextureHandle|
                    pairs@.contains((x, g)) <==> ((exists|a: int| 0 <= a < i + 1 && #[trigger] list_keys@[a] == x)
                        && self@.contains_key(x) && self@[x] == g && api_history_list@[x].just_updated) by {
                    if x == k {
                        assert(list_keys@[i as int] == x);
                        if pairs@.contains((x, g)) && !before.contains((x, g)) {
                            assert(pairs@[before.len() as int] == (x, g));
                        }
                        if before.contains((x, g)) {
                            let b = choose|b: int| 0 <= b < before.len() && before[b] == (x, g);
                            assert(pairs@[b] == (x, g));
                        }
                        if self@.contains_key(x) && self@[x] == g && api_history_list@[x].just_updated {
                            assert(pairs@[pairs@.len() - 1] == (x, g));
                        }
                    } else {
                        if exists|a: int| 0 <= a < i + 1 && #[trigger] list_keys@[a] == x {
                            let a = choose|a: int| 0 <= a < i + 1 && #[trigger] list_keys@[a] == x;
                            assert(a < i);
                        }
                        if pairs@.contains((x, g)) {
                            let b = choose|b: int| 0 <= b < pairs@.len() && pairs@[b] == (x, g);
                            if b < before.len() {
                                assert(before[b] == (x, g));
                            }
                        }
                        if before.contains((x, g)) {
                            let b = choose|b: int| 0 <= b < before.len() && before[b] == (x, g);
                            assert(pairs@[b] == (x, g));
                        }
                    }
                }
            }
            i = i + 1;
        }
        proof {
            assert forall|k: u128, h: TextureHandle|
                pairs@.contains((k, h)) <==> (self@.contains_key(k) && self@[k] == h
                    && api_history_list@.contains_key(k) && api_history_list@[k].just_updated) by {
                if api_history_list@.contains_key(k) {
                    assert(list_keys@.contains(k));
                    let a = choose|a: int| 0 <= a < list_keys@.len() && list_keys@[a] == k;
                    assert(list_keys@[a] == k);
                }
                if pairs@.contains((k, h)) {
                    let a = choose|a: int| 0 <= a < list_keys@.len() && #[trigger] list_keys@[a] == k;
                    assert(list_keys@.contains(k));
                }
            }
        }
        pairs
    }

    /// Brings the textures in step with an API history list, as far as it can without making
    /// textures: keeps the texture of every key that the list still holds, gives the texture of
    /// every other key back to the subpool (unused), and returns what is left to do: the
    /// textures of the kept keys whose entry was just updated (to remake in place), and the keys
    /// of the list that have no texture (each gets one through `try_request_slot`, then
    /// `accept_reused_texture` or `accept_made_texture`).
    pub fn update_from_history_list<N, I>(&mut self, api_history_list: &ApiHistoryList<N, I>) -> (plan: TextureUpdatePlan)
        requires
            old(self).wf(),
            api_history_list.wf(),
        ensures
            final(self).wf(),
            final(self).max_items_spec() == old(self).max_items_spec(),
            forall|k: u128|
                #[trigger] final(self)@.contains_key(k) <==> (old(self)@.contains_key(k) && api_history_list@.contains_key(k)),
            forall|k: u128| #[trigger] final(self)@.contains_key(k) ==> final(self)@[k] == old(self)@[k],
            final(self).subpool().size() == old(self).subpool().size(),
            final(self).subpool().max_size_spec() == old(self).subpool().max_size_spec(),
            forall|h: TextureHandle|
                #[trigger] final(self).subpool()@.contains_key(h) <==> old(self).subpool()@.contains_key(h),
            forall|h: TextureHandle|
                #[trigger] final(self).subpool()@.contains_key(h) ==> (final(self).subpool()@[h] <==> (
                old(self).subpool()@[h] && !is_dropped_texture(old(self)@, api_history_list@, h))),
            plan.remake@.no_duplicates(),
            forall|k: u128, h: TextureHandle|
                plan.remake@.contains((k, h)) <==> (final(self)@.contains_key(k) && final(self)@[k] == h
                    && api_history_list@[k].just_updated),
            plan.add@.no_duplicates(),
            forall|k: u128|
                plan.add@.contains(k) <==> (api_history_list@.contains_key(k) && !final(self)@.contains_key(k)),
    {
        let _ = self.retain_for_list(api_history_list);
        let remake = self.keys_to_remake(api_history_list);
        let add = self.keys_to_add(api_history_list);
        TextureUpdatePlan { remake, add }
    }

    /// Asks the subpool for a texture slot for a key that has none: `None` (and nothing
    /// changes) where it has neither room nor an unused texture; otherwise as `request_slot`.
    pub fn try_request_slot(&mut self) -> (req: Option<SlotRequest>)
        requires
            old(self).wf(),
        ensures
            final(self).wf(),
            final(self).max_items_spec() == old(self).max_items_spec(),
            final(self)@ == old(self)@,
            final(self).subpool().max_size_spec() == old(self).subpool().max_size_spec(),
            final(self).subpool().size() == old(self).subpool().size(),
            req is None <==> !(old(self).subpool().size() < old(self).subpool().max_size_spec() || old(self).subpool().has_unused()),
            req is None ==> *final(self) == *old(self),
            match req {
                Some(r) => {
                    &&& old(self).subpool().size() < old(self).subpool().max_size_spec() ==> r == SlotRequest::MakeNew
                        && final(self).subpool()@ == old(self).subpool()@
                    &&& old(self).subpool().size() == old(self).subpool().max_size_spec() ==> match r {
                        SlotRequest::Reuse(h) => old(self).subpool()@.contains_key(h) && !old(self).subpool()@[h]
                            && final(self).subpool()@ == old(self).subpool()@.insert(h, true)
                            && forall|k: u128| #[trigger] final(self)@.contains_key(k) ==> final(self)@[k] != h,
                        SlotRequest::MakeNew => false,
                    }
                },
                None => true,
            },
    {
        if !self.get_subpool().can_request_slot() {
            return None;
        }
        Some(self.request_slot())
    }

    /// Binds `key` to `handle`, a texture that the subpool handed out for reuse and that the
    /// texture pool was asked to remake (with outcome `remade`). Fails, changing nothing, where
    /// the remake failed (with its error after a fixed lead-in) or where `key` and `handle` do
    /// not stand as `can_bind` says.
    pub fn accept_reused_texture(&mut self, key: u128, handle: TextureHandle, remade: Result<(), String>) -> (res: Result<(), String>)
        requires
            old(self).wf(),
        ensures
            final(self).wf(),
            final(self).max_items_spec() == old(self).max_items_spec(),
            res is Ok <==> (remade is Ok && can_bind(*old(self), key, handle)),
            res is Ok ==> final(self)@ == old(self)@.insert(key, handle) && final(self).subpool() == old(self).subpool(),
            res is Err ==> *final(self) == *old(self),
            match (remade, res) {
                (Err(e), Err(m)) => m@ == "Error when requesting a slot: "@ + e@,
                _ => true,
            },
    {
        match remade {
            Err(e) => {
                let mut message = String::from_str("Error when requesting a slot: ");
                crate::text::push_str(&mut message, e.as_str());
                Err(message)
            },
            Ok(()) => {
                let free_key = self.get_texture(key).is_none();
                let used = match self.get_subpool().get(handle) {
                    Some(u) => u,
                    None => false,
                };
                if free_key && used && !self.texture_is_bound(handle) {
                    self.bind(key, handle);
                    Ok(())
                } else {
                    Err(String::from_str("Error when requesting a slot: the texture is not free for this item"))
                }
            },
        }
    }

    /// Registers `made` (the outcome of making a new texture for `key`) with the subpool and
    /// binds `key` to it. Fails, changing nothing, where making it failed (with its error after
    /// a fixed lead-in), or where `key` and the texture do not stand as `can_add_made` says.
    pub fn accept_made_texture(&mut self, key: u128, made: Result<TextureHandle, String>) -> (res: Result<(), String>)
        requires
            old(self).wf(),
        ensures
            final(self).wf(),
            final(self).max_items_spec() == old(self).max_items_spec(),
            res is Ok <==> (match made {
                Ok(h) => can_add_made(*old(self), key, h),
                Err(_) => false,
            }),
            match (made, res) {
                (Ok(h), Ok(())) => final(self)@ == old(self)@.insert(key, h)
                    && final(self).subpool()@ == old(self).subpool()@.insert(h, true)
                    && final(self).subpool().size() == old(self).subpool().size() + 1,
                (Err(e), Err(m)) => m@ == "Error when requesting a slot: "@ + e@,
                _ => true,
            },
            res is Err ==> *final(self) == *old(self),
    {
        match made {
            Err(e) => {
                let mut message = String::from_str("Error when requesting a slot: ");
                crate::text::push_str(&mut message, e.as_str());
                Err(message)
            },
            Ok(handle) => {
                let free_key = self.get_texture(key).is_none();
                let room = self.get_subpool().has_room();
                let fresh = self.get_subpool().get(handle).is_none();
                if free_key && room && fresh {
                    self.add_new_slot_for(key, handle);
                    Ok(())
                } else {
                    Err(String::from_str("Error when requesting a slot: the texture cannot be added for this item"))
                }
            },
        }
    }
}

} // verus!
