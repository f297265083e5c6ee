use wbor_studio_dashboard::api_history_list::{first_position, ApiHistoryList};
use wbor_studio_dashboard::texture_slots::{ApiHistoryListTextureManager, SlotRequest, TextureHandle, TextureSubpoolManager};

#[test]
fn subpool_fills_then_reuses_unused_slots() {
    let h0 = TextureHandle::from_index(0);
    let h1 = TextureHandle::from_index(1);
    let mut pool = TextureSubpoolManager::new(2);
    assert!(pool.can_request_slot());
    assert_eq!(pool.request_slot(), SlotRequest::MakeNew);
    pool.add_new_slot(h0);
    assert_eq!(pool.request_slot(), SlotRequest::MakeNew);
    pool.add_new_slot(h1);
    assert!(!pool.can_request_slot());
    pool.give_back_slot(h0);
    assert_eq!(pool.get(h0), Some(false));
    assert!(pool.can_request_slot());
    assert_eq!(pool.request_slot(), SlotRequest::Reuse(h0));
    assert_eq!(pool.get(h0), Some(true));
    assert_eq!(pool.get(TextureHandle::from_index(9)), None);
    assert_eq!(h1.index(), 1);
}

#[test]
fn history_list_steps() {
    let mut list: ApiHistoryList<&str, ()> = ApiHistoryList::new(3);
    list.insert_new(10, 0, "first", ());
    list.insert_new(20, 1, "second", ());
    assert_eq!(list.len(), 2);
    assert_eq!(list.get_max_items(), 3);
    // The API now lists 30, 20, 20: 10 is gone, 20 moves to position 1
    let keys = vec![30u128, 20, 20];
    list.retain_present_keys(&keys);
    assert!(!list.contains_key(10));
    assert_eq!(list.get(20).unwrap().index, 1);
    assert_eq!(list.missing_key_positions(&keys), vec![0]);
    list.insert_new(30, 0, "third", ());
    assert_eq!(list.entry_at_index(0).unwrap().key, 30);
    assert!(list.entry_at_index(2).is_none());
    assert_eq!(first_position(&keys, 20), Some(1));
    assert_eq!(first_position(&keys, 99), None);
    list.set_item(30, "changed", true);
    assert_eq!(list.get(30).unwrap().item, "changed");
    assert!(list.get(30).unwrap().just_updated);
    let removed = list.remove(30);
    assert_eq!(removed.item, "changed");
    assert!(!list.contains_key(30));
}

#[test]
fn texture_manager_follows_list() {
    let mut list: ApiHistoryList<u32, ()> = ApiHistoryList::new(2);
    list.insert_new(5, 0, 50, ());
    let mut manager = ApiHistoryListTextureManager::new(2);
    assert_eq!(manager.keys_to_add(&list), vec![5]);
    assert_eq!(manager.request_slot(), SlotRequest::MakeNew);
    let h = TextureHandle::from_index(3);
    manager.add_new_slot_for(5, h);
    assert_eq!(manager.get_texture(5), Some(h));
    assert_eq!(manager.get_texture_at_index(0, &list), Some(h));
    assert!(manager.keys_to_add(&list).is_empty());
    list.set_item(5, 51, true);
    assert_eq!(manager.textures_to_remake(&list), vec![h]);
    list.retain_present_keys(&vec![]);
    assert_eq!(manager.keys_to_drop(&list), vec![5]);
    let remade = manager.retain_for_list(&list);
    assert!(remade.is_empty());
    assert_eq!(manager.get_texture(5), None);
    assert_eq!(manager.get_subpool().get(h), Some(false));
    // The freed texture is reused for the next item
    list.insert_new(6, 0, 60, ());
    list.insert_new(7, 1, 70, ());
    assert_eq!(manager.request_slot(), SlotRequest::MakeNew);
    manager.add_new_slot_for(6, TextureHandle::from_index(4));
    match manager.request_slot() {
        SlotRequest::Reuse(reused) => {
            assert_eq!(reused, h);
            manager.bind(7, reused);
        },
        SlotRequest::MakeNew => panic!("the subpool is full"),
    }
    assert_eq!(manager.get_texture_at_index(1, &list), Some(h));
}

/// Makes textures by counting: each new texture gets the next index.
struct CountingMaker {
    next: u16,
    made: Vec<u128>,
    remade: Vec<(u16, u128)>,
    fail_new: bool,
}

impl CountingMaker {
    fn make_texture(&mut self, entry: &wbor_studio_dashboard::api_history_list::ApiHistoryEntry<u32, ()>) -> Result<TextureHandle, String> {
        if self.fail_new {
            return Err("no more textures".to_string());
        }
        let handle = TextureHandle::from_index(self.next);
        self.next += 1;
        self.made.push(entry.key);
        Ok(handle)
    }

    fn remake_texture(&mut self, handle: TextureHandle, entry: &wbor_studio_dashboard::api_history_list::ApiHistoryEntry<u32, ()>) -> Result<(), String> {
        self.remade.push((handle.index(), entry.key));
        Ok(())
    }

    /// Carries out a texture update: brings the manager in step, remakes what it asks to be
    /// remade, and gets a texture for each new key. Returns the errors met.
    fn update(&mut self, manager: &mut ApiHistoryListTextureManager, list: &ApiHistoryList<u32, ()>) -> Vec<String> {
        let plan = manager.update_from_history_list(list);
        let mut errors = Vec::new();
        for (key, handle) in plan.remake {
            if let Err(err) = self.remake_texture(handle, list.get(key).unwrap()) {
                errors.push(format!("Error when re-requesting a slot: {err}"));
            }
        }
        for key in plan.add {
            let entry = list.get(key).unwrap();
            let result = match manager.try_request_slot() {
                None => Err("Error when requesting a slot: no textures available in the subpool".to_string()),
                Some(SlotRequest::Reuse(handle)) => {
                    let remade = self.remake_texture(handle, entry);
                    manager.accept_reused_texture(key, handle, remade)
                },
                Some(SlotRequest::MakeNew) => {
                    let made = self.make_texture(entry);
                    manager.accept_made_texture(key, made)
                },
            };
            if let Err(err) = result {
                errors.push(err);
            }
        }
        errors
    }
}

#[test]
fn texture_manager_update_from_list() {
    let mut list: ApiHistoryList<u32, ()> = ApiHistoryList::new(2);
    list.insert_new(1, 0, 10, ());
    list.insert_new(2, 1, 20, ());
    let mut manager = ApiHistoryListTextureManager::new(2);
    let mut maker = CountingMaker { next: 0, made: vec![], remade: vec![], fail_new: false };

    let errors = maker.update(&mut manager, &list);
    assert!(errors.is_empty());
    assert_eq!(maker.made.len(), 2);
    assert!(manager.get_texture(1).is_some());
    assert!(manager.get_texture(2).is_some());

    // Item 1 leaves, item 3 comes: item 3 reuses the texture that item 1 gave back
    let texture_of_1 = manager.get_texture(1).unwrap();
    list.retain_present_keys(&vec![3, 2]);
    list.insert_new(3, 0, 30, ());
    maker.fail_new = true;
    let errors = maker.update(&mut manager, &list);
    assert!(errors.is_empty());
    assert_eq!(manager.get_texture(1), None);
    assert_eq!(manager.get_texture(3), Some(texture_of_1));
    assert_eq!(maker.remade, vec![(texture_of_1.index(), 3)]);

    // An updated item gets its texture remade in place
    list.set_item(2, 21, true);
    let texture_of_2 = manager.get_texture(2).unwrap();
    let errors = maker.update(&mut manager, &list);
    assert!(errors.is_empty());
    assert_eq!(manager.get_texture(2), Some(texture_of_2));
    assert_eq!(maker.remade.last(), Some(&(texture_of_2.index(), 2)));
}

#[test]
fn texture_manager_reports_failed_textures() {
    let mut list: ApiHistoryList<u32, ()> = ApiHistoryList::new(1);
    list.insert_new(4, 0, 40, ());
    let mut manager = ApiHistoryListTextureManager::new(1);
    let mut maker = CountingMaker { next: 0, made: vec![], remade: vec![], fail_new: true };
    let errors = maker.update(&mut manager, &list);
    assert_eq!(errors.len(), 1);
    assert!(errors[0].contains("no more textures"));
    assert_eq!(manager.get_texture(4), None);
}

#[test]
fn history_update_holds_exactly_present_keys() {
    let mut list: ApiHistoryList<u32, ()> = ApiHistoryList::new(4);
    list.insert_new(1, 0, 10, ());
    list.insert_new(2, 1, 20, ());
    list.insert_new(3, 2, 30, ());
    // The API now returns 4, 2, 5, 2: 1 and 3 are gone, 4 and 5 are new
    let keys = vec![4u128, 2, 5, 2];
    list.retain_present_keys(&keys);
    let missing = list.missing_key_positions(&keys);
    assert_eq!(missing, vec![0, 2]);
    for position in missing {
        list.insert_new(keys[position], position, keys[position] as u32 * 10, ());
    }
    let mut held = list.keys();
    held.sort();
    assert_eq!(held, vec![2, 4, 5]);
    assert_eq!(list.get(4).unwrap().index, 0);
    assert_eq!(list.get(2).unwrap().index, 1);
    assert_eq!(list.get(5).unwrap().index, 2);
}

#[test]
fn texture_manager_gives_back_dropped_textures() {
    let mut list: ApiHistoryList<u32, ()> = ApiHistoryList::new(2);
    list.insert_new(1, 0, 10, ());
    list.insert_new(2, 1, 20, ());
    let mut manager = ApiHistoryListTextureManager::new(2);
    let mut maker = CountingMaker { next: 0, made: vec![], remade: vec![], fail_new: false };
    assert!(maker.update(&mut manager, &list).is_empty());
    let texture_of_1 = manager.get_texture(1).unwrap();
    list.retain_present_keys(&vec![2]);
    // Nothing to make or remake: no errors, and the dropped texture is unused again
    assert!(maker.update(&mut manager, &list).is_empty());
    assert_eq!(manager.get_subpool().get(texture_of_1), Some(false));
    assert_eq!(manager.get_texture(1), None);
    assert_eq!(maker.made.len(), 2);
    assert!(maker.remade.is_empty());
}

#[test]
fn texture_plan_names_exactly_the_updated_items() {
    let mut list: ApiHistoryList<u32, ()> = ApiHistoryList::new(3);
    list.insert_new(1, 0, 10, ());
    list.insert_new(2, 1, 20, ());
    let mut manager = ApiHistoryListTextureManager::new(3);
    let mut maker = CountingMaker { next: 0, made: vec![], remade: vec![], fail_new: false };
    assert!(maker.update(&mut manager, &list).is_empty());
    let texture_of_2 = manager.get_texture(2).unwrap();
    list.set_item(2, 21, true);
    list.insert_new(3, 2, 30, ());
    let plan = manager.update_from_history_list(&list);
    assert_eq!(plan.remake, vec![(2, texture_of_2)]);
    assert_eq!(plan.add, vec![3]);
}

#[test]
fn accepting_textures_checks_the_slot() {
    let mut manager = ApiHistoryListTextureManager::new(1);
    let h = TextureHandle::from_index(9);
    assert_eq!(manager.accept_made_texture(1, Err("boom".to_string())), Err("Error when requesting a slot: boom".to_string()));
    assert_eq!(manager.accept_made_texture(1, Ok(h)), Ok(()));
    assert_eq!(manager.get_texture(1), Some(h));
    // The subpool is full now, and the texture is taken
    assert!(manager.accept_made_texture(2, Ok(TextureHandle::from_index(8))).is_err());
    assert!(manager.accept_reused_texture(2, h, Ok(())).is_err());
    assert_eq!(manager.try_request_slot(), None);
}
