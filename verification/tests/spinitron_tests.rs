use wbor_studio_dashboard::spinitron::{
    api_endpoint_from_typename, category_emojis, choose_persona_or_show_texture, choose_spin_texture,
    image_url_of, make_correct_texture_size_from_window_size, parse_maybe_spinitron_timestamp,
    refresh_model_cache, should_refresh_show, spin_history_plan, spinitron_base_urls, spinitron_request_params, texture_hash_source, ApiKey,
    ModelAgeData, ModelAgeState, ModelDataCacheEntry, ModelTextureCreationInfo, Persona, Playlist, Show,
    Spin, SpinHistoryItemTextureSize, SpinitronModel, SpinitronModelName, SpinitronModelWithProps,
};

const SEC: i64 = 1_000_000_000;

fn spin(image: Option<&str>) -> Spin {
    Spin {
        id: 7,
        start: 0,
        end: Some(180 * SEC),
        artist: "Artist".to_string(),
        song: "Song".to_string(),
        release: "Album".to_string(),
        image: image.map(|s| s.to_string()),
    }
}

fn playlist(category: Option<&str>, automation: Option<u32>, image: Option<&str>) -> Playlist {
    Playlist {
        id: 3,
        persona_id: 4,
        start: 0,
        end: 3600 * SEC,
        title: "Night Show".to_string(),
        image: image.map(|s| s.to_string()),
        category: category.map(|s| s.to_string()),
        automation,
    }
}

fn persona(image: Option<&str>) -> Persona {
    Persona {
        id: 4,
        name: "DJ Polar".to_string(),
        image: image.map(|s| s.to_string()),
        start_from_associated_playlist: 0,
        end_from_associated_playlist: 3600 * SEC,
    }
}

fn is_url(info: &ModelTextureCreationInfo, expected: &str) -> bool {
    matches!(info, ModelTextureCreationInfo::Url(u) if u == expected)
}

fn is_path(info: &ModelTextureCreationInfo, expected: &str) -> bool {
    matches!(info, ModelTextureCreationInfo::Path(p) if p == expected)
}

#[test]
fn api_key_is_trimmed() {
    let key = ApiKey::new("  abc123\n");
    assert_eq!(key.get_inner_key(), "abc123");
}

#[test]
fn spin_texts() {
    let s = spin(None);
    assert_eq!(s.to_string(ModelAgeState::BeforeIt), "Are you a time traveler or something???");
    assert_eq!(s.to_string(ModelAgeState::CurrentlyActive), "Song (from Album), by Artist");
    assert_eq!(s.to_string(ModelAgeState::AfterIt), "Song (from Album), by Artist");
    assert_eq!(s.to_string(ModelAgeState::AfterItFromCustomExpiryDuration), "No 😰 recent 😬 spins 😟❗");
    assert_eq!(s.get_id(), 7);
    assert_eq!(s.get_time_range(), (0, Some(180 * SEC)));
    assert_eq!(s.get_start_time(), 0);
}

#[test]
fn playlist_texts() {
    let rock = playlist(Some("Rock"), Some(0), None);
    assert_eq!(rock.to_string(ModelAgeState::CurrentlyActive), "🎸 This is 'Night Show' 🎸");
    let unknown = playlist(Some("Polka"), None, None);
    assert_eq!(unknown.to_string(ModelAgeState::CurrentlyActive), "This is 'Night Show'");
    let none = playlist(None, None, None);
    assert_eq!(none.to_string(ModelAgeState::CurrentlyActive), "This is 'Night Show'");
    assert_eq!(none.to_string(ModelAgeState::BeforeIt), "How are you before a playlist that hasn't even started yet?");
    assert_eq!(none.to_string(ModelAgeState::AfterIt), "Make a playlist, if you're there!");
    assert_eq!(
        playlist(None, Some(1), None).to_string(ModelAgeState::AfterItFromCustomExpiryDuration),
        "This automation playlist is coming to an end..."
    );
    assert_eq!(
        playlist(None, Some(0), None).to_string(ModelAgeState::AfterItFromCustomExpiryDuration),
        "Pack up, and log out of Spinitron! The next show is starting soon."
    );
    assert_eq!(none.get_time_range(), (0, Some(3600 * SEC)));
}

#[test]
fn category_emoji_table() {
    assert_eq!(category_emojis("Rock"), Some("🎸"));
    assert_eq!(category_emojis("Classical"), Some("🎼🎻"));
    assert_eq!(category_emojis("Regional"), Some("🗺️"));
    assert_eq!(category_emojis("rock"), None);
    assert_eq!(category_emojis(""), None);
}

#[test]
fn persona_and_show_texts() {
    let p = persona(None);
    assert_eq!(p.to_string(ModelAgeState::CurrentlyActive), "Welcome, DJ Polar!");
    assert_eq!(p.to_string(ModelAgeState::AfterItFromCustomExpiryDuration), "No one is expected in the studio right now...");
    let show = Show { id: 9, start: 0, end: 10 };
    assert_eq!(show.to_string(ModelAgeState::CurrentlyActive), "");
    assert_eq!(show.get_time_range(), (0, Some(10)));
    assert!(matches!(show.get_texture_creation_info(ModelAgeState::CurrentlyActive, (1, 1)), ModelTextureCreationInfo::Nothing));
}

#[test]
fn model_names() {
    assert_eq!(Spin::model_name(), SpinitronModelName::Spin);
    assert_eq!(Playlist::model_name(), SpinitronModelName::Playlist);
    assert_eq!(Persona::model_name(), SpinitronModelName::Persona);
    assert_eq!(Show::model_name(), SpinitronModelName::Show);
    assert_eq!(SpinitronModelName::Show.index(), 3);
}

fn age_state_at(custom: i64, now: i64) -> ModelAgeState {
    let mut data = ModelAgeData::new(custom);
    data.update_at((0, Some(100 * SEC)), now);
    data.curr_age_state
}

#[test]
fn age_states_with_later_custom_end() {
    let custom = 10 * SEC;
    assert_eq!(age_state_at(custom, -SEC), ModelAgeState::BeforeIt);
    assert_eq!(age_state_at(custom, 0), ModelAgeState::BeforeIt);
    assert_eq!(age_state_at(custom, 50 * SEC), ModelAgeState::CurrentlyActive);
    assert_eq!(age_state_at(custom, 100 * SEC), ModelAgeState::CurrentlyActive);
    assert_eq!(age_state_at(custom, 105 * SEC), ModelAgeState::AfterIt);
    assert_eq!(age_state_at(custom, 110 * SEC), ModelAgeState::AfterIt);
    assert_eq!(age_state_at(custom, 120 * SEC), ModelAgeState::AfterItFromCustomExpiryDuration);
}

#[test]
fn age_states_with_earlier_custom_end() {
    let custom = -10 * SEC;
    assert_eq!(age_state_at(custom, 80 * SEC), ModelAgeState::CurrentlyActive);
    assert_eq!(age_state_at(custom, 95 * SEC), ModelAgeState::AfterItFromCustomExpiryDuration);
    // Once the real end has passed, it takes priority
    assert_eq!(age_state_at(custom, 105 * SEC), ModelAgeState::AfterIt);
}

#[test]
fn age_state_changes_are_recorded() {
    let mut data = ModelAgeData::new(0);
    data.update_at((0, Some(100 * SEC)), 50 * SEC);
    assert!(!data.just_updated_state);
    data.update_at((0, Some(100 * SEC)), 150 * SEC);
    assert!(data.just_updated_state);
    assert_eq!(data.curr_age_state, ModelAgeState::AfterItFromCustomExpiryDuration);
    data.update_at((0, None), 150 * SEC);
    assert!(!data.just_updated_state);
    assert_eq!(data.curr_age_state, ModelAgeState::AfterItFromCustomExpiryDuration);
}

#[test]
fn age_data_update_at_the_current_time() {
    let mut data = ModelAgeData::new(0);
    // A spin that ended long ago
    data.update(&spin(None));
    assert_eq!(data.curr_age_state, ModelAgeState::AfterItFromCustomExpiryDuration);
    assert!(data.just_updated_state);
}

const SPIN_IMAGE: &str = "https://is1-ssl.mzstatic.com/image/thumb/Music/600x600bb.jpg";

#[test]
fn spin_textures() {
    let s = spin(Some(SPIN_IMAGE));
    let resized = s.get_texture_creation_info(ModelAgeState::CurrentlyActive, (300, 250));
    assert!(is_url(&resized, "https://is1-ssl.mzstatic.com/image/thumb/Music/300x250bb.jpg"));
    let other = spin(Some("https://example.com/cover.png")).get_texture_creation_info(ModelAgeState::AfterIt, (300, 300));
    assert!(is_url(&other, "https://example.com/cover.png"));
    let none = spin(Some("")).get_texture_creation_info(ModelAgeState::CurrentlyActive, (300, 300));
    assert!(matches!(none, ModelTextureCreationInfo::Nothing));
    let logo = s.get_texture_creation_info(ModelAgeState::AfterItFromCustomExpiryDuration, (300, 300));
    assert!(is_path(&logo, "assets/polar_headphones_logo.png"));
}

#[test]
fn spin_texture_choice_from_match_results() {
    let image = Some(SPIN_IMAGE.to_string());
    let chosen = choose_spin_texture(ModelAgeState::CurrentlyActive, &image, Some(true), Some("resized".to_string()));
    assert!(is_url(&chosen, "resized"));
    let unmatched = choose_spin_texture(ModelAgeState::CurrentlyActive, &image, Some(false), None);
    assert!(is_url(&unmatched, SPIN_IMAGE));
    assert!(matches!(choose_spin_texture(ModelAgeState::BeforeIt, &None, None, None), ModelTextureCreationInfo::Nothing));
}

const DEFAULT_IMAGE: &str = "https://farm2.staticflickr.com/1234/default.jpg";

#[test]
fn persona_and_playlist_textures() {
    let default = persona(Some(DEFAULT_IMAGE)).get_texture_creation_info(ModelAgeState::CurrentlyActive, (1, 1));
    assert!(is_path(&default, "assets/no_persona_image.png"));
    let own = persona(Some("https://example.com/dj.jpg")).get_texture_creation_info(ModelAgeState::CurrentlyActive, (1, 1));
    assert!(is_url(&own, "https://example.com/dj.jpg"));
    let missing = persona(None).get_texture_creation_info(ModelAgeState::AfterIt, (1, 1));
    assert!(is_path(&missing, "assets/no_persona_image.png"));
    let nobody = persona(None).get_texture_creation_info(ModelAgeState::AfterItFromCustomExpiryDuration, (1, 1));
    assert!(is_path(&nobody, "assets/no_person_in_studio.jpg"));

    let auto = playlist(None, Some(1), Some("https://example.com/a.jpg"));
    assert!(is_path(&auto.get_texture_creation_info(ModelAgeState::CurrentlyActive, (1, 1)), "assets/automation_playlist.png"));
    assert!(is_path(&auto.get_texture_creation_info(ModelAgeState::BeforeIt, (1, 1)), "assets/before_show_image.jpg"));
    assert!(is_path(&auto.get_texture_creation_info(ModelAgeState::AfterIt, (1, 1)), "assets/after_show_image.jpg"));
    let show_image = playlist(None, None, Some(DEFAULT_IMAGE));
    assert!(is_path(&show_image.get_texture_creation_info(ModelAgeState::CurrentlyActive, (1, 1)), "assets/no_show_image.png"));

    let chosen = choose_persona_or_show_texture(&Some("u".to_string()), Some(false), "fallback");
    assert!(is_url(&chosen, "u"));
    assert!(is_path(&choose_persona_or_show_texture(&Some("u".to_string()), Some(true), "fallback"), "fallback"));
    assert_eq!(image_url_of(&Some(String::new())), None);
    assert_eq!(image_url_of(&Some("x".to_string())), Some("x"));
}

#[test]
fn hash_source_drops_the_host() {
    let info = ModelTextureCreationInfo::Url("https://is3-ssl.mzstatic.com/image/x.jpg".to_string());
    assert!(is_url(&texture_hash_source(&info), "/image/x.jpg"));
    let no_com = ModelTextureCreationInfo::Url("https://example.org/x.jpg".to_string());
    assert!(is_url(&texture_hash_source(&no_com), "https://example.org/x.jpg"));
    let path = ModelTextureCreationInfo::Path("assets/a.png".to_string());
    assert!(is_path(&texture_hash_source(&path), "assets/a.png"));
}

#[test]
fn cache_entry_tracks_changes() {
    let mut entry = ModelDataCacheEntry::new();
    let s = spin(Some(SPIN_IMAGE));
    let (info, changed) = entry.update(ModelAgeState::CurrentlyActive, &s, (300, 300)).unwrap();
    assert!(changed);
    assert!(entry.string_changed);
    assert_eq!(entry.string, "Song (from Album), by Artist");
    assert!(is_url(&info, "https://is1-ssl.mzstatic.com/image/thumb/Music/300x300bb.jpg"));
    // Only the host differs: same texture
    let moved = spin(Some("https://is5-ssl.mzstatic.com/image/thumb/Music/600x600bb.jpg"));
    let (_, changed_again) = entry.update(ModelAgeState::CurrentlyActive, &moved, (300, 300)).unwrap();
    assert!(!changed_again);
    assert!(!entry.string_changed);
    entry.invalidate();
    assert!(!entry.texture_creation_info_hash_changed);
    // A spin image without `.com`
    let odd = spin(Some("https://example.org/600x600bb.jpg"));
    assert!(entry.update(ModelAgeState::CurrentlyActive, &odd, (300, 300)).is_none());
}

#[test]
fn cache_entry_update_with() {
    let mut entry = ModelDataCacheEntry::new();
    entry.update_with("a".to_string(), 5);
    assert!(entry.texture_creation_info_hash_changed && entry.string_changed);
    entry.update_with("a".to_string(), 5);
    assert!(!entry.texture_creation_info_hash_changed && !entry.string_changed);
    entry.update_with("b".to_string(), 5);
    assert!(!entry.texture_creation_info_hash_changed && entry.string_changed);
    assert_eq!(entry.string, "b");
}

#[test]
fn endpoints_from_type_names() {
    assert_eq!(api_endpoint_from_typename("wbor_studio_dashboard::spinitron::model::Spin").as_deref(), Some("spins"));
    assert_eq!(api_endpoint_from_typename("a::Playlist").as_deref(), Some("playlists"));
    assert_eq!(api_endpoint_from_typename("a::Persona").as_deref(), Some("personas"));
    assert_eq!(api_endpoint_from_typename("a::Show").as_deref(), Some("shows"));
    assert_eq!(api_endpoint_from_typename("a::Song"), None);
    assert_eq!(api_endpoint_from_typename("Spin"), None);
    assert_eq!(api_endpoint_from_typename("a::"), None);
}

#[test]
fn request_params() {
    let (path, query) = spinitron_request_params("spins", "KEY", "id,start", Some(42), Some(6));
    assert_eq!(path, vec!["spins".to_string(), "42".to_string()]);
    assert_eq!(
        query,
        vec![
            ("access-token".to_string(), "KEY".to_string()),
            ("fields".to_string(), "id,start".to_string()),
            ("count".to_string(), "6".to_string()),
        ]
    );
    let (path, query) = spinitron_request_params("shows", "KEY", "id", None, None);
    assert_eq!(path, vec!["shows".to_string()]);
    assert_eq!(query.len(), 2);
    assert_eq!(spinitron_base_urls(), ("https://api-1.wbor.org/api", "https://spinitron.com/api"));
}

#[test]
fn spinitron_end_times() {
    assert_eq!(parse_maybe_spinitron_timestamp(Some("2024-03-05T14:30:00+0000")), Ok(Some(1_709_649_000 * SEC)));
    assert_eq!(parse_maybe_spinitron_timestamp(Some("2024-03-05T09:30:00-0500")), Ok(Some(1_709_649_000 * SEC)));
    assert_eq!(parse_maybe_spinitron_timestamp(Some("")), Ok(None));
    assert_eq!(parse_maybe_spinitron_timestamp(None), Ok(None));
    assert_eq!(parse_maybe_spinitron_timestamp(Some("not a time00")), Err(()));
}

#[test]
fn show_refresh_times() {
    assert!(should_refresh_show(0, 5));
    assert!(should_refresh_show(30, 5));
    assert!(should_refresh_show(17, 0));
    assert!(!should_refresh_show(17, 5));
}

#[test]
fn texture_sizes() {
    assert_eq!(make_correct_texture_size_from_window_size((300, 200)), (200, 200));
    assert_eq!(make_correct_texture_size_from_window_size((100, 400)), (100, 100));
    let mut size = SpinHistoryItemTextureSize::new((10, 10));
    assert!(!size.just_found_true_size);
    size.update((10, 10));
    assert!(!size.just_found_true_size);
    size.update((20, 10));
    assert!(size.just_found_true_size);
    assert_eq!(size.size, (20, 10));
}

#[test]
fn spin_history_plan_keeps_remakes_and_adds() {
    let mut list: wbor_studio_dashboard::api_history_list::ApiHistoryList<u32, ()> =
        wbor_studio_dashboard::api_history_list::ApiHistoryList::new(4);
    list.insert_new(5, 0, 50, ());
    list.insert_new(6, 1, 60, ());
    let keys = vec![7u128, 6, 8];
    let plan = spin_history_plan(&mut list, &keys, false);
    assert!(plan.remake.is_empty());
    assert_eq!(plan.add, vec![0, 2]);
    assert!(!list.contains_key(5));
    assert_eq!(list.get(6).unwrap().index, 1);

    let plan = spin_history_plan(&mut list, &keys, true);
    assert_eq!(plan.remake, vec![6]);
    assert_eq!(plan.add, vec![0, 2]);
}

#[test]
fn model_cache_refreshes_only_on_a_change() {
    let mut cache = ModelDataCacheEntry::new();
    let age = ModelAgeData::new(0);
    let s = spin(Some(SPIN_IMAGE));
    // Neither the id nor the age state changed: nothing is refreshed or fetched
    assert!(matches!(refresh_model_cache(&mut cache, &age, &s, false, (300, 300)), Some(None)));
    assert_eq!(cache.string, "");
    // A new id: the cache is refreshed and the new texture is to be fetched
    match refresh_model_cache(&mut cache, &age, &s, true, (300, 300)) {
        Some(Some(info)) => assert!(is_url(&info, "https://is1-ssl.mzstatic.com/image/thumb/Music/300x300bb.jpg")),
        _ => panic!("the texture should be fetched"),
    }
    assert_eq!(cache.string, "Song (from Album), by Artist");
    // The same texture again: nothing to fetch
    assert!(matches!(refresh_model_cache(&mut cache, &age, &s, true, (300, 300)), Some(None)));
    // A spin image without `.com`
    let odd = spin(Some("https://example.org/600x600bb.jpg"));
    assert!(refresh_model_cache(&mut cache, &age, &odd, true, (300, 300)).is_none());
}
