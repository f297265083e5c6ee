use wbor_studio_dashboard::continual::{receive_update, settle_update, time_to_sleep, ContinuallyUpdatedState, ServerStatusChecker};
use wbor_studio_dashboard::error_state::ErrorState;
use wbor_studio_dashboard::surprise::{
    are_surprise_settings_valid, has_duplicate_paths, in_acceptable_hour_range, take_queued_surprise, SurpriseState,
};
use wbor_studio_dashboard::synced_map::SyncedMessageMap;
use wbor_studio_dashboard::texture_slots::TextureHandle;
use wbor_studio_dashboard::transitions::RemakeTransitionQueues;
use wbor_studio_dashboard::update_rate::{FrameCounter, UpdateRate, UpdateRateCreator};
use wbor_studio_dashboard::weather::{closest_interval_index, weather_code_info, weather_request_urls};
use wbor_studio_dashboard::screen_rect::{split_overflowing_scrolled_rect, ScreenRect};

const SEC: i64 = 1_000_000_000;

#[test]
fn weather_codes() {
    assert_eq!(weather_code_info(1000), Some(("clear", "☀️")));
    assert_eq!(weather_code_info(0), Some(("unknown", "❓")));
    assert_eq!(weather_code_info(8000), Some(("thunderstorm - beware!", "⛈️")));
    assert_eq!(weather_code_info(1), None);
}

#[test]
fn closest_weather_interval() {
    let now = 1_000 * SEC;
    let times = vec![now - 120 * SEC, now + 30 * SEC, now - 30 * SEC, now + 300 * SEC];
    assert_eq!(closest_interval_index(&times, now), Some(1));
    // Distances are whole seconds: these two are equally close, so the first one wins
    let near = vec![now + SEC / 2, now - SEC / 3];
    assert_eq!(closest_interval_index(&near, now), Some(0));
    assert_eq!(closest_interval_index(&Vec::new(), now), None);
}

#[test]
fn weather_urls() {
    let (proxy, fallback) = weather_request_urls("KEY", "43.9,-69.9");
    assert_eq!(proxy, "https://api-2.wbor.org/weather");
    assert_eq!(
        fallback,
        "https://api.tomorrow.io/v4/timelines?apikey=KEY&location=43.9,-69.9&timesteps=1m&units=imperial&fields=temperature,weatherCode"
    );
}

#[test]
fn surprise_hours() {
    assert!(in_acceptable_hour_range(8, 8, 22));
    assert!(in_acceptable_hour_range(22, 8, 22));
    assert!(!in_acceptable_hour_range(23, 8, 22));
    assert!(!in_acceptable_hour_range(7, 8, 22));
    assert!(are_surprise_settings_valid(1, 0, 23));
    assert!(!are_surprise_settings_valid(0, 0, 23));
    assert!(!are_surprise_settings_valid(u16::MAX, 0, 23));
    assert!(!are_surprise_settings_valid(3, 0, 24));
}

#[test]
fn surprise_duplicates_and_queue() {
    let paths: Vec<String> = vec!["a.png".into(), "b.png".into(), "a.png".into()];
    assert!(has_duplicate_paths(&paths));
    assert!(!has_duplicate_paths(&vec!["a.png".to_string(), "b.png".to_string()]));
    assert!(!has_duplicate_paths(&Vec::new()));
    let mut queue: Vec<String> = vec!["b.png".into(), "a.png".into(), "a.png".into()];
    assert!(take_queued_surprise(&mut queue, "a.png"));
    assert_eq!(queue, vec!["b.png".to_string(), "a.png".to_string()]);
    assert!(!take_queued_surprise(&mut queue, "c.png"));
    assert_eq!(queue.len(), 2);
}

#[test]
fn surprise_shows_for_its_steps() {
    let mut s = SurpriseState::new(3, false);
    assert_eq!(s.step(false, true), None);
    assert_eq!(s.step(true, true), Some(false));
    assert_eq!(s.curr_num_steps_when_appeared, Some(1));
    // Triggers do not restart a showing surprise
    assert_eq!(s.step(true, false), Some(false));
    assert_eq!(s.step(false, false), Some(false));
    assert_eq!(s.curr_num_steps_when_appeared, Some(3));
    assert_eq!(s.step(false, false), Some(true));
    assert_eq!(s.curr_num_steps_when_appeared, None);
    assert_eq!(s.step(false, true), None);
}

#[test]
fn flickering_surprise() {
    let mut s = SurpriseState::new(2, true);
    assert_eq!(s.step(true, true), Some(false));
    assert_eq!(s.step(false, false), Some(true));
    assert_eq!(s.step(false, true), Some(true));
    assert_eq!(s.curr_num_steps_when_appeared, None);
}

#[test]
fn transition_queues() {
    let h = TextureHandle::from_index(4);
    let mut queues: RemakeTransitionQueues<u32> = RemakeTransitionQueues::new(1);
    assert_eq!(queues.front(h), None);
    assert!(queues.queue_new(h, 10));
    assert!(queues.queue_new(h, 11));
    assert!(!queues.queue_new(h, 12));
    assert_eq!(queues.front(h), Some(&10));
    assert_eq!(queues.dequeue_current(h), Some(10));
    assert_eq!(queues.dequeue_current(h), Some(11));
    assert_eq!(queues.dequeue_current(h), None);
    assert_eq!(queues.dequeue_current(TextureHandle::from_index(5)), None);
}

/// A syncer for the tests: it records the values it expires, updates a value to ten times the
/// offshore one, and makes a new value the same way (failing on one chosen offshore value).
struct CountingSyncer {
    expired: Vec<u32>,
    updated: usize,
    fail_on: Option<u32>,
}

impl CountingSyncer {
    /// Runs the sync in its steps: expires the dropped values, updates or makes a value for each
    /// offshore entry in order (stopping at the first failure), then hands the results to `sync`.
    fn run(&mut self, local: &mut SyncedMessageMap<u32>, offshore: &SyncedMessageMap<u32>) -> Result<(), String> {
        for (_, value) in local.take_missing(offshore) {
            self.expired.push(value);
        }
        let mut results: Vec<(Option<u32>, Result<(), String>)> = Vec::new();
        let mut failed = false;
        for j in 0..offshore.len() {
            let (id, offshore_value) = offshore.entry_at(j);
            if failed {
                results.push((None, Ok(())));
                continue;
            }
            match local.take_value(id) {
                Some((_, _)) => {
                    self.updated += 1;
                    results.push((Some(*offshore_value * 10), Ok(())));
                },
                None => {
                    if Some(*offshore_value) == self.fail_on {
                        results.push((None, Err("cannot make".to_string())));
                        failed = true;
                    } else {
                        results.push((Some(*offshore_value * 10), Ok(())));
                    }
                },
            }
        }
        local.sync(offshore, results)
    }
}

#[test]
fn synced_map_follows_offshore() {
    let mut local: SyncedMessageMap<u32> = SyncedMessageMap::from(vec![("a".into(), 1), ("b".into(), 2)], 3);
    let offshore: SyncedMessageMap<u32> = SyncedMessageMap::from(vec![("b".into(), 5), ("c".into(), 6)], 3);
    let mut syncer = CountingSyncer { expired: Vec::new(), updated: 0, fail_on: None };
    assert!(syncer.run(&mut local, &offshore).is_ok());
    assert_eq!(syncer.expired, vec![1]);
    assert_eq!(syncer.updated, 1);
    assert!(!local.contains_key("a"));
    assert!(local.contains_key("b"));
    assert!(local.contains_key("c"));
    let mut failing = CountingSyncer { expired: Vec::new(), updated: 0, fail_on: Some(7) };
    let bigger: SyncedMessageMap<u32> = SyncedMessageMap::from(vec![("d".into(), 7)], 3);
    assert_eq!(failing.run(&mut local, &bigger), Err("cannot make".to_string()));
    assert_eq!(failing.expired.len(), 2);
    let empty: SyncedMessageMap<u32> = SyncedMessageMap::new(3);
    assert!(!empty.contains_key("a"));
}

#[test]
fn sync_stops_at_the_first_failure() {
    let mut local: SyncedMessageMap<u32> = SyncedMessageMap::new(3);
    let offshore: SyncedMessageMap<u32> =
        SyncedMessageMap::from(vec![("a".into(), 1), ("b".into(), 2), ("c".into(), 3)], 3);
    let results = vec![(Some(10), Ok(())), (Some(20), Err("update failed".to_string())), (Some(30), Ok(()))];
    assert_eq!(local.sync(&offshore, results), Err("update failed".to_string()));
    // The ids up to the failing one hold their values; the one after it was not reached
    assert_eq!(local.take_value("a"), Some(("a".to_string(), 10)));
    assert_eq!(local.take_value("b"), Some(("b".to_string(), 20)));
    assert_eq!(local.take_value("c"), None);
    assert_eq!(offshore.len(), 3);
    assert_eq!(offshore.entry_at(1), ("b", &2));
}

#[test]
fn continual_updates_roll_back_on_failure() {
    let mut data = 5;
    assert_eq!(settle_update(&mut data, 4, Err("boom".to_string())), Some("boom".to_string()));
    assert_eq!(data, 4);
    let mut kept = 9;
    assert_eq!(settle_update(&mut kept, 4, Ok(())), None);
    assert_eq!(kept, 9);
}

#[test]
fn continual_client_reports_and_clears_errors() {
    let mut errors = ErrorState::new();
    let mut data = 1;
    assert_eq!(receive_update(&mut data, "Weather", None, &mut errors), (ContinuallyUpdatedState::Pending, false));
    assert_eq!(receive_update(&mut data, "Weather", Some(Err("down".to_string())), &mut errors), (ContinuallyUpdatedState::Pending, true));
    assert_eq!(data, 1);
    assert_eq!(errors.make_message(), "Error encountered from 'Weather' (down).");
    assert_eq!(receive_update(&mut data, "Weather", Some(Ok(2)), &mut errors), (ContinuallyUpdatedState::GotNewData, true));
    assert_eq!(data, 2);
    assert!(errors.is_empty());
}

#[test]
fn sleep_between_updates() {
    assert_eq!(time_to_sleep(10 * SEC, 3 * SEC), Some(7 * SEC));
    assert_eq!(time_to_sleep(10 * SEC, 10 * SEC), Some(0));
    assert_eq!(time_to_sleep(10 * SEC, 11 * SEC), None);
}

#[test]
fn server_status_retries() {
    let checker = ServerStatusChecker::new("https://example.com", 3);
    assert_eq!(checker.url, "https://example.com");
    assert!(checker.should_retry(2));
    assert!(!checker.should_retry(3));
}

#[test]
fn update_rates() {
    let mut counter = FrameCounter::new();
    let every_third = UpdateRate::with_num_frames(3);
    assert!(every_third.is_time_to_update(counter));
    counter.tick();
    assert!(!every_third.is_time_to_update(counter));
    counter.tick();
    counter.tick();
    assert!(every_third.is_time_to_update(counter));
    assert!(UpdateRate::once_per_frame().is_time_to_update(counter));
    let mut wrapping = FrameCounter::new();
    for _ in 0..65536u32 {
        wrapping.tick();
    }
    assert!(UpdateRate::with_num_frames(7).is_time_to_update(wrapping));
    assert_eq!(UpdateRateCreator::new(60).get_fps(), 60);
}

#[test]
fn screen_rects_clamp() {
    let r = ScreenRect::new(-0x7fff_ffff, 5, 0, 0x7fff_ffff);
    assert_eq!(r, ScreenRect { x: -0x4000_0000, y: 5, width: 1, height: 0x3fff_ffff });
    assert_eq!(ScreenRect::new(10, 0, 90, 1).right(), 100);
}

#[test]
fn scrolled_rect_splits_when_spilling() {
    let dest = ScreenRect::new(10, 5, 100, 20);
    // Scrolled so that the texture still covers its whole place: nothing spills
    let src = ScreenRect::new(200, 0, 100, 20);
    assert_eq!(split_overflowing_scrolled_rect(src, dest, (300, 20)), (dest, None));
    // Scrolled 50 pixels further: the last 50 pixels of the place wrap around to the start
    let src = ScreenRect::new(250, 0, 100, 20);
    let (righthand, rest) = split_overflowing_scrolled_rect(src, dest, (300, 20));
    assert_eq!(righthand, ScreenRect::new(10, 5, 50, 20));
    let (clip, lefthand) = rest.unwrap();
    assert_eq!(clip, ScreenRect::new(0, 0, 50, 20));
    assert_eq!(lefthand, ScreenRect::new(60, 5, 50, 20));
}

#[test]
fn synced_map_holds_the_syncers_values() {
    let mut local: SyncedMessageMap<u32> = SyncedMessageMap::from(vec![("a".into(), 1), ("b".into(), 2)], 3);
    let offshore: SyncedMessageMap<u32> = SyncedMessageMap::from(vec![("b".into(), 5), ("c".into(), 6)], 3);
    let mut syncer = CountingSyncer { expired: Vec::new(), updated: 0, fail_on: None };
    assert!(syncer.run(&mut local, &offshore).is_ok());
    assert_eq!(local.take_value("b"), Some(("b".to_string(), 50)));
    assert_eq!(local.take_value("c"), Some(("c".to_string(), 60)));
    assert_eq!(local.take_value("a"), None);
}

#[test]
fn synced_map_steps() {
    let mut local: SyncedMessageMap<u32> =
        SyncedMessageMap::from(vec![("a".into(), 1), ("b".into(), 2), ("c".into(), 3)], 3);
    let offshore: SyncedMessageMap<u32> = SyncedMessageMap::from(vec![("b".into(), 0)], 3);
    let dropped = local.take_missing(&offshore);
    assert_eq!(dropped, vec![("a".to_string(), 1), ("c".to_string(), 3)]);
    assert!(local.contains_key("b"));
    assert!(!local.contains_key("a"));
    local.set_value("b".to_string(), 20);
    local.set_value("d".to_string(), 4);
    assert_eq!(local.take_value("b"), Some(("b".to_string(), 20)));
    assert_eq!(local.take_value("d"), Some(("d".to_string(), 4)));
    assert!(!local.contains_key("b"));
}

#[test]
fn synced_map_with_empty_offshore_only_drops() {
    let mut local: SyncedMessageMap<u32> = SyncedMessageMap::from(vec![("a".into(), 1)], 3);
    let empty: SyncedMessageMap<u32> = SyncedMessageMap::new(3);
    let mut syncer = CountingSyncer { expired: Vec::new(), updated: 0, fail_on: Some(0) };
    assert_eq!(syncer.run(&mut local, &empty), Ok(()));
    assert_eq!(syncer.expired, vec![1]);
    assert!(!local.contains_key("a"));
}
