use wbor_studio_dashboard::api_history_list::ApiHistoryList;
use wbor_studio_dashboard::twilio::{
    can_format_phone_number, can_parse_sid, create_new_local, format_phone_number, get_message_age_data,
    is_expired, make_message_display_text, make_plain_message_display_text, make_request_auth,
    message_order, messages_query_params, messages_to_title, parse_sid, same_age,
    twilio_endpoint_url, update_local, update_message_history, AgeUnit, IncomingMessageInfo,
    MessageAge, MessageHistoryParam, MessageInfo, TwilioConfig,
};

const SEC: i64 = 1_000_000_000;

fn age(unit: AgeUnit, amount: i64) -> Option<MessageAge> {
    Some(MessageAge { unit, amount })
}

#[test]
fn message_ages() {
    let now = 1_000_000 * SEC;
    assert_eq!(get_message_age_data(now, now), None);
    assert_eq!(get_message_age_data(now, now - SEC / 2), None);
    assert_eq!(get_message_age_data(now, now - 5 * SEC), age(AgeUnit::Sec, 5));
    assert_eq!(get_message_age_data(now, now - 60 * SEC + 1), age(AgeUnit::Sec, 59));
    assert_eq!(get_message_age_data(now, now - 60 * SEC), age(AgeUnit::Min, 1));
    assert_eq!(get_message_age_data(now, now - 3600 * SEC), age(AgeUnit::Hour, 1));
    assert_eq!(get_message_age_data(now, now - 2 * 86400 * SEC), age(AgeUnit::Day, 2));
    assert_eq!(get_message_age_data(now, now - 8 * 86400 * SEC), age(AgeUnit::Week, 1));
    assert_eq!(get_message_age_data(now, now - 13 * 86400 * SEC), age(AgeUnit::Week, 1));
    assert_eq!(get_message_age_data(now, now - 14 * 86400 * SEC), age(AgeUnit::Week, 2));
    // A message from the future has no age
    assert_eq!(get_message_age_data(now, now + 10 * SEC), None);
}

#[test]
fn extreme_times_do_not_overflow() {
    let age_data = get_message_age_data(i64::MAX, i64::MIN).unwrap();
    assert_eq!(age_data.unit, AgeUnit::Week);
    assert_eq!(get_message_age_data(i64::MIN, i64::MAX), None);
}

#[test]
fn same_age_compares_values() {
    assert!(same_age(None, None));
    assert!(same_age(age(AgeUnit::Min, 2), age(AgeUnit::Min, 2)));
    assert!(!same_age(age(AgeUnit::Min, 2), age(AgeUnit::Min, 3)));
    assert!(!same_age(age(AgeUnit::Min, 2), None));
}

#[test]
fn phone_number_layout() {
    assert_eq!(format_phone_number("+12075551234", "From ", ", ", "x"), "From +1 (207) 555-1234, x");
    assert_eq!(messages_to_title("+12075551234"), "Messages to +1 (207) 555-1234:");
    assert!(can_format_phone_number("+12075551234"));
    assert!(!can_format_phone_number("+1207555"));
    assert!(!can_format_phone_number("+1207555123é"));
}

#[test]
fn phone_numbers_are_cut_by_bytes() {
    // The country code is the first two bytes, here one two-byte character
    assert!(can_format_phone_number("é2075551234"));
    assert_eq!(format_phone_number("é2075551234", "", "", ""), "é (207) 555-1234");
    // Only the first twelve bytes are laid out
    assert!(can_format_phone_number("+12075551234é"));
    assert_eq!(format_phone_number("+12075551234é", "", ":", ""), "+1 (207) 555-1234:");
    // Byte 2 falls inside a character
    assert!(!can_format_phone_number("+é075551234"));
}

#[test]
fn display_texts() {
    assert_eq!(make_message_display_text(age(AgeUnit::Min, 3), "hi", 0, None), "3 mins ago: 'hi'");
    assert_eq!(make_message_display_text(age(AgeUnit::Min, 1), "hi", 0, None), "1 min ago: 'hi'");
    assert_eq!(make_message_display_text(age(AgeUnit::Week, 2), "hi", 0, None), "2 weeks ago: 'hi'");
    assert_eq!(make_message_display_text(None, "hi", 0, None), "Right now: 'hi'");
    assert_eq!(
        make_message_display_text(None, "hi", 0, Some("+12075551234")),
        "From +1 (207) 555-1234, Right now: 'hi'"
    );
    assert_eq!(
        make_message_display_text(None, "", 1, Some("+12075551234")),
        "Media attachment sent! Not renderable at this time though, unfortunately."
    );
    assert_eq!(
        make_message_display_text(age(AgeUnit::Sec, 4), "", 3, None),
        "Media attachments sent! Not renderable at this time though, unfortunately."
    );
    assert_eq!(make_message_display_text(None, "look", 2, None), "Right now: 'look'");
    assert_eq!(make_message_display_text(None, "", 0, None), "Right now: ''");
}

#[test]
fn plain_display_texts() {
    assert_eq!(make_plain_message_display_text(age(AgeUnit::Hour, 2), "yo"), "2 hours ago: 'yo'. ");
    assert_eq!(make_plain_message_display_text(None, "yo"), "Right now: 'yo'. ");
}

fn incoming(sid: u128, time_sent: i64, time_loaded: i64, body: &str) -> IncomingMessageInfo {
    IncomingMessageInfo {
        sid,
        time_sent,
        time_loaded_by_app: time_loaded,
        from: "+12075551234".to_string(),
        body: body.to_string(),
        num_attachments: 0,
    }
}

fn param(curr_time: i64, cutoff: i64, reveal: bool) -> MessageHistoryParam {
    MessageHistoryParam { curr_time, curr_history_cutoff_time: cutoff, reveal_texter_identities: reveal }
}

#[test]
fn new_local_message() {
    let now = 1_000_000 * SEC;
    let msg = incoming(1, now - 120 * SEC, now, "  hello there \n");
    let local = create_new_local(&param(now, 0, true), &msg);
    assert_eq!(local.age_data, age(AgeUnit::Min, 2));
    assert_eq!(local.body, "hello there");
    assert_eq!(local.maybe_from.as_deref(), Some("+12075551234"));
    assert_eq!(local.display_text, "From +1 (207) 555-1234, 2 mins ago: 'hello there'");
    let hidden = create_new_local(&param(now, 0, false), &msg);
    assert_eq!(hidden.maybe_from, None);
    assert_eq!(hidden.display_text, "2 mins ago: 'hello there'");
}

#[test]
fn local_message_updates_only_when_age_changes() {
    let now = 1_000_000 * SEC;
    let msg = incoming(1, now - 120 * SEC, now, "hey");
    let mut local: MessageInfo = create_new_local(&param(now, 0, false), &msg);
    assert!(!update_local(&param(now + 10 * SEC, 0, false), &mut local));
    assert_eq!(local.display_text, "2 mins ago: 'hey'");
    assert!(update_local(&param(now + 60 * SEC, 0, false), &mut local));
    assert_eq!(local.display_text, "3 mins ago: 'hey'");
    assert_eq!(local.age_data, age(AgeUnit::Min, 3));
}

#[test]
fn expiry() {
    let p = param(100, 50, false);
    assert!(is_expired(&p, &incoming(1, 49, 0, "")));
    assert!(!is_expired(&p, &incoming(1, 50, 0, "")));
}

#[test]
fn history_order_sorts_by_time_then_load_time() {
    let results = vec![
        incoming(1, 30, 0, "a"),
        incoming(2, 10, 5, "b"),
        incoming(3, 10, 9, "c"),
        incoming(4, 20, 0, "d"),
        incoming(5, 10, 9, "e"),
    ];
    // Sent at 10: loaded latest first (9, 9, then 5), ties kept in listed order
    assert_eq!(message_order(&results), vec![2, 4, 1, 3, 0]);
    assert_eq!(message_order(&Vec::new()), Vec::<usize>::new());
}

#[test]
fn history_order_is_unique() {
    let results = vec![incoming(1, 5, 1, "a"), incoming(2, 5, 1, "b"), incoming(3, 1, 1, "c")];
    assert_eq!(message_order(&results), message_order(&results));
    assert_eq!(message_order(&results), vec![2, 0, 1]);
}

#[test]
fn history_update_keeps_unexpired_messages_in_order() {
    let now = 1_000_000 * SEC;
    let p = param(now, now - 3600 * SEC, false);
    let mut list: ApiHistoryList<MessageInfo, ()> = ApiHistoryList::new(5);
    let mut results = vec![
        incoming(10, now - 60 * SEC, 0, "newest"),
        incoming(20, now - 7200 * SEC, 0, "expired"),
        incoming(30, now - 600 * SEC, 0, "older"),
    ];
    update_message_history(&mut list, &mut results, &p);
    assert_eq!(list.len(), 2);
    assert!(!list.contains_key(20));
    let older = list.get(30).unwrap();
    assert_eq!(older.index, 0);
    assert!(!older.just_updated);
    assert_eq!(older.item.display_text, "10 mins ago: 'older'");
    let newest = list.get(10).unwrap();
    assert_eq!(newest.index, 1);
    assert_eq!(newest.item.display_text, "1 min ago: 'newest'");

    // A minute later: one message is gone, one is new, and the kept one ages
    let later = param(now + 60 * SEC, now + 60 * SEC - 3600 * SEC, false);
    let mut results_later = vec![incoming(10, now - 60 * SEC, 0, "newest"), incoming(40, now + 60 * SEC, 0, "fresh")];
    update_message_history(&mut list, &mut results_later, &later);
    assert_eq!(list.len(), 2);
    assert!(!list.contains_key(30));
    let kept = list.get(10).unwrap();
    assert!(kept.just_updated);
    assert_eq!(kept.index, 0);
    assert_eq!(kept.item.display_text, "2 mins ago: 'newest'");
    let fresh = list.get(40).unwrap();
    assert_eq!(fresh.index, 1);
    assert!(!fresh.just_updated);
    assert_eq!(fresh.item.display_text, "Right now: 'fresh'");
}

#[test]
fn repeated_history_update_changes_nothing() {
    let now = 1_000_000 * SEC;
    let p = param(now, 0, true);
    let mut list: ApiHistoryList<MessageInfo, ()> = ApiHistoryList::new(5);
    let mut results = vec![incoming(1, now - 5 * SEC, 0, "a"), incoming(2, now - 3 * 3600 * SEC, 0, "b")];
    update_message_history(&mut list, &mut results, &p);
    let first_texts: Vec<String> = [1u128, 2].iter().map(|k| list.get(*k).unwrap().item.display_text.clone()).collect();
    update_message_history(&mut list, &mut results, &p);
    for (k, text) in [1u128, 2].iter().zip(first_texts) {
        let entry = list.get(*k).unwrap();
        assert!(!entry.just_updated);
        assert_eq!(entry.item.display_text, text);
    }
    assert_eq!(list.get(2).unwrap().index, 0);
    assert_eq!(list.get(1).unwrap().index, 1);
}

#[test]
fn sid_parsing() {
    assert_eq!(parse_sid("SM0123456789abcdef0123456789ABCDEF"), Some(0x0123456789abcdef0123456789abcdef));
    assert_eq!(parse_sid("SMffffffffffffffffffffffffffffffff"), Some(u128::MAX));
    assert_eq!(parse_sid("SM+123456789abcdef0123456789abcdef"), Some(0x123456789abcdef0123456789abcdef));
    assert_eq!(parse_sid("SM0123"), None);
    assert_eq!(parse_sid("SM0123456789abcdef0123456789abcdeg"), None);
    assert_eq!(parse_sid("SM-123456789abcdef0123456789abcdef"), None);
    assert_eq!(parse_sid("SM0123456789abcdef0123456789abcdef0"), None);
    assert!(can_parse_sid("SM0123456789abcdef0123456789abcdef"));
}

#[test]
fn sids_are_measured_in_bytes() {
    // A two-byte prefix of one character, then 32 hexadecimal digits: 34 bytes
    assert!(can_parse_sid("é0123456789abcdef0123456789abcdef"));
    assert_eq!(parse_sid("é0123456789abcdef0123456789abcdef"), Some(0x0123456789abcdef0123456789abcdef));
    // 34 characters, but more bytes
    assert_eq!(parse_sid("SMé123456789abcdef0123456789abcdef"), None);
    // 34 bytes with a character across byte 2: it cannot be cut there
    assert!(!can_parse_sid("Sé0123456789abcdef0123456789abcde"));
    // Texts of other lengths can always be read (as nothing)
    assert!(can_parse_sid("Sé"));
}

#[test]
fn request_auth_is_basic_base64() {
    assert_eq!(make_request_auth("AC123", "tok"), "Basic QUMxMjM6dG9r");
    assert_eq!(make_request_auth("ACabc", "secret"), "Basic QUNhYmM6c2VjcmV0");
}

#[test]
fn endpoint_url() {
    assert_eq!(
        twilio_endpoint_url("AC1", "Messages"),
        "https://api.twilio.com/2010-04-01/Accounts/AC1/Messages.json"
    );
}

#[test]
fn query_params_use_cutoff_date() {
    let cutoff = 1_709_649_000 * SEC; // 2024-03-05T14:30:00Z
    let params = messages_query_params("+12075551234", "7", cutoff);
    assert_eq!(
        params,
        vec![
            ("To".to_string(), "+12075551234".to_string()),
            ("PageSize".to_string(), "7".to_string()),
            ("DateSent%3E".to_string(), "2024-03-05".to_string()),
        ]
    );
}

#[test]
fn config() {
    let config = TwilioConfig::new("AC123", "tok", 12, 3600 * SEC, true);
    assert_eq!(config.account_sid, "AC123");
    assert_eq!(config.request_auth, "Basic QUMxMjM6dG9r");
    assert_eq!(config.max_num_messages_in_history_as_string, "12");
    assert_eq!(config.max_num_messages_in_history, 12);
    let p = config.history_param(10_000 * SEC);
    assert_eq!(p.curr_time, 10_000 * SEC);
    assert_eq!(p.curr_history_cutoff_time, 6_400 * SEC);
    assert!(p.reveal_texter_identities);
}

#[test]
fn message_age_uses_largest_unit() {
    let now = 2_000_000 * SEC;
    // Just short of a week: six days, not 167 hours
    assert_eq!(get_message_age_data(now, now - (6 * 86400 + 23 * 3600) * SEC), age(AgeUnit::Day, 6));
    // Just short of a day: 23 hours
    assert_eq!(get_message_age_data(now, now - (86400 - 1) * SEC), age(AgeUnit::Hour, 23));
    // Just short of an hour: 59 minutes
    assert_eq!(get_message_age_data(now, now - (3600 - 1) * SEC), age(AgeUnit::Min, 59));
}

#[test]
fn history_update_sorts_the_results_in_place() {
    let t = 1_000_000 * SEC;
    let p = param(t + 10 * SEC, t - 3600 * SEC, false);
    let mut list: ApiHistoryList<MessageInfo, ()> = ApiHistoryList::new(3);
    let mut results = vec![incoming(0xA, t + 2 * SEC, 0, "hi"), incoming(0xB, t, 0, "hi"), incoming(0xC, t - 86400 * SEC, 0, "hi")];
    update_message_history(&mut list, &mut results, &p);
    let sids: Vec<u128> = results.iter().map(|m| m.sid).collect();
    assert_eq!(sids, vec![0xC, 0xB, 0xA]);
    assert_eq!(list.len(), 2);
    assert!(!list.contains_key(0xC));
    assert_eq!(list.get(0xB).unwrap().index, 0);
    assert_eq!(list.get(0xA).unwrap().index, 1);
    assert!(!list.get(0xB).unwrap().just_updated);
    assert!(!list.get(0xA).unwrap().just_updated);
}
