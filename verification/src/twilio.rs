use vstd::prelude::*;
use vstd::string::*;
use crate::text::{decimal_spec, push_decimal, push_signed_decimal, push_str, signed_decimal_spec, trim, trim_spec};
use crate::parse::{parse_hex_u128, unsigned_text_value};
use crate::timestamps::{trunc_div, trunc_div_i128, utc_calendar_date, utc_date, whole_seconds};
use crate::utf8::{byte_slice, char_position, char_position_of_byte, is_char_boundary, is_char_boundary_at,
    lemma_char_boundary_unique, lemma_chars_at_most_bytes, lemma_end_is_char_boundary, lemma_utf8_len_split,
    lemma_utf8_len_take_increases, utf8_len};
use crate::api_history_list::{ApiHistoryEntry, ApiHistoryList, is_first_position, is_missing_position,
    lemma_first_position_exists, lemma_first_position_unique};

verus! {

/// The unit in which a message's age is told.
#[derive(Copy, Clone, Debug, PartialEq, Eq, Structural)]
pub enum AgeUnit {
    Week,
    Day,
    Hour,
    Min,
    Sec,
}

/// The name of a unit, as it appears in a message's text.
pub open spec fn age_unit_name(unit: AgeUnit) -> Seq<char> {
    match unit {
        AgeUnit::Week => "week"@,
        AgeUnit::Day => "day"@,
        AgeUnit::Hour => "hour"@,
        AgeUnit::Min => "min"@,
        AgeUnit::Sec => "sec"@,
    }
}

impl AgeUnit {
    pub fn name(&self) -> (res: &'static str)
        ensures
            res@ == age_unit_name(*self),
    {
        match self {
            AgeUnit::Week => "week",
            AgeUnit::Day => "day",
            AgeUnit::Hour => "hour",
            AgeUnit::Min => "min",
            AgeUnit::Sec => "sec",
        }
    }
}

/// How old a message is: a positive number of whole units, in the largest unit of which it
/// is at least one.
#[derive(Copy, Clone, Debug, PartialEq, Eq, Structural)]
pub struct MessageAge {
    pub unit: AgeUnit,
    pub amount: i64,
}

/// The age of a message sent at `time_sent`, seen at `curr_time` (both in nanoseconds since
/// the Unix epoch): the first of weeks, days, hours, minutes and seconds of which there is at
/// least one whole, or none if the message is less than a second old (or from the future).
pub open spec fn message_age_spec(curr_time: int, time_sent: int) -> Option<MessageAge> {
    let secs = whole_seconds(curr_time - time_sent);
    let mins = trunc_div(secs, 60);
    let hours = trunc_div(secs, 3600);
    let days = trunc_div(secs, 86400);
    let weeks = trunc_div(days, 7);
    if weeks > 0 {
        Some(MessageAge { unit: AgeUnit::Week, amount: weeks as i64 })
    } else if days > 0 {
        Some(MessageAge { unit: AgeUnit::Day, amount: days as i64 })
    } else if hours > 0 {
        Some(MessageAge { unit: AgeUnit::Hour, amount: hours as i64 })
    } else if mins > 0 {
        Some(MessageAge { unit: AgeUnit::Min, amount: mins as i64 })
    } else if secs > 0 {
        Some(MessageAge { unit: AgeUnit::Sec, amount: secs as i64 })
    } else {
        None
    }
}

/// How old a message sent at `time_sent` is at `curr_time` (nanoseconds since the Unix epoch).
pub fn get_message_age_data(curr_time: i64, time_sent: i64) -> (res: Option<MessageAge>)
    ensures
        res == message_age_spec(curr_time as int, time_sent as int),
{
    let nanos: i128 = curr_time as i128 - time_sent as i128;
    let secs = trunc_div_i128(nanos, 1_000_000_000);
    assert(-0x8000_0000_0000_0000 <= secs < 0x8000_0000_0000_0000);
    let mins = trunc_div_i128(secs, 60);
    let hours = trunc_div_i128(secs, 3600);
    let days = trunc_div_i128(secs, 86400);
    let weeks = trunc_div_i128(days, 7);
    if weeks > 0 {
        Some(MessageAge { unit: AgeUnit::Week, amount: weeks as i64 })
    } else if days > 0 {
        Some(MessageAge { unit: AgeUnit::Day, amount: days as i64 })
    } else if hours > 0 {
        Some(MessageAge { unit: AgeUnit::Hour, amount: hours as i64 })
    } else if mins > 0 {
        Some(MessageAge { unit: AgeUnit::Min, amount: mins as i64 })
    } else if secs > 0 {
        Some(MessageAge { unit: AgeUnit::Sec, amount: secs as i64 })
    } else {
        None
    }
}

/// Whether two ages are the same.
pub fn same_age(a: Option<MessageAge>, b: Option<MessageAge>) -> (res: bool)
    ensures
        res == (a == b),
{
    match (a, b) {
        (Some(x), Some(y)) => x.unit == y.unit && x.amount == y.amount,
        (None, None) => true,
        _ => false,
    }
}

//////////

/// A phone number that can be laid out (see `format_phone_number`): its bytes 2, 5, 8 and 12
/// (in UTF-8) are on character boundaries, as cutting it there needs (such as `+12075550123`).
pub open spec fn is_formattable_phone_number(number: Seq<char>) -> bool {
    &&& is_char_boundary(number, 2)
    &&& is_char_boundary(number, 5)
    &&& is_char_boundary(number, 8)
    &&& is_char_boundary(number, 12)
}

/// A phone number laid out as `{before}+1 (207) 555-0123{after_1}{after_2}`: the country code
/// is its first two bytes, then the area code, prefix and line number (three, three and four
/// bytes).
pub open spec fn phone_number_text(
    number: Seq<char>,
    before: Seq<char>,
    after_1: Seq<char>,
    after_2: Seq<char>,
) -> Seq<char> {
    before + byte_slice(number, 0, 2) + " ("@ + byte_slice(number, 2, 5) + ") "@ + byte_slice(number, 5, 8)
        + "-"@ + byte_slice(number, 8, 12) + after_1 + after_2
}

/// Whether `number` can be laid out by `format_phone_number`.
pub fn can_format_phone_number(number: &str) -> (res: bool)
    ensures
        res == is_formattable_phone_number(number@),
{
    char_position_of_byte(number, 2).is_some() && char_position_of_byte(number, 5).is_some()
        && char_position_of_byte(number, 8).is_some() && char_position_of_byte(number, 12).is_some()
}

/// The character position at byte `b` of `number`, which is on a character boundary.
fn boundary_position(number: &str, b: usize) -> (k: usize)
    requires
        is_char_boundary(number@, b as int),
    ensures
        k == char_position(number@, b as int),
        k <= number@.len(),
{
    match char_position_of_byte(number, b) {
        Some(k) => {
            proof {
                let c = char_position(number@, b as int);
                assert(is_char_boundary_at(number@, b as int, c));
                lemma_char_boundary_unique(number@, b as int, k as int, c);
            }
            k
        },
        None => {
            assert(false);
            0
        },
    }
}

/// The character positions of increasing boundaries increase.
proof fn lemma_char_positions_ordered(s: Seq<char>, a: int, b: int)
    requires
        a <= b,
        is_char_boundary(s, a),
        is_char_boundary(s, b),
    ensures
        char_position(s, a) <= char_position(s, b),
{
    let (ka, kb) = (char_position(s, a), char_position(s, b));
    assert(is_char_boundary_at(s, a, ka));
    assert(is_char_boundary_at(s, b, kb));
    if kb < ka {
        lemma_utf8_len_take_increases(s, kb, ka);
    }
}

/// Lays out a phone number as `{before}+1 (207) 555-0123{after_1}{after_2}`.
pub fn format_phone_number(number: &str, before: &str, after_1: &str, after_2: &str) -> (res:
    String)
    requires
        is_formattable_phone_number(number@),
    ensures
        res@ == phone_number_text(number@, before@, after_1@, after_2@),
{
    proof {
        assert(is_char_boundary_at(number@, 0, 0));
        assert(is_char_boundary(number@, 0));
        let k0 = char_position(number@, 0);
        assert(is_char_boundary_at(number@, 0, k0));
        lemma_char_boundary_unique(number@, 0, 0, k0);
        lemma_char_positions_ordered(number@, 2, 5);
        lemma_char_positions_ordered(number@, 5, 8);
        lemma_char_positions_ordered(number@, 8, 12);
    }
    let k2 = boundary_position(number, 2);
    let k5 = boundary_position(number, 5);
    let k8 = boundary_position(number, 8);
    let k12 = boundary_position(number, 12);
    let country_code = number.substring_char(0, k2);
    let area_code = number.substring_char(k2, k5);
    let telephone_prefix = number.substring_char(k5, k8);
    let line_number = number.substring_char(k8, k12);
    let mut res = String::from_str(before);
    push_str(&mut res, country_code);
    push_str(&mut res, " (");
    push_str(&mut res, area_code);
    push_str(&mut res, ") ");
    push_str(&mut res, telephone_prefix);
    push_str(&mut res, "-");
    push_str(&mut res, line_number);
    push_str(&mut res, after_1);
    push_str(&mut res, after_2);
    res
}

/// How a message's age is told: `3 hours ago: '{body}'`, or `Right now: '{body}'`.
pub open spec fn aged_body_text(age_data: Option<MessageAge>, body: Seq<char>) -> Seq<char> {
    match age_data {
        Some(age) => signed_decimal_spec(age.amount as int) + " "@ + age_unit_name(age.unit) + (
        if age.amount == 1 {
            Seq::<char>::empty()
        } else {
            "s"@
        }) + " ago: '"@ + body + "'"@,
        None => "Right now: '"@ + body + "'"@,
    }
}

/// The text shown for a message: a note on media attachments when the body is empty and
/// something is attached; otherwise its age and body, after the sender's number when the
/// sender is shown.
pub open spec fn message_display_text_spec(
    age_data: Option<MessageAge>,
    body: Seq<char>,
    num_attachments: u32,
    maybe_from: Option<Seq<char>>,
) -> Seq<char> {
    if body.len() == 0 && num_attachments != 0 {
        "Media attachment"@ + (if num_attachments > 1 {
            "s"@
        } else {
            Seq::<char>::empty()
        }) + " sent! Not renderable at this time though, unfortunately."@
    } else {
        let text = aged_body_text(age_data, body);
        match maybe_from {
            Some(from) => phone_number_text(from, "From "@, ", "@, text),
            None => text,
        }
    }
}

/// The view of an optional string.
pub open spec fn opt_str_view(s: Option<String>) -> Option<Seq<char>> {
    match s {
        Some(t) => Some(t@),
        None => None,
    }
}

/// The text shown for a message (see `message_display_text_spec`).
pub fn make_message_display_text(
    age_data: Option<MessageAge>,
    body: &str,
    num_attachments: u32,
    maybe_from: Option<&str>,
) -> (res: String)
    requires
        match maybe_from {
            Some(from) => (body@.len() == 0 && num_attachments != 0) || is_formattable_phone_number(
                from@,
            ),
            None => true,
        },
    ensures
        res@ == message_display_text_spec(
            age_data,
            body@,
            num_attachments,
            match maybe_from {
                Some(from) => Some(from@),
                None => None,
            },
        ),
{
    if body.unicode_len() == 0 && num_attachments != 0 {
        let mut res = String::from_str("Media attachment");
        if num_attachments > 1 {
            push_str(&mut res, "s");
        }
        push_str(&mut res, " sent! Not renderable at this time though, unfortunately.");
        return res;
    }
    let mut text = String::new();
    match age_data {
        Some(age) => {
            push_signed_decimal(&mut text, age.amount);
            push_str(&mut text, " ");
            push_str(&mut text, age.unit.name());
            if age.amount != 1 {
                push_str(&mut text, "s");
            }
            push_str(&mut text, " ago: '");
        },
        None => {
            push_str(&mut text, "Right now: '");
        },
    }
    push_str(&mut text, body);
    push_str(&mut text, "'");
    proof {
        match age_data {
            Some(age) => {
                assert(text@ =~= aged_body_text(age_data, body@));
            },
            None => {
                assert(text@ =~= aged_body_text(age_data, body@));
            },
        }
    }
    match maybe_from {
        Some(from) => format_phone_number(from, "From ", ", ", text.as_str()),
        None => text,
    }
}

//////////

/// A message as the Twilio API lists it (times in nanoseconds since the Unix epoch).
#[derive(Clone, Debug)]
pub struct IncomingMessageInfo {
    /// The message SID, its 32 hexadecimal digits read as a number.
    pub sid: u128,
    pub time_sent: i64,
    /// When the app loaded the message: the tie-breaker for messages sent in the same second.
    pub time_loaded_by_app: i64,
    pub from: String,
    pub body: String,
    pub num_attachments: u32,
}

/// A message as the history keeps it.
#[derive(Clone, Debug)]
pub struct MessageInfo {
    pub age_data: Option<MessageAge>,
    pub time_sent: i64,
    /// The sender's number, or `None` if texter identities are hidden.
    pub maybe_from: Option<String>,
    pub body: String,
    pub display_text: String,
    pub num_attachments: u32,
}

/// What an update of the message history goes by (times in nanoseconds since the Unix epoch).
#[derive(Copy, Clone)]
pub struct MessageHistoryParam {
    pub curr_time: i64,
    pub curr_history_cutoff_time: i64,
    pub reveal_texter_identities: bool,
}

/// A message is shown with its sender exactly when the sender is known and it is not a
/// media-only message.
pub open spec fn shows_sender(
    maybe_from: Option<Seq<char>>,
    body: Seq<char>,
    num_attachments: u32,
) -> bool {
    maybe_from is Some && !(body.len() == 0 && num_attachments != 0)
}

/// A kept message whose sender is shown has a number that can be laid out.
pub open spec fn sender_formattable(m: MessageInfo) -> bool {
    shows_sender(opt_str_view(m.maybe_from), m.body@, m.num_attachments) ==> is_formattable_phone_number(
        opt_str_view(m.maybe_from)->0,
    )
}

/// An API result can be turned into a kept message: if its sender will be shown, the
/// sender's number can be laid out.
pub open spec fn offshore_formattable(param: MessageHistoryParam, offshore: IncomingMessageInfo) -> bool {
    (param.reveal_texter_identities && !(trim_spec(offshore.body@).len() == 0
        && offshore.num_attachments != 0)) ==> is_formattable_phone_number(offshore.from@)
}

/// `local` is the kept message made of the API result `offshore`.
pub open spec fn is_new_local(
    param: MessageHistoryParam,
    offshore: IncomingMessageInfo,
    local: MessageInfo,
) -> bool {
    let age = message_age_spec(param.curr_time as int, offshore.time_sent as int);
    let from = if param.reveal_texter_identities {
        Some(offshore.from@)
    } else {
        None
    };
    let body = trim_spec(offshore.body@);
    &&& local.age_data == age
    &&& local.time_sent == offshore.time_sent
    &&& opt_str_view(local.maybe_from) == from
    &&& local.body@ == body
    &&& local.display_text@ == message_display_text_spec(age, body, offshore.num_attachments, from)
    &&& local.num_attachments == offshore.num_attachments
}

/// `new` is `old` brought up to the current time; `just_updated` tells whether its age (and
/// so its text) changed.
pub open spec fn is_refreshed_local(
    param: MessageHistoryParam,
    old: MessageInfo,
    new: MessageInfo,
    just_updated: bool,
) -> bool {
    let age = message_age_spec(param.curr_time as int, old.time_sent as int);
    &&& just_updated == (age != old.age_data)
    &&& new.age_data == age
    &&& new.time_sent == old.time_sent
    &&& opt_str_view(new.maybe_from) == opt_str_view(old.maybe_from)
    &&& new.body@ == old.body@
    &&& new.num_attachments == old.num_attachments
    &&& new.display_text@ == if just_updated {
        message_display_text_spec(age, old.body@, old.num_attachments, opt_str_view(old.maybe_from))
    } else {
        old.display_text@
    }
}

fn opt_as_str(s: &Option<String>) -> (res: Option<&str>)
    ensures
        match res {
            Some(t) => s is Some && t@ == s->0@,
            None => s is None,
        },
{
    match s {
        Some(t) => Some(t.as_str()),
        None => None,
    }
}

/// An API result is expired when it was sent before the history's cutoff time.
pub fn is_expired(param: &MessageHistoryParam, offshore: &IncomingMessageInfo) -> (res: bool)
    ensures
        res == (offshore.time_sent < param.curr_history_cutoff_time),
{
    offshore.time_sent < param.curr_history_cutoff_time
}

/// Makes the kept form of an API result: its age now, its sender if identities are revealed,
/// its trimmed body, and the text to show.
pub fn create_new_local(param: &MessageHistoryParam, offshore: &IncomingMessageInfo) -> (local:
    MessageInfo)
    requires
        offshore_formattable(*param, *offshore),
    ensures
        is_new_local(*param, *offshore, local),
        sender_formattable(local),
{
    let age_data = get_message_age_data(param.curr_time, offshore.time_sent);
    let maybe_from = if param.reveal_texter_identities {
        Some(offshore.from.clone())
    } else {
        None
    };
    let trimmed_body = trim(offshore.body.as_str());
    let num_attachments = offshore.num_attachments;
    let display_text = make_message_display_text(
        age_data,
        trimmed_body.as_str(),
        num_attachments,
        opt_as_str(&maybe_from),
    );
    MessageInfo {
        age_data,
        time_sent: offshore.time_sent,
        maybe_from,
        body: trimmed_body,
        display_text,
        num_attachments,
    }
}

/// Brings a kept message up to the current time: its text is only remade when its age
/// changed. Returns whether it changed.
pub fn update_local(param: &MessageHistoryParam, local: &mut MessageInfo) -> (just_updated: bool)
    requires
        sender_formattable(*old(local)),
    ensures
        is_refreshed_local(*param, *old(local), *final(local), just_updated),
        sender_formattable(*final(local)),
{
    let age_data = get_message_age_data(param.curr_time, local.time_sent);
    let just_updated = !same_age(age_data, local.age_data);
    if just_updated {
        let display_text = make_message_display_text(
            age_data,
            local.body.as_str(),
            local.num_attachments,
            opt_as_str(&local.maybe_from),
        );
        local.display_text = display_text;
        local.age_data = age_data;
    }
    just_updated
}

//////////

/// The order of the message history: `a` (at position `ia` of the API results) comes before
/// `b` (at `ib`) if it was sent earlier; among messages sent in the same second, the one
/// loaded later comes first; and among those, the one listed first.
pub open spec fn message_before(a: IncomingMessageInfo, ia: int, b: IncomingMessageInfo, ib: int) -> bool {
    ||| a.time_sent < b.time_sent
    ||| a.time_sent == b.time_sent && a.time_loaded_by_app > b.time_loaded_by_app
    ||| a.time_sent == b.time_sent && a.time_loaded_by_app == b.time_loaded_by_app && ia < ib
}

/// `order` lists every position of `results` once, sorted by `message_before`.
pub open spec fn is_message_order(results: Seq<IncomingMessageInfo>, order: Seq<usize>) -> bool {
    &&& order.len() == results.len()
    &&& forall|i: int| 0 <= i < order.len() ==> #[trigger] order[i] < results.len()
    &&& forall|x: usize| x < results.len() ==> #[trigger] order.contains(x)
    &&& forall|i: int, j: int|
        0 <= i < j < order.len() ==> message_before(
            results[#[trigger] order[i] as int],
            order[i] as int,
            results[#[trigger] order[j] as int],
            order[j] as int,
        )
}

fn message_comes_before(a: &IncomingMessageInfo, ia: usize, b: &IncomingMessageInfo, ib: usize) -> (res:
    bool)
    ensures
        res == message_before(*a, ia as int, *b, ib as int),
{
    a.time_sent < b.time_sent || (a.time_sent == b.time_sent && (a.time_loaded_by_app
        > b.time_loaded_by_app || (a.time_loaded_by_app == b.time_loaded_by_app && ia < ib)))
}

/// The positions of the API results in history order (a stable sort by time sent, then by
/// time loaded, latest first).
pub fn message_order(results: &Vec<IncomingMessageInfo>) -> (order: Vec<usize>)
    ensures
        is_message_order(results@, order@),
{
    let n = results.len();
    let mut order: Vec<usize> = Vec::new();
    let mut i: usize = 0;
    while i < n
        invariant
            n == results@.len(),
            i <= n,
            order@.len() == i,
            forall|k: int| 0 <= k < order@.len() ==> #[trigger] order@[k] < i,
            forall|x: usize| x < i ==> #[trigger] order@.contains(x),
            forall|a: int, b: int|
                0 <= a < b < order@.len() ==> message_before(
                    results@[#[trigger] order@[a] as int],
                    order@[a] as int,
                    results@[#[trigger] order@[b] as int],
                    order@[b] as int,
                ),
        decreases n - i,
    {
        let mut pos: usize = order.len();
        while pos > 0 && message_comes_before(&results[i], i, &results[order[pos - 1]], order[pos - 1])
            invariant
                n == results@.len(),
                i < n,
                pos <= order@.len(),
                forall|k: int| 0 <= k < order@.len() ==> #[trigger] order@[k] < i,
                forall|k: int|
                    pos <= k < order@.len() ==> message_before(
                        results@[i as int],
                        i as int,
                        results@[#[trigger] order@[k] as int],
                        order@[k] as int,
                    ),
            decreases pos,
        {
            pos = pos - 1;
        }
        let ghost before = order@;
        order.insert(pos, i);
        proof {
            let s = order@;
            assert(s =~= before.insert(pos as int, i));
            assert forall|k: int| 0 <= k < s.len() implies #[trigger] s[k] == (if k < pos {
                before[k]
            } else if k == pos {
                i
            } else {
                before[k - 1]
            }) by {}
            assert forall|a: int, b: int| 0 <= a < b < s.len() implies message_before(
                results@[#[trigger] s[a] as int],
                s[a] as int,
                results@[#[trigger] s[b] as int],
                s[b] as int,
            ) by {
                if a < pos && b < pos {
                } else if a < pos && b == pos {
                    // `before[pos - 1]` comes before `i`, and `before[a]` before that
                    let last = before[pos - 1];
                    assert(last < i);
                    if a < pos - 1 {
                        assert(message_before(
                            results@[before[a] as int],
                            before[a] as int,
                            results@[last as int],
                            last as int,
                        ));
                    }
                } else if a < pos {
                    assert(s[b] == before[b - 1]);
                } else if a == pos {
                    assert(s[b] == before[b - 1]);
                } else {
                    assert(s[a] == before[a - 1] && s[b] == before[b - 1]);
                }
            }
            assert forall|x: usize| x < i + 1 implies #[trigger] order@.contains(x) by {
                if x == i {
                    assert(s[pos as int] == i);
                } else {
                    assert(before.contains(x));
                    let k = choose|k: int| 0 <= k < before.len() && before[k] == x;
                    if k < pos {
                        assert(s[k] == before[k]);
                    } else {
                        assert(s[k + 1] == before[k]);
                    }
                }
            }
        }
        i = i + 1;
    }
    order
}

//////////

/// The entry `e` is the kept message of `old` refreshed at the current time, with the same
/// key, index and texture data.
pub open spec fn is_refreshed_entry(
    param: MessageHistoryParam,
    old: ApiHistoryEntry<MessageInfo, ()>,
    e: ApiHistoryEntry<MessageInfo, ()>,
) -> bool {
    &&& e.key == old.key
    &&& e.index == old.index
    &&& e.intermediate == old.intermediate
    &&& is_refreshed_local(param, old.item, e.item, e.just_updated)
    &&& sender_formattable(e.item)
}

/// Step two of a history update: refreshes every kept message, recording which ones changed.
fn refresh_kept(list: &mut ApiHistoryList<MessageInfo, ()>, param: &MessageHistoryParam)
    requires
        old(list).wf(),
        forall|k: u128| #[trigger] old(list)@.contains_key(k) ==> sender_formattable(old(list)@[k].item),
    ensures
        final(list).wf(),
        final(list).max_items_spec() == old(list).max_items_spec(),
        final(list)@.dom() == old(list)@.dom(),
        forall|k: u128| #[trigger] final(list)@.contains_key(k) ==> is_refreshed_entry(*param, old(list)@[k], final(list)@[k]),
{
    let ghost start = list@;
    let kept = list.keys();
    let mut j: usize = 0;
    while j < kept.len()
        invariant
            list.wf(),
            list.max_items_spec() == old(list).max_items_spec(),
            start == old(list)@,
            forall|k: u128| #[trigger] start.contains_key(k) ==> sender_formattable(start[k].item),
            forall|k: u128| kept@.contains(k) <==> start.contains_key(k),
            kept@.no_duplicates(),
            j <= kept@.len(),
            list@.dom() == start.dom(),
            forall|jj: int| 0 <= jj < j ==> is_refreshed_entry(*param, start[#[trigger] kept@[jj]], list@[kept@[jj]]),
            forall|jj: int| j <= jj < kept@.len() ==> list@[#[trigger] kept@[jj]] == start[kept@[jj]],
        decreases kept@.len() - j,
    {
        let key = kept[j];
        assert(kept@.contains(key));
        let ghost before = *list;
        let mut e = list.remove(key);
        let just_updated = update_local(param, &mut e.item);
        e.just_updated = just_updated;
        proof {
            assert forall|k: u128| #[trigger] list@.contains_key(k) implies list@[k].index != e.index by {
                if list@[k].index == e.index {
                    before.lemma_index_unique(k, key);
                }
            }
        }
        let ghost e_ghost = e;
        list.insert_entry(e);
        proof {
            assert(list@ == before@.remove(key).insert(key, e_ghost));
            assert forall|jj: int| 0 <= jj < j + 1 implies is_refreshed_entry(*param, start[#[trigger] kept@[jj]], list@[kept@[jj]]) by {
                if jj < j {
                    assert(kept@[jj] != key);
                }
            }
            assert forall|jj: int| j + 1 <= jj < kept@.len() implies list@[#[trigger] kept@[jj]] == start[kept@[jj]] by {
                assert(kept@[jj] != key);
            }
            assert(list@.dom() =~= start.dom());
        }
        j = j + 1;
    }
    proof {
        assert forall|k: u128| #[trigger] list@.contains_key(k) implies is_refreshed_entry(*param, start[k], list@[k]) by {
            assert(kept@.contains(k));
            let jj = choose|jj: int| 0 <= jj < kept@.len() && kept@[jj] == k;
            assert(is_refreshed_entry(*param, start[kept@[jj]], list@[kept@[jj]]));
        }
    }
}

/// The positions (in `order`) of the results that are not expired, in the same order.
pub open spec fn unexpired_positions(
    results: Seq<IncomingMessageInfo>,
    order: Seq<usize>,
    cutoff: i64,
) -> Seq<usize>
    decreases order.len(),
{
    if order.len() == 0 {
        Seq::empty()
    } else {
        let rest = unexpired_positions(results, order.drop_last(), cutoff);
        if results[order.last() as int].time_sent < cutoff {
            rest
        } else {
            rest.push(order.last())
        }
    }
}

/// The SIDs of the results at `positions`.
pub open spec fn keys_of(results: Seq<IncomingMessageInfo>, positions: Seq<usize>) -> Seq<u128> {
    positions.map_values(|p: usize| results[p as int].sid)
}

/// The unexpired results' positions, in history order, and their SIDs.
fn unexpired_in_order(
    results: &Vec<IncomingMessageInfo>,
    order: &Vec<usize>,
    param: &MessageHistoryParam,
) -> (res: (Vec<usize>, Vec<u128>))
    requires
        forall|i: int| 0 <= i < order@.len() ==> #[trigger] order@[i] < results@.len(),
    ensures
        res.0@ == unexpired_positions(results@, order@, param.curr_history_cutoff_time),
        res.1@ == keys_of(results@, res.0@),
        forall|i: int| 0 <= i < res.0@.len() ==> #[trigger] res.0@[i] < results@.len(),
{
    let mut positions: Vec<usize> = Vec::new();
    let mut keys: Vec<u128> = Vec::new();
    let mut i: usize = 0;
    while i < order.len()
        invariant
            forall|j: int| 0 <= j < order@.len() ==> #[trigger] order@[j] < results@.len(),
            i <= order@.len(),
            positions@ == unexpired_positions(results@, order@.take(i as int), param.curr_history_cutoff_time),
            keys@ == keys_of(results@, positions@),
            forall|j: int| 0 <= j < positions@.len() ==> #[trigger] positions@[j] < results@.len(),
        decreases order@.len() - i,
    {
        let p = order[i];
        proof {
            assert(order@.take(i + 1).drop_last() =~= order@.take(i as int));
            assert(order@.take(i + 1).last() == p);
        }
        if !is_expired(param, &results[p]) {
            positions.push(p);
            keys.push(results[p].sid);
            proof {
                assert(keys@ =~= keys_of(results@, positions@));
            }
        }
        i = i + 1;
    }
    proof {
        assert(order@.take(order@.len() as int) =~= order@);
    }
    (positions, keys)
}

/// The entry `e` is the kept message newly made of the API result at `positions[e.index]`.
pub open spec fn is_new_entry(
    param: MessageHistoryParam,
    results: Seq<IncomingMessageInfo>,
    positions: Seq<usize>,
    e: ApiHistoryEntry<MessageInfo, ()>,
) -> bool {
    &&& !e.just_updated
    &&& e.index < positions.len()
    &&& is_new_local(param, results[positions[e.index as int] as int], e.item)
    &&& sender_formattable(e.item)
}

/// Step three of a history update: adds a kept message for each unexpired result whose SID has
/// none yet, at the position of the first result with that SID.
fn add_new_messages(
    list: &mut ApiHistoryList<MessageInfo, ()>,
    results: &Vec<IncomingMessageInfo>,
    positions: &Vec<usize>,
    keys: &Vec<u128>,
    param: &MessageHistoryParam,
)
    requires
        old(list).wf(),
        keys@ == keys_of(results@, positions@),
        forall|i: int| 0 <= i < positions@.len() ==> #[trigger] positions@[i] < results@.len(),
        forall|i: int| 0 <= i < results@.len() ==> offshore_formattable(*param, #[trigger] results@[i]),
        forall|k: u128| #[trigger] old(list)@.contains_key(k) ==> is_first_position(keys@, k, old(list)@[k].index as int),
    ensures
        final(list).wf(),
        final(list).max_items_spec() == old(list).max_items_spec(),
        forall|k: u128| #[trigger] final(list)@.contains_key(k) <==> (old(list)@.contains_key(k) || keys@.contains(k)),
        forall|k: u128| #[trigger] old(list)@.contains_key(k) ==> final(list)@[k] == old(list)@[k],
        forall|k: u128| #[trigger] final(list)@.contains_key(k) ==> is_first_position(keys@, k, final(list)@[k].index as int),
        forall|k: u128|
            #[trigger] final(list)@.contains_key(k) && !old(list)@.contains_key(k) ==> final(list)@[k].key == k
                && is_new_entry(*param, results@, positions@, final(list)@[k]),
{
    let ghost start = list@;
    let missing = list.missing_key_positions(keys);
    let num_keys = keys.len();
    let mut t: usize = 0;
    while t < missing.len()
        invariant
            num_keys == keys@.len(),
            list.wf(),
            list.max_items_spec() == old(list).max_items_spec(),
            start == old(list)@,
            keys@ == keys_of(results@, positions@),
            forall|i: int| 0 <= i < positions@.len() ==> #[trigger] positions@[i] < results@.len(),
            forall|i: int| 0 <= i < results@.len() ==> offshore_formattable(*param, #[trigger] results@[i]),
            forall|i: int, j: int| 0 <= i < j < missing@.len() ==> missing@[i] < missing@[j],
            forall|i: int| 0 <= i < missing@.len() ==> is_missing_position(keys@, start, #[trigger] missing@[i] as int),
            forall|q: int| #[trigger] is_missing_position(keys@, start, q) ==> missing@.contains(q as usize),
            t <= missing@.len(),
            forall|k: u128| #[trigger] start.contains_key(k) ==> list@.contains_key(k) && list@[k] == start[k],
            forall|k: u128| #[trigger] list@.contains_key(k) ==> start.contains_key(k) || keys@.contains(k),
            forall|k: u128| #[trigger] list@.contains_key(k) ==> is_first_position(keys@, k, list@[k].index as int),
            forall|k: u128|
                #[trigger] list@.contains_key(k) && !start.contains_key(k) ==> list@[k].key == k
                    && is_new_entry(*param, results@, positions@, list@[k]),
            t < missing@.len() ==> forall|k: u128|
                #[trigger] list@.contains_key(k) && !start.contains_key(k) ==> list@[k].index < missing@[t as int],
            forall|i: int| 0 <= i < t ==> #[trigger] list@.contains_key(keys@[missing@[i] as int]),
        decreases missing@.len() - t,
    {
        let q = missing[t];
        assert(is_missing_position(keys@, start, q as int));
        let key = keys[q];
        let p = positions[q];
        let local = create_new_local(param, &results[p]);
        proof {
            if list@.contains_key(key) {
                lemma_first_position_unique(keys@, key, list@[key].index as int, q as int);
            }
            assert forall|k: u128| #[trigger] list@.contains_key(k) implies list@[k].index != q by {
                if list@[k].index == q {
                    assert(keys@[q as int] == k);
                }
            }
        }
        let ghost prev = list@;
        list.insert_new(key, q, local, ());
        proof {
            assert(keys@.contains(key));
            assert forall|i: int| 0 <= i < t + 1 implies #[trigger] list@.contains_key(keys@[missing@[i] as int]) by {
                if i < t {
                    assert(prev.contains_key(keys@[missing@[i] as int]));
                }
            }
            if t + 1 < missing@.len() {
                assert(missing@[t as int] < missing@[t + 1]);
            }
        }
        t = t + 1;
    }
    proof {
        assert forall|k: u128| (start.contains_key(k) || keys@.contains(k)) implies #[trigger] list@.contains_key(k) by {
            if keys@.contains(k) && !start.contains_key(k) {
                let q = choose|q: int| 0 <= q < keys@.len() && keys@[q] == k;
                lemma_first_position_exists(keys@, k, q);
                let p = choose|p: int| is_first_position(keys@, k, p);
                assert(is_missing_position(keys@, start, p));
                assert(missing@.contains(p as usize));
                let i = choose|i: int| 0 <= i < missing@.len() && missing@[i] == p as usize;
                assert(list@.contains_key(keys@[missing@[i] as int]));
                assert(keys@[missing@[i] as int] == k);
            }
        }
    }
}

/// Whether entry `e`, kept for SID `k` after an update from the unexpired results at
/// `positions`, is right: it sits at the position of the first result with its SID, and it is
/// the refreshed form of the entry kept before, or, for a new SID, the message made of that
/// result.
pub open spec fn is_updated_history_entry(
    param: MessageHistoryParam,
    results: Seq<IncomingMessageInfo>,
    positions: Seq<usize>,
    old: Map<u128, ApiHistoryEntry<MessageInfo, ()>>,
    k: u128,
    e: ApiHistoryEntry<MessageInfo, ()>,
) -> bool {
    &&& e.key == k
    &&& is_first_position(keys_of(results, positions), k, e.index as int)
    &&& if old.contains_key(k) {
        is_refreshed_local(param, old[k].item, e.item, e.just_updated)
    } else {
        is_new_entry(param, results, positions, e)
    }
}

/// The history `new` is `old` updated from the unexpired results at `positions`: it keeps an
/// entry for exactly the SIDs among them, each as `is_updated_history_entry` says.
pub open spec fn is_updated_history(
    param: MessageHistoryParam,
    results: Seq<IncomingMessageInfo>,
    positions: Seq<usize>,
    old: Map<u128, ApiHistoryEntry<MessageInfo, ()>>,
    new: Map<u128, ApiHistoryEntry<MessageInfo, ()>>,
) -> bool {
    &&& forall|k: u128| #[trigger] new.contains_key(k) <==> keys_of(results, positions).contains(k)
    &&& forall|k: u128|
        #[trigger] new.contains_key(k) ==> is_updated_history_entry(param, results, positions, old, k, new[k])
}

/// Updates the message history from the messages that the API returned: sorts them (in
/// place) into history order, drops the expired ones, drops kept messages whose SID is no longer among the
/// rest, refreshes the ages (and texts) of the kept ones, and adds the new ones.
pub fn update_message_history(
    list: &mut ApiHistoryList<MessageInfo, ()>,
    api_results: &mut Vec<IncomingMessageInfo>,
    param: &MessageHistoryParam,
)
    requires
        old(list).wf(),
        forall|k: u128| #[trigger] old(list)@.contains_key(k) ==> sender_formattable(old(list)@[k].item),
        forall|i: int| 0 <= i < old(api_results)@.len() ==> offshore_formattable(*param, #[trigger] old(api_results)@[i]),
    ensures
        final(list).wf(),
        final(list).max_items_spec() == old(list).max_items_spec(),
        forall|k: u128| #[trigger] final(list)@.contains_key(k) ==> sender_formattable(final(list)@[k].item),
        exists|order: Seq<usize>|
            #[trigger] is_message_order(old(api_results)@, order) && is_updated_history(
                *param,
                old(api_results)@,
                unexpired_positions(old(api_results)@, order, param.curr_history_cutoff_time),
                old(list)@,
                final(list)@,
            ) && final(api_results)@ == permuted(old(api_results)@, order),
{
    let ghost start = list@;
    let ghost given = api_results@;
    let order = message_order(api_results);
    let (positions, keys) = unexpired_in_order(api_results, &order, param);
    list.retain_present_keys(&keys);
    let ghost retained = list@;
    proof {
        assert forall|k: u128| #[trigger] retained.contains_key(k) implies sender_formattable(retained[k].item) by {
            assert(start.contains_key(k));
            assert(retained[k] == crate::api_history_list::retained_entry(start[k], keys@));
            assert(retained[k].item == start[k].item);
        }
    }
    refresh_kept(list, param);
    let ghost refreshed = list@;
    proof {
        assert forall|k: u128| #[trigger] refreshed.contains_key(k) implies is_first_position(keys@, k, refreshed[k].index as int) by {
            assert(is_refreshed_entry(*param, retained[k], refreshed[k]));
        }
        list.lemma_keys_match();
    }
    add_new_messages(list, api_results, &positions, &keys, param);
    proof {
        let final_map = list@;
        let pos = positions@;
        assert forall|k: u128| #[trigger] final_map.contains_key(k) <==> keys_of(api_results@, pos).contains(k) by {
            if final_map.contains_key(k) && refreshed.contains_key(k) {
                assert(retained.contains_key(k));
            }
        }
        assert forall|k: u128| #[trigger] final_map.contains_key(k) implies sender_formattable(final_map[k].item) by {
            if refreshed.contains_key(k) {
                assert(is_refreshed_entry(*param, retained[k], refreshed[k]));
            }
        }
        assert forall|k: u128| #[trigger] final_map.contains_key(k) implies is_updated_history_entry(
            *param,
            api_results@,
            pos,
            start,
            k,
            final_map[k],
        ) by {
            if refreshed.contains_key(k) {
                assert(is_refreshed_entry(*param, retained[k], refreshed[k]));
                assert(final_map[k] == refreshed[k]);
                assert(start.contains_key(k));
            } else {
                if start.contains_key(k) {
                    assert(keys@.contains(k));
                    assert(retained.contains_key(k));
                }
            }
        }
    }
    proof {
        lemma_message_order_distinct(given, order@);
    }
    permute_in_place(api_results, &order);
    assert(is_message_order(given, order@));
}

/// `s` rearranged so that its element at position `order[i]` comes `i`-th.
pub open spec fn permuted<T>(s: Seq<T>, order: Seq<usize>) -> Seq<T> {
    order.map_values(|i: usize| s[i as int])
}

/// A history order lists no position twice.
proof fn lemma_message_order_distinct(results: Seq<IncomingMessageInfo>, order: Seq<usize>)
    requires
        is_message_order(results, order),
    ensures
        forall|i: int, j: int| 0 <= i < j < order.len() ==> order[i] != order[j],
{
    assert forall|i: int, j: int| 0 <= i < j < order.len() implies order[i] != order[j] by {
        assert(message_before(results[order[i] as int], order[i] as int, results[order[j] as int], order[j] as int));
    }
}

/// Rearranges `v` in place so that its element at position `order[i]` comes `i`-th, where
/// `order` lists each position of `v` once. The elements are moved, not copied.
fn permute_in_place<T>(v: &mut Vec<T>, order: &Vec<usize>)
    requires
        order@.len() == old(v)@.len(),
        forall|i: int| 0 <= i < order@.len() ==> #[trigger] order@[i] < old(v)@.len(),
        forall|i: int, j: int| 0 <= i < j < order@.len() ==> order@[i] != order@[j],
    ensures
        final(v)@ == permuted(old(v)@, order@),
{
    let ghost orig = v@;
    let n = v.len();
    let mut taken: Vec<T> = Vec::new();
    std::mem::swap(v, &mut taken);
    // Each element in a slot of its own, in the order given
    let mut slots: Vec<Option<T>> = Vec::new();
    while taken.len() > 0
        invariant
            n == orig.len(),
            taken@.len() + slots@.len() == n,
            taken@ == orig.subrange(0, taken@.len() as int),
            forall|i: int| 0 <= i < slots@.len() ==> #[trigger] slots@[i] == Some(orig[taken@.len() + i]),
        decreases taken@.len(),
    {
        let ghost before = slots@;
        match taken.pop() {
            Some(x) => {
                slots.insert(0, Some(x));
                proof {
                    assert forall|i: int| 0 <= i < slots@.len() implies #[trigger] slots@[i] == Some(orig[taken@.len() + i]) by {
                        if i > 0 {
                            assert(slots@[i] == before[i - 1]);
                        }
                    }
                }
            },
            None => {},
        }
    }
    // Moving each element out of its slot, in the new order
    let mut result: Vec<T> = Vec::new();
    let mut t: usize = 0;
    while t < n
        invariant
            n == orig.len(),
            n == order@.len(),
            slots@.len() == n,
            t <= n,
            forall|i: int| 0 <= i < order@.len() ==> #[trigger] order@[i] < n,
            forall|i: int, j: int| 0 <= i < j < order@.len() ==> order@[i] != order@[j],
            forall|i: int|
                0 <= i < n ==> #[trigger] slots@[i] == if order@.subrange(0, t as int).contains(i as usize) {
                    None
                } else {
                    Some(orig[i])
                },
            result@ == permuted(orig, order@.subrange(0, t as int)),
        decreases n - t,
    {
        let idx = order[t];
        proof {
            assert(!order@.subrange(0, t as int).contains(idx)) by {
                if order@.subrange(0, t as int).contains(idx) {
                    let prev = order@.subrange(0, t as int);
                    let k = choose|k: int| 0 <= k < prev.len() && #[trigger] prev[k] == idx;
                    assert(order@[k] == order@[t as int]);
                }
            }
        }
        let slot = slots.remove(idx);
        slots.insert(idx, None);
        let ghost r0 = result@;
        match slot {
            Some(x) => {
                result.push(x);
            },
            None => {},
        }
        proof {
            let prev = order@.subrange(0, t as int);
            let next = order@.subrange(0, t + 1);
            assert(next =~= prev.push(idx));
            assert(result@ =~= permuted(orig, next));
            assert forall|i: int| 0 <= i < n implies #[trigger] slots@[i] == if next.contains(i as usize) {
                None
            } else {
                Some(orig[i])
            } by {
                if i != idx {
                    if next.contains(i as usize) {
                        let k = choose|k: int| 0 <= k < next.len() && #[trigger] next[k] == i as usize;
                        assert(prev[k] == i as usize);
                    }
                    if prev.contains(i as usize) {
                        let k = choose|k: int| 0 <= k < prev.len() && #[trigger] prev[k] == i as usize;
                        assert(next[k] == i as usize);
                    }
                } else {
                    assert(next[t as int] == idx);
                }
            }
        }
        t = t + 1;
    }
    assert(order@.subrange(0, n as int) =~= order@);
    *v = result;
}

//////////

proof fn lemma_orders_equal(
    results: Seq<IncomingMessageInfo>,
    o1: Seq<usize>,
    o2: Seq<usize>,
)
    requires
        forall|i: int, j: int|
            0 <= i < j < o1.len() ==> message_before(
                results[#[trigger] o1[i] as int],
                o1[i] as int,
                results[#[trigger] o1[j] as int],
                o1[j] as int,
            ),
        forall|i: int, j: int|
            0 <= i < j < o2.len() ==> message_before(
                results[#[trigger] o2[i] as int],
                o2[i] as int,
                results[#[trigger] o2[j] as int],
                o2[j] as int,
            ),
        forall|x: usize| #![trigger o1.contains(x)] #![trigger o2.contains(x)] o1.contains(x) <==> o2.contains(x),
    ensures
        o1 == o2,
    decreases o1.len(),
{
    if o1.len() == 0 {
        if o2.len() > 0 {
            assert(o2.contains(o2[0]));
        }
        assert(o1 =~= o2);
    } else {
        assert(o1.contains(o1[0]));
        assert(o2.len() > 0);
        assert(o2.contains(o2[0]));
        let i = choose|i: int| 0 <= i < o1.len() && o1[i] == o2[0];
        let j = choose|j: int| 0 <= j < o2.len() && o2[j] == o1[0];
        if o1[0] != o2[0] {
            assert(i > 0 && j > 0);
            assert(message_before(results[o1[0] as int], o1[0] as int, results[o1[i] as int], o1[i] as int));
            assert(message_before(results[o2[0] as int], o2[0] as int, results[o2[j] as int], o2[j] as int));
        }
        let r1 = o1.drop_first();
        let r2 = o2.drop_first();
        assert forall|x: usize| #![trigger r1.contains(x)] #![trigger r2.contains(x)] r1.contains(x) <==> r2.contains(x) by {
            if r1.contains(x) {
                let a = choose|a: int| 0 <= a < r1.len() && r1[a] == x;
                assert(o1[a + 1] == x);
                assert(message_before(results[o1[0] as int], o1[0] as int, results[o1[a + 1] as int], o1[a + 1] as int));
                assert(o2.contains(x));
                let b = choose|b: int| 0 <= b < o2.len() && o2[b] == x;
                assert(b != 0);
                assert(r2[b - 1] == x);
            }
            if r2.contains(x) {
                let a = choose|a: int| 0 <= a < r2.len() && r2[a] == x;
                assert(o2[a + 1] == x);
                assert(message_before(results[o2[0] as int], o2[0] as int, results[o2[a + 1] as int], o2[a + 1] as int));
                assert(o1.contains(x));
                let b = choose|b: int| 0 <= b < o1.len() && o1[b] == x;
                assert(b != 0);
                assert(r1[b - 1] == x);
            }
        }
        assert forall|a: int, b: int| 0 <= a < b < r1.len() implies message_before(
            results[#[trigger] r1[a] as int],
            r1[a] as int,
            results[#[trigger] r1[b] as int],
            r1[b] as int,
        ) by {
            assert(r1[a] == o1[a + 1] && r1[b] == o1[b + 1]);
        }
        assert forall|a: int, b: int| 0 <= a < b < r2.len() implies message_before(
            results[#[trigger] r2[a] as int],
            r2[a] as int,
            results[#[trigger] r2[b] as int],
            r2[b] as int,
        ) by {
            assert(r2[a] == o2[a + 1] && r2[b] == o2[b + 1]);
        }
        lemma_orders_equal(results, r1, r2);
        assert(o1 =~= seq![o1[0]] + r1);
        assert(o2 =~= seq![o2[0]] + r2);
    }
}

/// The history order of a list of API results is unique: however the results come, an
/// update places each message at one determined position.
pub proof fn law_message_order_unique(results: Seq<IncomingMessageInfo>, o1: Seq<usize>, o2: Seq<usize>)
    requires
        is_message_order(results, o1),
        is_message_order(results, o2),
    ensures
        o1 == o2,
{
    assert forall|x: usize| #![trigger o1.contains(x)] #![trigger o2.contains(x)] o1.contains(x) <==> o2.contains(x) by {
        if o1.contains(x) {
            let a = choose|a: int| 0 <= a < o1.len() && o1[a] == x;
            assert(o1[a] < results.len());
        }
        if o2.contains(x) {
            let a = choose|a: int| 0 <= a < o2.len() && o2[a] == x;
            assert(o2[a] < results.len());
        }
    }
    lemma_orders_equal(results, o1, o2);
}

/// Updating the history twice at the same time with the same results changes nothing the
/// second time: no message counts as updated, and every text stays as it was.
pub proof fn law_repeated_update_changes_nothing(
    param: MessageHistoryParam,
    results: Seq<IncomingMessageInfo>,
    positions: Seq<usize>,
    m0: Map<u128, ApiHistoryEntry<MessageInfo, ()>>,
    m1: Map<u128, ApiHistoryEntry<MessageInfo, ()>>,
    m2: Map<u128, ApiHistoryEntry<MessageInfo, ()>>,
)
    requires
        is_updated_history(param, results, positions, m0, m1),
        is_updated_history(param, results, positions, m1, m2),
    ensures
        m2.dom() == m1.dom(),
        forall|k: u128| #[trigger] m2.contains_key(k) ==> !m2[k].just_updated && m2[k].item.display_text@
            == m1[k].item.display_text@ && m2[k].index == m1[k].index,
{
    assert(m2.dom() =~= m1.dom());
    assert forall|k: u128| #[trigger] m2.contains_key(k) implies !m2[k].just_updated && m2[k].item.display_text@
        == m1[k].item.display_text@ && m2[k].index == m1[k].index by {
        assert(m1.contains_key(k));
        assert(is_updated_history_entry(param, results, positions, m0, k, m1[k]));
        assert(is_updated_history_entry(param, results, positions, m1, k, m2[k]));
        if m0.contains_key(k) {
        } else {
            let r = results[positions[m1[k].index as int] as int];
            assert(is_new_local(param, r, m1[k].item));
        }
        lemma_first_position_unique(keys_of(results, positions), k, m1[k].index as int, m2[k].index as int);
    }
}

//////////

/// A Twilio SID read as a number: what follows its first two bytes (the prefix, such as `SM`),
/// read in base 16 (as `u128::from_str_radix` reads it); `None` if the SID is not 34 bytes long
/// (in UTF-8), or the rest is not a hexadecimal number.
pub open spec fn sid_spec(text: Seq<char>) -> Option<u128> {
    if utf8_len(text) == 34 {
        match unsigned_text_value(text.skip(char_position(text, 2)), 16) {
            Some(v) => Some(v as u128),
            None => None,
        }
    } else {
        None
    }
}

/// A SID can be read when, if it is 34 bytes long, its first two bytes end on a character
/// boundary (where it is cut).
pub open spec fn sid_is_readable(text: Seq<char>) -> bool {
    utf8_len(text) == 34 ==> is_char_boundary(text, 2)
}

/// Whether `parse_sid` can read `text`.
pub fn can_parse_sid(text: &str) -> (res: bool)
    ensures
        res == sid_is_readable(text@),
{
    !is_34_bytes_long(text) || char_position_of_byte(text, 2).is_some()
}

/// Whether `text` is 34 bytes long (in UTF-8).
fn is_34_bytes_long(text: &str) -> (res: bool)
    ensures
        res == (utf8_len(text@) == 34),
{
    let n = text.unicode_len();
    proof {
        lemma_end_is_char_boundary(text@);
        assert(text@.take(n as int) =~= text@);
    }
    match char_position_of_byte(text, 34) {
        Some(k) => {
            if k < n {
                proof {
                    lemma_utf8_len_take_increases(text@, k as int, n as int);
                }
            }
            k == n
        },
        None => false,
    }
}

/// Reads a Twilio SID (such as `SM0123456789abcdef0123456789abcdef`) as a number.
pub fn parse_sid(text: &str) -> (res: Option<u128>)
    requires
        sid_is_readable(text@),
    ensures
        res == sid_spec(text@),
{
    if !is_34_bytes_long(text) {
        return None;
    }
    let n = text.unicode_len();
    let k2 = boundary_position(text, 2);
    let digits = text.substring_char(k2, n);
    proof {
        let c = char_position(text@, 2);
        assert(is_char_boundary_at(text@, 2, c));
        lemma_utf8_len_split(text@, k2 as int);
        lemma_chars_at_most_bytes(text@.skip(k2 as int));
        assert(digits@ =~= text@.skip(k2 as int));
    }
    parse_hex_u128(digits)
}

/// Base64 of the UTF-8 bytes of `input`, in the standard alphabet with padding.
pub uninterp spec fn base64_standard_encoding(input: Seq<char>) -> Seq<char>;

/// `base64::engine::general_purpose::STANDARD.encode` on the bytes of a string. The result is
/// named, not stated: it is claimed to depend on the string alone.
#[verifier::external_body]
fn base64_encode(input: &str) -> (res: String)
    ensures
        res@ == base64_standard_encoding(input@),
{
    base64::Engine::encode(&base64::engine::general_purpose::STANDARD, input)
}

/// The `Authorization` header value for the Twilio API: HTTP basic authentication with the
/// account SID and auth token.
pub fn make_request_auth(account_sid: &str, auth_token: &str) -> (res: String)
    ensures
        res@ == "Basic "@ + base64_standard_encoding(account_sid@ + ":"@ + auth_token@),
{
    let mut credentials = String::from_str(account_sid);
    push_str(&mut credentials, ":");
    push_str(&mut credentials, auth_token);
    let encoded = base64_encode(credentials.as_str());
    let mut res = String::from_str("Basic ");
    push_str(&mut res, encoded.as_str());
    res
}

/// The URL of a Twilio API endpoint of an account.
pub fn twilio_endpoint_url(account_sid: &str, endpoint: &str) -> (res: String)
    ensures
        res@ == "https://api.twilio.com/2010-04-01/Accounts/"@ + account_sid@ + "/"@ + endpoint@
            + ".json"@,
{
    let mut res = String::from_str("https://api.twilio.com/2010-04-01/Accounts/");
    push_str(&mut res, account_sid);
    push_str(&mut res, "/");
    push_str(&mut res, endpoint);
    push_str(&mut res, ".json");
    res
}

/// The query of the request for the messages sent to `phone_number`: at most `page_size` of
/// them, sent after the UTC day of `cutoff_time` (the `%3E` is a URL-encoded `>`).
pub fn messages_query_params(phone_number: &str, page_size: &str, cutoff_time: i64) -> (res: Vec<
    (String, String),
>)
    ensures
        res@.len() == 3,
        res@[0].0@ == "To"@ && res@[0].1@ == phone_number@,
        res@[1].0@ == "PageSize"@ && res@[1].1@ == page_size@,
        res@[2].0@ == "DateSent%3E"@ && res@[2].1@ == utc_calendar_date(cutoff_time),
{
    let mut res: Vec<(String, String)> = Vec::new();
    res.push((String::from_str("To"), String::from_str(phone_number)));
    res.push((String::from_str("PageSize"), String::from_str(page_size)));
    res.push((String::from_str("DateSent%3E"), utc_date(cutoff_time)));
    res
}

/// The settings of the Twilio history that stay fixed (the duration in nanoseconds).
#[derive(Clone, Debug)]
pub struct TwilioConfig {
    pub account_sid: String,
    pub request_auth: String,
    pub max_num_messages_in_history_as_string: String,
    pub max_num_messages_in_history: usize,
    pub message_history_duration: i64,
    pub reveal_texter_identities: bool,
}

impl TwilioConfig {
    pub fn new(
        account_sid: &str,
        auth_token: &str,
        max_num_messages_in_history: usize,
        message_history_duration: i64,
        reveal_texter_identities: bool,
    ) -> (res: TwilioConfig)
        ensures
            res.account_sid@ == account_sid@,
            res.request_auth@ == "Basic "@ + base64_standard_encoding(account_sid@ + ":"@ + auth_token@),
            res.max_num_messages_in_history_as_string@ == decimal_spec(max_num_messages_in_history as nat),
            res.max_num_messages_in_history == max_num_messages_in_history,
            res.message_history_duration == message_history_duration,
            res.reveal_texter_identities == reveal_texter_identities,
    {
        let mut max_as_string = String::new();
        push_decimal(&mut max_as_string, max_num_messages_in_history as u64);
        proof {
            assert(max_as_string@ =~= decimal_spec(max_num_messages_in_history as nat));
        }
        TwilioConfig {
            account_sid: String::from_str(account_sid),
            request_auth: make_request_auth(account_sid, auth_token),
            max_num_messages_in_history_as_string: max_as_string,
            max_num_messages_in_history,
            message_history_duration,
            reveal_texter_identities,
        }
    }

    /// What an update at `curr_time` goes by: the history reaches back the configured
    /// duration from then.
    pub fn history_param(&self, curr_time: i64) -> (res: MessageHistoryParam)
        requires
            i64::MIN <= curr_time - self.message_history_duration <= i64::MAX,
        ensures
            res.curr_time == curr_time,
            res.curr_history_cutoff_time == curr_time - self.message_history_duration,
            res.reveal_texter_identities == self.reveal_texter_identities,
    {
        MessageHistoryParam {
            curr_time,
            curr_history_cutoff_time: curr_time - self.message_history_duration,
            reveal_texter_identities: self.reveal_texter_identities,
        }
    }
}

/// The title shown above the messages: `Messages to +1 (207) 555-0123:`.
pub fn messages_to_title(number: &str) -> (res: String)
    requires
        is_formattable_phone_number(number@),
    ensures
        res@ == phone_number_text(number@, "Messages to "@, ":"@, ""@),
{
    format_phone_number(number, "Messages to ", ":", "")
}

/// The text of a message in the plain history layout: its age and body, then `. `
/// (`2 mins ago: 'hi'. `).
pub fn make_plain_message_display_text(age_data: Option<MessageAge>, body: &str) -> (res: String)
    ensures
        res@ == aged_body_text(age_data, body@) + ". "@,
{
    let mut text = String::new();
    match age_data {
        Some(age) => {
            push_signed_decimal(&mut text, age.amount);
            push_str(&mut text, " ");
            push_str(&mut text, age.unit.name());
            if age.amount != 1 {
                push_str(&mut text, "s");
            }
            push_str(&mut text, " ago: '");
        },
        None => {
            push_str(&mut text, "Right now: '");
        },
    }
    push_str(&mut text, body);
    push_str(&mut text, "'. ");
    proof {
        assert(text@ =~= aged_body_text(age_data, body@) + ". "@) by {
            reveal_strlit("'. ");
            reveal_strlit("'");
            reveal_strlit(". ");
        }
    }
    text
}

/// A message's age is told in the largest unit of which it is at least one whole: at least
/// one of that unit, and less than one of the next larger unit.
pub proof fn law_message_age_uses_largest_unit(curr_time: i64, time_sent: i64)
    requires
        message_age_spec(curr_time as int, time_sent as int) is Some,
    ensures
        ({
            let age = message_age_spec(curr_time as int, time_sent as int)->0;
            &&& age.amount >= 1
            &&& age.unit == AgeUnit::Day ==> age.amount < 7
            &&& age.unit == AgeUnit::Hour ==> age.amount < 24
            &&& age.unit == AgeUnit::Min ==> age.amount < 60
            &&& age.unit == AgeUnit::Sec ==> age.amount < 60
        }),
{
    let d = curr_time - time_sent;
    let secs = whole_seconds(d);
    let mins = trunc_div(secs, 60);
    let hours = trunc_div(secs, 3600);
    let days = trunc_div(secs, 86400);
    let weeks = trunc_div(days, 7);
    if secs > 0 {
        assert(secs <= d / 1_000_000_000);
        assert(d / 1_000_000_000 <= 20_000_000_000int) by (nonlinear_arith)
            requires
                0 <= d <= 0x1_0000_0000_0000_0000int,
        ;
        assert(mins == secs / 60 && hours == secs / 3600 && days == secs / 86400);
        assert(weeks == days / 7);
        assert(secs / 60 < 60 || secs / 3600 >= 1) by (nonlinear_arith)
            requires
                secs > 0,
        ;
        assert(secs / 3600 < 24 || secs / 86400 >= 1) by (nonlinear_arith)
            requires
                secs > 0,
        ;
        assert(secs < 60 || secs / 60 >= 1) by (nonlinear_arith)
            requires
                secs > 0,
        ;
        assert(days / 7 < 1 ==> days < 7) by (nonlinear_arith)
            requires
                days >= 0,
        ;
        assert(secs / 60 >= 0 && secs / 3600 >= 0 && secs / 86400 >= 0) by (nonlinear_arith)
            requires
                secs > 0,
        ;
    } else {
        assert(mins <= 0 && hours <= 0 && days <= 0) by (nonlinear_arith)
            requires
                secs <= 0,
                mins == trunc_div(secs, 60),
                hours == trunc_div(secs, 3600),
                days == trunc_div(secs, 86400),
        ;
        assert(weeks <= 0) by (nonlinear_arith)
            requires
                days <= 0,
                weeks == trunc_div(days, 7),
        ;
    }
}

/// The names of the units in which a message's age is told, one each.
pub proof fn law_age_unit_names()
    ensures
        age_unit_name(AgeUnit::Week) == "week"@,
        age_unit_name(AgeUnit::Day) == "day"@,
        age_unit_name(AgeUnit::Hour) == "hour"@,
        age_unit_name(AgeUnit::Min) == "min"@,
        age_unit_name(AgeUnit::Sec) == "sec"@,
        forall|u1: AgeUnit, u2: AgeUnit| u1 != u2 ==> #[trigger] age_unit_name(u1) != #[trigger] age_unit_name(u2),
{
    reveal_strlit("week");
    reveal_strlit("day");
    reveal_strlit("hour");
    reveal_strlit("min");
    reveal_strlit("sec");
    assert("week"@.len() != "day"@.len());
    assert("week"@[0] != "hour"@[0]);
    assert("week"@.len() != "min"@.len());
    assert("week"@.len() != "sec"@.len());
    assert("day"@.len() != "hour"@.len());
    assert("day"@[0] != "min"@[0]);
    assert("day"@[0] != "sec"@[0]);
    assert("hour"@.len() != "min"@.len());
    assert("hour"@.len() != "sec"@.len());
    assert("min"@[0] != "sec"@[0]);
}

/// A message's age is told in weeks once it is a week old, in days from a day old, in hours
/// from an hour old, in minutes from a minute old, in seconds from a second old, and as "Right
/// now" before that (or for a message from the future); the text reads like "2 days ago".
pub proof fn law_age_is_told_in_the_unit_of_its_range(curr_time: i64, time_sent: i64, body: Seq<char>)
    ensures
        ({
            let secs = whole_seconds(curr_time - time_sent);
            let age = message_age_spec(curr_time as int, time_sent as int);
            &&& secs >= 604800 ==> age == Some(MessageAge { unit: AgeUnit::Week, amount: (secs / 604800) as i64 })
                && aged_body_text(age, body) == signed_decimal_spec(secs / 604800) + " "@ + "week"@ + (if secs / 604800 == 1 {
                    Seq::<char>::empty()
                } else {
                    "s"@
                }) + " ago: '"@ + body + "'"@
            &&& 86400 <= secs < 604800 ==> age == Some(MessageAge { unit: AgeUnit::Day, amount: (secs / 86400) as i64 })
                && aged_body_text(age, body) == signed_decimal_spec(secs / 86400) + " "@ + "day"@ + (if secs / 86400 == 1 {
                    Seq::<char>::empty()
                } else {
                    "s"@
                }) + " ago: '"@ + body + "'"@
            &&& 3600 <= secs < 86400 ==> age == Some(MessageAge { unit: AgeUnit::Hour, amount: (secs / 3600) as i64 })
                && aged_body_text(age, body) == signed_decimal_spec(secs / 3600) + " "@ + "hour"@ + (if secs / 3600 == 1 {
                    Seq::<char>::empty()
                } else {
                    "s"@
                }) + " ago: '"@ + body + "'"@
            &&& 60 <= secs < 3600 ==> age == Some(MessageAge { unit: AgeUnit::Min, amount: (secs / 60) as i64 })
                && aged_body_text(age, body) == signed_decimal_spec(secs / 60) + " "@ + "min"@ + (if secs / 60 == 1 {
                    Seq::<char>::empty()
                } else {
                    "s"@
                }) + " ago: '"@ + body + "'"@
            &&& 1 <= secs < 60 ==> age == Some(MessageAge { unit: AgeUnit::Sec, amount: (secs) as i64 })
                && aged_body_text(age, body) == signed_decimal_spec(secs) + " "@ + "sec"@ + (if secs == 1 {
                    Seq::<char>::empty()
                } else {
                    "s"@
                }) + " ago: '"@ + body + "'"@
            &&& secs < 1 ==> age is None && aged_body_text(age, body) == "Right now: '"@ + body + "'"@
        }),
{
    let d = curr_time - time_sent;
    let secs = whole_seconds(d);
    if secs > 0 {
        assert(secs <= d / 1_000_000_000);
        assert(d / 1_000_000_000 <= 20_000_000_000int) by (nonlinear_arith)
            requires
                0 <= d <= 0x1_0000_0000_0000_0000int,
        ;
        assert((secs / 86400) / 7 == secs / 604800) by (nonlinear_arith)
            requires
                secs > 0,
        ;
        assert(secs >= 604800 ==> secs / 604800 >= 1) by (nonlinear_arith)
            requires
                secs > 0,
        ;
        assert(secs < 604800 ==> secs / 604800 == 0) by (nonlinear_arith)
            requires
                secs > 0,
        ;
        assert(secs >= 86400 ==> secs / 86400 >= 1) by (nonlinear_arith)
            requires
                secs > 0,
        ;
        assert(secs < 86400 ==> secs / 86400 == 0) by (nonlinear_arith)
            requires
                secs > 0,
        ;
        assert(secs >= 3600 ==> secs / 3600 >= 1) by (nonlinear_arith)
            requires
                secs > 0,
        ;
        assert(secs < 3600 ==> secs / 3600 == 0) by (nonlinear_arith)
            requires
                secs > 0,
        ;
        assert(secs >= 60 ==> secs / 60 >= 1) by (nonlinear_arith)
            requires
                secs > 0,
        ;
        assert(secs < 60 ==> secs / 60 == 0) by (nonlinear_arith)
            requires
                secs > 0,
        ;
    } else {
        assert(trunc_div(secs, 60) <= 0 && trunc_div(secs, 3600) <= 0 && trunc_div(secs, 86400) <= 0) by (nonlinear_arith)
            requires
                secs <= 0,
        ;
        assert(trunc_div(trunc_div(secs, 86400), 7) <= 0) by (nonlinear_arith)
            requires
                trunc_div(secs, 86400) <= 0,
        ;
    }
}

} // verus!
