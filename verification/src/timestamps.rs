use vstd::prelude::*;
use vstd::string::*;
use crate::text::push_str;
use crate::utf8::{char_position, is_char_boundary, is_char_boundary_at, lemma_char_boundary_unique, lemma_end_is_char_boundary,
    lemma_utf8_len_take_increases, utf8_char_len, utf8_char_len_exec, utf8_len};

verus! {

/// The instant that `text` gives in RFC 2822 form, in nanoseconds since the Unix epoch; `None`
/// if `text` is not RFC 2822 or the instant is outside the range of `i64` nanoseconds.
pub uninterp spec fn rfc2822_instant(text: Seq<char>) -> Option<i64>;

/// The instant that `text` gives in RFC 3339 form, in nanoseconds since the Unix epoch; `None`
/// if `text` is not RFC 3339 or the instant is outside the range of `i64` nanoseconds.
pub uninterp spec fn rfc3339_instant(text: Seq<char>) -> Option<i64>;

/// The UTC calendar date (`YYYY-MM-DD`) of an instant given in nanoseconds since the Unix
/// epoch.
pub uninterp spec fn utc_calendar_date(nanos: i64) -> Seq<char>;

/// `chrono::DateTime::parse_from_rfc2822`, with the instant it reads taken in nanoseconds
/// (`DateTime::timestamp_nanos_opt`). The result is named, not stated: it is claimed to depend
/// on the text alone.
#[verifier::external_body]
fn chrono_parse_rfc2822(text: &str) -> (res: Option<i64>)
    ensures
        res == rfc2822_instant(text@),
{
    match chrono::DateTime::parse_from_rfc2822(text) {
        Ok(t) => t.timestamp_nanos_opt(),
        Err(_) => None,
    }
}

/// `chrono::DateTime::parse_from_rfc3339`, with the instant it reads taken in nanoseconds
/// (`DateTime::timestamp_nanos_opt`). The result is named, not stated: it is claimed to depend
/// on the text alone.
#[verifier::external_body]
fn chrono_parse_rfc3339(text: &str) -> (res: Option<i64>)
    ensures
        res == rfc3339_instant(text@),
{
    match chrono::DateTime::parse_from_rfc3339(text) {
        Ok(t) => t.timestamp_nanos_opt(),
        Err(_) => None,
    }
}

/// The UTC date of an instant, formatted by chrono as `%Y-%m-%d`
/// (`chrono::DateTime::from_timestamp_nanos`, then `format`). The result is named, not stated:
/// it is claimed to depend on the instant alone.
#[verifier::external_body]
fn chrono_utc_date(nanos: i64) -> (res: String)
    ensures
        res@ == utc_calendar_date(nanos),
{
    chrono::DateTime::from_timestamp_nanos(nanos).format("%Y-%m-%d").to_string()
}

/// Reads an RFC 2822 timestamp (as the Twilio API writes them) into nanoseconds since the Unix
/// epoch.
pub fn parse_rfc2822_timestamp(text: &str) -> (res: Option<i64>)
    ensures
        res == rfc2822_instant(text@),
{
    chrono_parse_rfc2822(text)
}

/// Reads an RFC 3339 timestamp (as the weather API writes them) into nanoseconds since the Unix
/// epoch.
pub fn parse_rfc3339_timestamp(text: &str) -> (res: Option<i64>)
    ensures
        res == rfc3339_instant(text@),
{
    chrono_parse_rfc3339(text)
}

/// Spinitron writes its timestamps' UTC offsets without a colon (`+0000`): this puts one two
/// bytes (in UTF-8) before the end, giving RFC 3339 (`+00:00`).
pub open spec fn spinitron_timestamp_fixup(text: Seq<char>) -> Seq<char> {
    let k = char_position(text, utf8_len(text) - 2);
    text.take(k) + ":"@ + text.skip(k)
}

/// A colon can go two bytes before the end of `text`: it is at least two bytes long, and the
/// byte two before its end is on a character boundary.
pub open spec fn is_fixable_spinitron_timestamp(text: Seq<char>) -> bool {
    utf8_len(text) >= 2 && is_char_boundary(text, utf8_len(text) - 2)
}

/// Two bytes before the end of a text is where its last character starts, if that character
/// takes two bytes, or where its second to last one starts, if the last two take one byte
/// each; otherwise it is inside a character, or before the start.
proof fn lemma_two_bytes_before_end(text: Seq<char>)
    ensures
        text.len() >= 1 && utf8_char_len(text.last()) == 2 ==> is_char_boundary_at(
            text,
            utf8_len(text) - 2,
            text.len() - 1,
        ),
        text.len() >= 2 && utf8_char_len(text.last()) == 1 && utf8_char_len(text[text.len() - 2]) == 1
            ==> is_char_boundary_at(text, utf8_len(text) - 2, text.len() - 2),
        is_fixable_spinitron_timestamp(text) <==> (text.len() >= 1 && utf8_char_len(text.last()) == 2) || (
        text.len() >= 2 && utf8_char_len(text.last()) == 1 && utf8_char_len(text[text.len() - 2]) == 1),
{
    let n = text.len() as int;
    let u = utf8_len(text) as int;
    lemma_end_is_char_boundary(text);
    if n >= 1 {
        assert(text.take(n - 1) =~= text.drop_last());
        assert(utf8_len(text.take(n - 1)) == u - utf8_char_len(text.last()));
    }
    if n >= 2 {
        assert(text.take(n - 2) =~= text.take(n - 1).drop_last());
        assert(text.take(n - 1).last() == text[n - 2]);
    }
    let nice = (n >= 1 && utf8_char_len(text.last()) == 2) || (n >= 2 && utf8_char_len(text.last()) == 1
        && utf8_char_len(text[n - 2]) == 1);
    if !nice && utf8_len(text) >= 2 {
        // Find the character positions on either side of byte `u - 2`
        assert forall|k: int| !#[trigger] is_char_boundary_at(text, u - 2, k) by {
            if 0 <= k <= n && utf8_len(text.take(k)) == u - 2 {
                if k == n {
                } else if k == n - 1 {
                } else {
                    assert(n >= 2);
                    lemma_utf8_len_take_increases(text, k, n - 2);
                    if k < n - 2 {
                        assert(utf8_len(text.take(k)) < utf8_len(text.take(n - 2)));
                    }
                }
            }
        }
    }
}

/// Whether a colon can go two bytes before the end of `text` (see
/// `is_fixable_spinitron_timestamp`).
pub fn can_fix_spinitron_timestamp(text: &str) -> (res: bool)
    ensures
        res == is_fixable_spinitron_timestamp(text@),
{
    proof {
        lemma_two_bytes_before_end(text@);
    }
    let n = text.unicode_len();
    if n == 0 {
        return false;
    }
    let last_len = utf8_char_len_exec(text.get_char(n - 1));
    last_len == 2 || (last_len == 1 && n >= 2 && utf8_char_len_exec(text.get_char(n - 2)) == 1)
}

/// Reads a Spinitron timestamp into nanoseconds since the Unix epoch.
pub fn parse_spinitron_timestamp(text: &str) -> (res: Option<i64>)
    requires
        is_fixable_spinitron_timestamp(text@),
    ensures
        res == rfc3339_instant(spinitron_timestamp_fixup(text@)),
{
    proof {
        lemma_two_bytes_before_end(text@);
    }
    let n = text.unicode_len();
    let k = if utf8_char_len_exec(text.get_char(n - 1)) == 2 {
        n - 1
    } else {
        n - 2
    };
    proof {
        let u = utf8_len(text@) - 2;
        let c = char_position(text@, u);
        assert(is_char_boundary_at(text@, u, c));
        lemma_char_boundary_unique(text@, u, k as int, c);
    }
    let mut fixed = String::from_str(text.substring_char(0, k));
    push_str(&mut fixed, ":");
    push_str(&mut fixed, text.substring_char(k, n));
    proof {
        assert(fixed@ =~= spinitron_timestamp_fixup(text@));
    }
    chrono_parse_rfc3339(fixed.as_str())
}

/// The UTC date (`YYYY-MM-DD`) of an instant given in nanoseconds since the Unix epoch.
pub fn utc_date(nanos: i64) -> (res: String)
    ensures
        res@ == utc_calendar_date(nanos),
{
    chrono_utc_date(nanos)
}

/// The current instant, read from the system clock (`std::time::SystemTime::now`, turned into
/// a `chrono::DateTime<Utc>` by its `From<SystemTime>` impl, which also takes clock readings
/// before the Unix epoch), in nanoseconds since the Unix epoch (`DateTime::timestamp_nanos_opt`;
/// `None` past the range of `i64` nanoseconds). It depends on the clock, so nothing is stated
/// of it.
#[verifier::external_body]
pub(crate) fn utc_now_nanos() -> Option<i64> {
    chrono::DateTime::<chrono::Utc>::from(std::time::SystemTime::now()).timestamp_nanos_opt()
}

/// Division rounding toward zero (for a positive divisor).
pub open spec fn trunc_div(a: int, b: int) -> int {
    if a >= 0 {
        a / b
    } else {
        -((-a) / b)
    }
}

/// The number of whole seconds in a span of nanoseconds, rounded toward zero.
pub open spec fn whole_seconds(nanos: int) -> int {
    trunc_div(nanos, 1_000_000_000)
}

/// Division rounding toward zero, on `i128`.
pub(crate) fn trunc_div_i128(a: i128, b: i128) -> (res: i128)
    requires
        b > 0,
        a > i128::MIN,
    ensures
        res == trunc_div(a as int, b as int),
        a >= 0 ==> 0 <= res && res * b <= a,
        a < 0 ==> res <= 0 && (-res) * b <= -a,
{
    if a >= 0 {
        assert(0 <= a / b && (a / b) * b <= a) by (nonlinear_arith)
            requires
                a >= 0,
                b > 0,
        ;
        a / b
    } else {
        let m = -a;
        assert(0 <= m / b && (m / b) * b <= m) by (nonlinear_arith)
            requires
                m >= 0,
                b > 0,
        ;
        -(m / b)
    }
}

} // verus!
