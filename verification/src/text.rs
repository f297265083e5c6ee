use vstd::prelude::*;
use vstd::string::*;

verus! {

/// Appends one character to a string (`String::push`).
#[verifier::external_body]
pub(crate) fn push_char(s: &mut String, c: char)
    ensures
        final(s)@ == old(s)@.push(c),
{
    s.push(c);
}

/// A character with the Unicode `White_Space` property (what `char::is_whitespace`
/// and `str::trim` go by).
pub open spec fn is_unicode_whitespace(c: char) -> bool {
    let v = c as u32;
    ||| 0x9 <= v <= 0xD
    ||| v == 0x20
    ||| v == 0x85
    ||| v == 0xA0
    ||| v == 0x1680
    ||| 0x2000 <= v <= 0x200A
    ||| v == 0x2028
    ||| v == 0x2029
    ||| v == 0x202F
    ||| v == 0x205F
    ||| v == 0x3000
}

pub fn is_whitespace_char(c: char) -> (res: bool)
    ensures
        res == is_unicode_whitespace(c),
{
    let v = c as u32;
    (0x9 <= v && v <= 0xD) || v == 0x20 || v == 0x85 || v == 0xA0 || v == 0x1680 || (0x2000 <= v
        && v <= 0x200A) || v == 0x2028 || v == 0x2029 || v == 0x202F || v == 0x205F || v == 0x3000
}

/// `s` without its leading whitespace.
pub open spec fn trim_start_spec(s: Seq<char>) -> Seq<char>
    decreases s.len(),
{
    if s.len() > 0 && is_unicode_whitespace(s[0]) {
        trim_start_spec(s.drop_first())
    } else {
        s
    }
}

/// `s` without its trailing whitespace.
pub open spec fn trim_end_spec(s: Seq<char>) -> Seq<char>
    decreases s.len(),
{
    if s.len() > 0 && is_unicode_whitespace(s.last()) {
        trim_end_spec(s.drop_last())
    } else {
        s
    }
}

/// `s` without its leading and trailing whitespace (`str::trim`).
pub open spec fn trim_spec(s: Seq<char>) -> Seq<char> {
    trim_end_spec(trim_start_spec(s))
}

proof fn lemma_trim_start_skip(s: Seq<char>, k: int)
    requires
        0 <= k <= s.len(),
        forall|i: int| 0 <= i < k ==> is_unicode_whitespace(s[i]),
    ensures
        trim_start_spec(s) == trim_start_spec(s.skip(k)),
    decreases k,
{
    if k > 0 {
        assert(s.skip(k) =~= s.drop_first().skip(k - 1));
        lemma_trim_start_skip(s.drop_first(), k - 1);
    } else {
        assert(s.skip(0) =~= s);
    }
}

proof fn lemma_trim_end_take(s: Seq<char>, k: int)
    requires
        0 <= k <= s.len(),
        forall|i: int| k <= i < s.len() ==> is_unicode_whitespace(s[i]),
    ensures
        trim_end_spec(s) == trim_end_spec(s.take(k)),
    decreases s.len() - k,
{
    if k < s.len() {
        assert(s.drop_last().take(k) =~= s.take(k));
        lemma_trim_end_take(s.drop_last(), k);
    } else {
        assert(s.take(k) =~= s);
    }
}

/// Returns `text` without its leading and trailing Unicode whitespace.
pub fn trim(text: &str) -> (res: String)
    ensures
        res@ == trim_spec(text@),
{
    let n = text.unicode_len();
    let mut start: usize = 0;
    while start < n && is_whitespace_char(text.get_char(start))
        invariant
            n == text@.len(),
            start <= n,
            forall|i: int| 0 <= i < start ==> is_unicode_whitespace(text@[i]),
        decreases n - start,
    {
        start = start + 1;
    }
    let mut end: usize = n;
    while end > start && is_whitespace_char(text.get_char(end - 1))
        invariant
            n == text@.len(),
            start <= end <= n,
            forall|i: int| end <= i < n ==> is_unicode_whitespace(text@[i]),
        decreases end,
    {
        end = end - 1;
    }
    let sub = text.substring_char(start, end);
    proof {
        let s = text@;
        lemma_trim_start_skip(s, start as int);
        let t = s.skip(start as int);
        if start < n {
            assert(!is_unicode_whitespace(t[0]));
            assert(trim_start_spec(t) == t);
            lemma_trim_end_take(t, (end - start) as int);
            let u = t.take((end - start) as int);
            if end > start {
                assert(u.last() == s[end - 1]);
                assert(!is_unicode_whitespace(u.last()));
            }
            assert(trim_end_spec(u) == u);
            assert(u =~= s.subrange(start as int, end as int));
        } else {
            assert(t.len() == 0);
            assert(t =~= s.subrange(start as int, end as int));
        }
    }
    String::from_str(sub)
}

/// Character equality of two strings.
pub fn str_equal(a: &str, b: &str) -> (res: bool)
    ensures
        res == (a@ == b@),
{
    let n = a.unicode_len();
    if n != b.unicode_len() {
        return false;
    }
    let mut i: usize = 0;
    while i < n
        invariant
            n == a@.len(),
            n == b@.len(),
            i <= n,
            forall|j: int| 0 <= j < i ==> a@[j] == b@[j],
        decreases n - i,
    {
        if a.get_char(i) != b.get_char(i) {
            return false;
        }
        i = i + 1;
    }
    assert(a@ =~= b@);
    true
}

/// The digit character for a number below ten.
pub open spec fn digit_char(d: nat) -> char {
    ((d + 48) as u8) as char
}

/// The decimal representation of `n`, without leading zeros.
pub open spec fn decimal_spec(n: nat) -> Seq<char>
    decreases n,
{
    if n < 10 {
        seq![digit_char(n)]
    } else {
        decimal_spec(n / 10).push(digit_char(n % 10))
    }
}

/// The decimal representation of a signed number (with a leading `-` if negative).
pub open spec fn signed_decimal_spec(n: int) -> Seq<char> {
    if n < 0 {
        seq!['-'] + decimal_spec((-n) as nat)
    } else {
        decimal_spec(n as nat)
    }
}

/// Appends the decimal representation of `n` (what `{}` formatting writes).
pub fn push_decimal(s: &mut String, n: u64)
    ensures
        final(s)@ == old(s)@ + decimal_spec(n as nat),
    decreases n,
{
    if n >= 10 {
        push_decimal(s, n / 10);
    }
    let d = (n % 10) as u8;
    let c = (d + 48) as char;
    push_char(s, c);
    proof {
        if n >= 10 {
            assert(decimal_spec(n as nat) == decimal_spec((n / 10) as nat).push(digit_char((n % 10) as nat)));
        }
    }
}

/// Appends the decimal representation of a signed number.
pub fn push_signed_decimal(s: &mut String, n: i64)
    ensures
        final(s)@ == old(s)@ + signed_decimal_spec(n as int),
{
    if n < 0 {
        push_char(s, '-');
        let magnitude: u64 = if n == i64::MIN {
            9223372036854775808u64
        } else {
            (-n) as u64
        };
        let ghost mid = s@;
        push_decimal(s, magnitude);
        assert(s@ =~= old(s)@ + (seq!['-'] + decimal_spec((-n) as nat)));
    } else {
        push_decimal(s, n as u64);
    }
}

/// Appends `t` to `s` (`String::push_str`).
pub fn push_str(s: &mut String, t: &str)
    ensures
        final(s)@ == old(s)@ + t@,
{
    s.append(t);
}

//////////

/// How `DisplayText` replaces one character: tabs become four spaces, line breaks become
/// one space, and the emoji variation selector U+FE0F is removed.
pub open spec fn display_replacement(c: char) -> Seq<char> {
    if c == '\t' {
        seq![' ', ' ', ' ', ' ']
    } else if c == '\n' || c == '\r' {
        seq![' ']
    } else if c == '\u{FE0F}' {
        Seq::empty()
    } else {
        seq![c]
    }
}

/// `s` with every character replaced by its display replacement.
pub open spec fn expand_display_chars(s: Seq<char>) -> Seq<char>
    decreases s.len(),
{
    if s.len() == 0 {
        Seq::empty()
    } else {
        expand_display_chars(s.drop_last()) + display_replacement(s.last())
    }
}

/// The characters that count as blank for display purposes.
pub open spec fn is_blank_display_char(c: char) -> bool {
    c == ' ' || c == '\t' || c == '\n' || c == '\r' || c == '\u{FE0F}'
}

/// The text that `DisplayText::new` makes of `s`: the trimmed text, empty if it is only
/// blank characters, and with tabs, line breaks and U+FE0F replaced otherwise.
pub open spec fn display_text_spec(s: Seq<char>) -> Seq<char> {
    let t = trim_spec(s);
    if forall|i: int| 0 <= i < t.len() ==> is_blank_display_char(#[trigger] t[i]) {
        Seq::empty()
    } else {
        expand_display_chars(t)
    }
}

/// Text that is well-formed for on-screen rendering.
#[derive(Clone, Debug)]
pub struct DisplayText {
    text: String,
}

impl View for DisplayText {
    type V = Seq<char>;

    closed spec fn view(&self) -> Seq<char> {
        self.text@
    }
}

impl DisplayText {
    /// Cleans up `text` for display: trims it, makes it empty if it is only blank, and
    /// otherwise replaces tabs, line breaks and the emoji variation selector.
    pub fn new(text: &str) -> (res: DisplayText)
        ensures
            res@ == display_text_spec(text@),
    {
        let trimmed = trim(text);
        let t = trimmed.as_str();
        let n = t.unicode_len();
        let mut all_blank = true;
        let mut i: usize = 0;
        while i < n
            invariant
                n == t@.len(),
                t@ == trim_spec(text@),
                i <= n,
                all_blank == forall|j: int| 0 <= j < i ==> is_blank_display_char(#[trigger] t@[j]),
            decreases n - i,
        {
            let c = t.get_char(i);
            let blank = c == ' ' || c == '\t' || c == '\n' || c == '\r' || c == '\u{FE0F}';
            if !blank {
                all_blank = false;
            }
            i = i + 1;
        }
        if all_blank {
            return DisplayText { text: String::new() };
        }
        let mut adjusted = String::new();
        let mut i: usize = 0;
        while i < n
            invariant
                n == t@.len(),
                i <= n,
                adjusted@ == expand_display_chars(t@.take(i as int)),
            decreases n - i,
        {
            let c = t.get_char(i);
            if c == '\t' {
                push_str(&mut adjusted, "    ");
                proof {
                    reveal_strlit("    ");
                }
            } else if c == '\n' || c == '\r' {
                push_char(&mut adjusted, ' ');
            } else if c == '\u{FE0F}' {
            } else {
                push_char(&mut adjusted, c);
            }
            proof {
                assert(t@.take(i + 1).drop_last() =~= t@.take(i as int));
                assert(t@.take(i + 1).last() == c);
                assert(adjusted@ =~= expand_display_chars(t@.take(i + 1)));
            }
            i = i + 1;
        }
        proof {
            assert(t@.take(n as int) =~= t@);
        }
        DisplayText { text: adjusted }
    }

    /// Surrounds the text with padding, which is kept exactly as given.
    pub fn with_padding(self, left: &str, right: &str) -> (res: DisplayText)
        ensures
            res@ == left@ + self@ + right@,
    {
        let mut text = String::from_str(left);
        push_str(&mut text, self.text.as_str());
        push_str(&mut text, right);
        DisplayText { text }
    }

    pub fn inner(&self) -> (res: &str)
        ensures
            res@ == self@,
    {
        self.text.as_str()
    }
}

/// `pat` occurs in `s` at position `i`.
pub open spec fn occurs_at(s: Seq<char>, pat: Seq<char>, i: int) -> bool {
    0 <= i && i + pat.len() <= s.len() && s.subrange(i, i + pat.len()) == pat
}

/// The position of the first occurrence of `pat` in `s` (`str::find`, counted in characters).
pub fn find_str(s: &str, pat: &str) -> (res: Option<usize>)
    ensures
        match res {
            Some(i) => occurs_at(s@, pat@, i as int) && forall|j: int| 0 <= j < i ==> !#[trigger] occurs_at(s@, pat@, j),
            None => forall|j: int| !#[trigger] occurs_at(s@, pat@, j),
        },
{
    let n = s.unicode_len();
    let m = pat.unicode_len();
    if m > n {
        return None;
    }
    let mut i: usize = 0;
    while i <= n - m
        invariant
            n == s@.len(),
            m == pat@.len(),
            m <= n,
            i <= n - m + 1,
            forall|j: int| 0 <= j < i ==> !#[trigger] occurs_at(s@, pat@, j),
        decreases n - m + 1 - i,
    {
        if str_equal(s.substring_char(i, i + m), pat) {
            return Some(i);
        }
        if i == n - m {
            proof {
                assert forall|j: int| !#[trigger] occurs_at(s@, pat@, j) by {
                    if j > i {
                        assert(!(j + pat@.len() <= s@.len()));
                    }
                }
            }
            return None;
        }
        i = i + 1;
    }
    None
}

} // verus!
