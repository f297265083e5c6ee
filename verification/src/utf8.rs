use vstd::prelude::*;
use vstd::string::*;

verus! {

/// The number of bytes that a character takes in UTF-8.
pub open spec fn utf8_char_len(c: char) -> nat {
    if (c as u32) < 0x80 {
        1
    } else if (c as u32) < 0x800 {
        2
    } else if (c as u32) < 0x10000 {
        3
    } else {
        4
    }
}

/// The number of bytes that a text takes in UTF-8 (`str::len`).
pub open spec fn utf8_len(s: Seq<char>) -> nat
    decreases s.len(),
{
    if s.len() == 0 {
        0
    } else {
        utf8_len(s.drop_last()) + utf8_char_len(s.last())
    }
}

/// Byte `b` of `s` (in UTF-8) is where the character at position `k` starts (the end of the
/// text, for `k == s.len()`).
pub open spec fn is_char_boundary_at(s: Seq<char>, b: int, k: int) -> bool {
    0 <= k <= s.len() && utf8_len(s.take(k)) == b
}

/// Byte `b` of `s` is on a character boundary (`str::is_char_boundary`).
pub open spec fn is_char_boundary(s: Seq<char>, b: int) -> bool {
    exists|k: int| is_char_boundary_at(s, b, k)
}

/// The position of the character that starts at byte `b` of `s` (a character boundary).
pub open spec fn char_position(s: Seq<char>, b: int) -> int {
    choose|k: int| is_char_boundary_at(s, b, k)
}

/// `&s[a..b]`, for bytes `a <= b` on character boundaries.
pub open spec fn byte_slice(s: Seq<char>, a: int, b: int) -> Seq<char> {
    s.subrange(char_position(s, a), char_position(s, b))
}

/// Each character takes at least one byte, so a longer prefix takes more bytes.
pub proof fn lemma_utf8_len_take_increases(s: Seq<char>, i: int, j: int)
    requires
        0 <= i < j <= s.len(),
    ensures
        utf8_len(s.take(i)) < utf8_len(s.take(j)),
    decreases j - i,
{
    assert(s.take(j).drop_last() =~= s.take(j - 1));
    if i < j - 1 {
        lemma_utf8_len_take_increases(s, i, j - 1);
    }
}

/// A character boundary belongs to one character position.
pub proof fn lemma_char_boundary_unique(s: Seq<char>, b: int, k1: int, k2: int)
    requires
        is_char_boundary_at(s, b, k1),
        is_char_boundary_at(s, b, k2),
    ensures
        k1 == k2,
{
    if k1 < k2 {
        lemma_utf8_len_take_increases(s, k1, k2);
    } else if k2 < k1 {
        lemma_utf8_len_take_increases(s, k2, k1);
    }
}

/// The bytes of a text split at a character are those of the two parts.
pub proof fn lemma_utf8_len_split(s: Seq<char>, k: int)
    requires
        0 <= k <= s.len(),
    ensures
        utf8_len(s) == utf8_len(s.take(k)) + utf8_len(s.skip(k)),
    decreases s.len(),
{
    if k < s.len() {
        let t = s.drop_last();
        lemma_utf8_len_split(t, k);
        assert(t.take(k) =~= s.take(k));
        assert(s.skip(k).drop_last() =~= t.skip(k));
        assert(s.skip(k).last() == s.last());
    } else {
        assert(s.take(k) =~= s);
        assert(s.skip(k) =~= Seq::<char>::empty());
    }
}

/// A text has no more characters than bytes.
pub proof fn lemma_chars_at_most_bytes(s: Seq<char>)
    ensures
        s.len() <= utf8_len(s),
    decreases s.len(),
{
    if s.len() > 0 {
        lemma_chars_at_most_bytes(s.drop_last());
    }
}

/// The whole text ends at the byte just past its last character.
pub proof fn lemma_end_is_char_boundary(s: Seq<char>)
    ensures
        is_char_boundary_at(s, utf8_len(s) as int, s.len() as int),
{
    assert(s.take(s.len() as int) =~= s);
}

/// The number of bytes that `c` takes in UTF-8 (`char::len_utf8`).
pub fn utf8_char_len_exec(c: char) -> (res: usize)
    ensures
        res == utf8_char_len(c),
{
    if (c as u32) < 0x80 {
        1
    } else if (c as u32) < 0x800 {
        2
    } else if (c as u32) < 0x10000 {
        3
    } else {
        4
    }
}

/// The position of the character that starts at byte `b` of `text`, if byte `b` is on a
/// character boundary.
pub fn char_position_of_byte(text: &str, b: usize) -> (res: Option<usize>)
    ensures
        match res {
            Some(k) => is_char_boundary_at(text@, b as int, k as int),
            None => !is_char_boundary(text@, b as int),
        },
{
    let n = text.unicode_len();
    let mut k: usize = 0;
    let mut offset: usize = 0;
    while k < n && offset < b
        invariant
            n == text@.len(),
            k <= n,
            offset <= b,
            offset == utf8_len(text@.take(k as int)),
        decreases n - k,
    {
        let c = text.get_char(k);
        let len = utf8_char_len_exec(c);
        proof {
            assert(text@.take(k + 1).drop_last() =~= text@.take(k as int));
            assert(text@.take(k + 1).last() == c);
        }
        if len > b - offset {
            proof {
                // Byte `b` falls inside the character at position `k`
                assert forall|j: int| !is_char_boundary_at(text@, b as int, j) by {
                    if 0 <= j <= k {
                        if j < k {
                            lemma_utf8_len_take_increases(text@, j, k as int);
                        }
                    } else if k < j <= n {
                        if k + 1 < j {
                            lemma_utf8_len_take_increases(text@, k + 1, j);
                        }
                    }
                }
            }
            return None;
        }
        offset = offset + len;
        k = k + 1;
    }
    if offset == b {
        Some(k)
    } else {
        proof {
            // The whole text ends before byte `b`
            assert(k == n);
            assert forall|j: int| !is_char_boundary_at(text@, b as int, j) by {
                if 0 <= j < k {
                    lemma_utf8_len_take_increases(text@, j, k as int);
                }
            }
        }
        None
    }
}

} // verus!
