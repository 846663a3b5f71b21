//! Character-level predicates and scans shared by validation and the
//! canonical JSON codec.

use vstd::prelude::*;

verus! {

/// A character the broker stores and persists verbatim: printable ASCII
/// without the two JSON escape characters.
pub open spec fn is_plain_char(c: char) -> bool {
    ' ' <= c && c <= '~' && c != '"' && c != '\\'
}

/// Every character of the sequence is plain.
pub open spec fn plain(s: Seq<char>) -> bool {
    forall|i: int| 0 <= i < s.len() ==> is_plain_char(#[trigger] s[i])
}

/// A plain optional string.
pub open spec fn opt_plain(o: Option<Seq<char>>) -> bool {
    match o {
        Some(s) => plain(s),
        None => true,
    }
}

/// The view of an optional string.
pub open spec fn opt_view(o: Option<String>) -> Option<Seq<char>> {
    match o {
        Some(s) => Some(s@),
        None => None,
    }
}

/// Plain sequences are ASCII.
pub proof fn lemma_plain_is_ascii(s: Seq<char>)
    requires
        plain(s),
    ensures
        vstd::utf8::is_ascii_chars(s),
{
    assert forall|i: int| 0 <= i < s.len() implies '\0' <= #[trigger] s[i] <= '\u{7f}' by {
        assert(is_plain_char(s[i]));
    }
}

/// Whether every character of the string is plain.
pub fn is_plain(s: &str) -> (r: bool)
    ensures
        r == plain(s@),
{
    if !s.is_ascii() {
        proof {
            let i = choose|i: int| !(0 <= i < s@.len() ==> '\0' <= #[trigger] s@[i] <= '\u{7f}');
            assert(!is_plain_char(s@[i]));
        }
        return false;
    }
    let len = s.unicode_len();
    let mut i: usize = 0;
    while i < len
        invariant
            i <= len,
            len == s@.len(),
            s.is_ascii(),
            forall|j: int| 0 <= j < i ==> is_plain_char(#[trigger] s@[j]),
        decreases len - i,
    {
        let b = s.get_ascii(i);
        if b < 0x20 || b > 0x7e || b == 0x22 || b == 0x5c {
            proof {
                assert(s@[i as int] as u8 == b);
                assert('\0' <= s@[i as int] <= '\u{7f}');
                assert(!is_plain_char(s@[i as int]));
            }
            return false;
        }
        proof {
            assert(s@[i as int] as u8 == b);
            assert('\0' <= s@[i as int] <= '\u{7f}');
            assert(is_plain_char(s@[i as int]));
        }
        i = i + 1;
    }
    true
}

/// Whether an optional string is plain; absence is plain.
pub fn opt_is_plain(o: &Option<String>) -> (r: bool)
    ensures
        r == opt_plain(opt_view(*o)),
{
    match o {
        Some(s) => is_plain(s.as_str()),
        None => true,
    }
}

/// Three consecutive stars somewhere in the sequence.
pub open spec fn has_mask(s: Seq<char>) -> bool {
    exists|i: int|
        0 <= i && i + 2 < s.len() && #[trigger] s[i] == '*' && s[i + 1] == '*' && s[i + 2] == '*'
}

/// The sequence ends in three dots.
pub open spec fn ends_truncated(s: Seq<char>) -> bool {
    s.len() >= 3 && s[s.len() - 3] == '.' && s[s.len() - 2] == '.' && s[s.len() - 1] == '.'
}

/// Whether the string holds an embedded mask of three stars.
pub fn contains_mask(s: &str) -> (r: bool)
    requires
        plain(s@),
    ensures
        r == has_mask(s@),
{
    proof {
        lemma_plain_is_ascii(s@);
    }
    let len = s.unicode_len();
    if len < 3 {
        return false;
    }
    let mut i: usize = 0;
    while i < len - 2
        invariant
            3 <= len,
            i <= len,
            len == s@.len(),
            s.is_ascii(),
            forall|j: int|
                0 <= j < i ==> !(#[trigger] s@[j] == '*' && s@[j + 1] == '*' && s@[j + 2]
                    == '*'),
        decreases len - i,
    {
        let b0 = s.get_ascii(i);
        let b1 = s.get_ascii(i + 1);
        let b2 = s.get_ascii(i + 2);
        if b0 == 0x2a && b1 == 0x2a && b2 == 0x2a {
            proof {
                assert(s@[i as int] as u8 == 0x2a && '\0' <= s@[i as int] <= '\u{7f}');
                assert(s@[i as int] == '*' && s@[i + 1] == '*' && s@[i + 2] == '*');
            }
            return true;
        }
        proof {
            assert(!(s@[i as int] == '*' && s@[i + 1] == '*' && s@[i + 2] == '*'));
        }
        i = i + 1;
    }
    false
}

/// Whether the string ends in three dots.
pub fn ends_with_dots(s: &str) -> (r: bool)
    requires
        plain(s@),
    ensures
        r == ends_truncated(s@),
{
    proof {
        lemma_plain_is_ascii(s@);
    }
    let len = s.unicode_len();
    if len < 3 {
        return false;
    }
    let b0 = s.get_ascii(len - 3);
    let b1 = s.get_ascii(len - 2);
    let b2 = s.get_ascii(len - 1);
    let r = b0 == 0x2e && b1 == 0x2e && b2 == 0x2e;
    proof {
        assert(s@[s@.len() - 3] as u8 == b0 && '\0' <= s@[s@.len() - 3] <= '\u{7f}');
        assert(s@[s@.len() - 2] as u8 == b1 && '\0' <= s@[s@.len() - 2] <= '\u{7f}');
        assert(s@[s@.len() - 1] as u8 == b2 && '\0' <= s@[s@.len() - 1] <= '\u{7f}');
        assert((s@[s@.len() - 3] == '.') == (b0 == 0x2e));
        assert((s@[s@.len() - 2] == '.') == (b1 == 0x2e));
        assert((s@[s@.len() - 1] == '.') == (b2 == 0x2e));
    }
    r
}

} // verus!
