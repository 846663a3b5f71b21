//! A small JSON codec for the broker's two state files.
//!
//! The values are strings of plain characters, unsigned integers, booleans
//! and null; objects map string keys to values, and a file is an array of
//! objects or an object of objects. The encoder writes one canonical form;
//! the parser accepts that form plus surrounding whitespace, and its
//! contract pins down that everything the encoder writes parses back to the
//! value it came from.

use vstd::prelude::*;
use crate::strutil::{plain, is_plain_char, is_plain};


verus! {

/// A JSON value of the persisted files.
#[derive(Clone, Debug)]
pub enum JsonVal {
    /// A string of plain characters.
    S(String),
    /// An unsigned integer.
    U(u64),
    /// A boolean.
    B(bool),
    /// Null.
    Null,
}

/// The mathematical value of a JSON value.
pub enum JsonValV {
    S(Seq<char>),
    U(u64),
    B(bool),
    Null,
}

impl View for JsonVal {
    type V = JsonValV;

    open spec fn view(&self) -> JsonValV {
        match self {
            JsonVal::S(s) => JsonValV::S(s@),
            JsonVal::U(v) => JsonValV::U(*v),
            JsonVal::B(b) => JsonValV::B(*b),
            JsonVal::Null => JsonValV::Null,
        }
    }
}

/// One field of an object: a key and a value.
pub type FieldV = (Seq<char>, JsonValV);

/// The views of an exec field list.
pub open spec fn fields_v(fs: Seq<(String, JsonVal)>) -> Seq<FieldV> {
    fs.map_values(|f: (String, JsonVal)| (f.0@, f.1@))
}

/// The views of an exec list of objects.
pub open spec fn objs_v(os: Seq<Vec<(String, JsonVal)>>) -> Seq<Seq<FieldV>> {
    os.map_values(|o: Vec<(String, JsonVal)>| fields_v(o@))
}

/// A decimal digit.
pub open spec fn is_digit(c: char) -> bool {
    '0' <= c && c <= '9'
}

/// A JSON whitespace character.
pub open spec fn is_ws(c: char) -> bool {
    c == ' ' || c == '\t' || c == '\n' || c == '\r'
}

/// The first index at or after `i` that holds no whitespace.
pub open spec fn ws_end(s: Seq<char>, i: int) -> int
    decreases s.len() - i,
{
    if i < 0 || i >= s.len() || !is_ws(s[i]) {
        i
    } else {
        ws_end(s, i + 1)
    }
}

/// The first index at or after `i` that holds a double quote.
pub open spec fn quote_end(s: Seq<char>, i: int) -> int
    decreases s.len() - i,
{
    if i < 0 || i >= s.len() || s[i] == '"' {
        i
    } else {
        quote_end(s, i + 1)
    }
}

/// The first index at or after `i` that holds no digit.
pub open spec fn digit_end(s: Seq<char>, i: int) -> int
    decreases s.len() - i,
{
    if i < 0 || i >= s.len() || !is_digit(s[i]) {
        i
    } else {
        digit_end(s, i + 1)
    }
}

/// The number a string of digits denotes.
pub open spec fn digits_val(d: Seq<char>) -> nat
    decreases d.len(),
{
    if d.len() == 0 {
        0
    } else {
        digits_val(d.drop_last()) * 10 + (d.last() as nat - '0' as nat) as nat
    }
}

/// The string-literal parse at `i`: the content up to the first closing
/// quote, which must be plain.
pub open spec fn sp_str(s: Seq<char>, i: int) -> Option<(Seq<char>, int)> {
    if 0 <= i < s.len() && s[i] == '"' {
        let q = quote_end(s, i + 1);
        if q < s.len() && plain(s.subrange(i + 1, q)) {
            Some((s.subrange(i + 1, q), q + 1))
        } else {
            None
        }
    } else {
        None
    }
}

/// The unsigned-integer parse at `i`: the maximal digit run, if its value
/// fits.
pub open spec fn sp_u64(s: Seq<char>, i: int) -> Option<(u64, int)> {
    if 0 <= i < s.len() && is_digit(s[i]) {
        let j = digit_end(s, i);
        let v = digits_val(s.subrange(i, j));
        if v <= u64::MAX {
            Some((v as u64, j))
        } else {
            None
        }
    } else {
        None
    }
}

/// The value parse at `i`, dispatched on the first character.
pub open spec fn sp_val(s: Seq<char>, i: int) -> Option<(JsonValV, int)> {
    if i < 0 || i >= s.len() {
        None
    } else if s[i] == '"' {
        match sp_str(s, i) {
            Some((v, j)) => Some((JsonValV::S(v), j)),
            None => None,
        }
    } else if is_digit(s[i]) {
        match sp_u64(s, i) {
            Some((v, j)) => Some((JsonValV::U(v), j)),
            None => None,
        }
    } else if s[i] == 't' {
        if i + 4 <= s.len() && s[i + 1] == 'r' && s[i + 2] == 'u' && s[i + 3] == 'e' {
            Some((JsonValV::B(true), i + 4))
        } else {
            None
        }
    } else if s[i] == 'f' {
        if i + 5 <= s.len() && s[i + 1] == 'a' && s[i + 2] == 'l' && s[i + 3] == 's' && s[i + 4]
            == 'e' {
            Some((JsonValV::B(false), i + 5))
        } else {
            None
        }
    } else if s[i] == 'n' {
        if i + 4 <= s.len() && s[i + 1] == 'u' && s[i + 2] == 'l' && s[i + 3] == 'l' {
            Some((JsonValV::Null, i + 4))
        } else {
            None
        }
    } else {
        None
    }
}

/// The field parse at `i`: whitespace, a key string, whitespace, a colon,
/// whitespace, a value.
pub open spec fn sp_field(s: Seq<char>, i: int) -> Option<(FieldV, int)> {
    let i1 = ws_end(s, i);
    match sp_str(s, i1) {
        Some((k, p)) => {
            let p1 = ws_end(s, p);
            if p1 < s.len() && s[p1] == ':' {
                let p2 = ws_end(s, p1 + 1);
                match sp_val(s, p2) {
                    Some((v, q)) => Some(((k, v), q)),
                    None => None,
                }
            } else {
                None
            }
        },
        None => None,
    }
}

/// The non-empty field list `fs` parses from `i` to `j`: fields separated
/// by commas, each followed by optional whitespace; the list ends exactly
/// where no comma follows.
pub open spec fn fields_parse(s: Seq<char>, i: int, fs: Seq<FieldV>, j: int) -> bool
    decreases fs.len(),
{
    if fs.len() == 0 {
        false
    } else {
        match sp_field(s, i) {
            Some((f, q)) => fs[0] == f && {
                let q1 = ws_end(s, q);
                if fs.len() == 1 {
                    j == q1 && (q1 >= s.len() || s[q1] != ',')
                } else {
                    q1 < s.len() && s[q1] == ',' && fields_parse(s, q1 + 1, fs.skip(1), j)
                }
            },
            None => false,
        }
    }
}

/// The object `fs` parses from `i` to `j`: an opening brace, the fields or
/// nothing, a closing brace.
pub open spec fn obj_parse(s: Seq<char>, i: int, fs: Seq<FieldV>, j: int) -> bool {
    let i1 = ws_end(s, i);
    &&& 0 <= i1 < s.len() && s[i1] == '{'
    &&& {
        let i2 = ws_end(s, i1 + 1);
        if i2 < s.len() && s[i2] == '}' {
            fs.len() == 0 && j == i2 + 1
        } else {
            exists|q: int|
                #[trigger] fields_parse(s, i1 + 1, fs, q) && q < s.len() && s[q] == '}' && j == q
                    + 1
        }
    }
}

/// The non-empty object list `os` parses from `i` to `j`: objects separated
/// by commas; the list ends exactly where no comma follows.
pub open spec fn objs_parse(s: Seq<char>, i: int, os: Seq<Seq<FieldV>>, j: int) -> bool
    decreases os.len(),
{
    if os.len() == 0 {
        false
    } else {
        exists|q: int|
            #[trigger] obj_parse(s, i, os[0], q) && {
                let q1 = ws_end(s, q);
                if os.len() == 1 {
                    j == q1 && (q1 >= s.len() || s[q1] != ',')
                } else {
                    q1 < s.len() && s[q1] == ',' && objs_parse(s, q1 + 1, os.skip(1), j)
                }
            }
    }
}

/// The array `os` parses from `i` to `j`: a bracket, the objects or
/// nothing, a closing bracket.
pub open spec fn arr_parse(s: Seq<char>, i: int, os: Seq<Seq<FieldV>>, j: int) -> bool {
    let i1 = ws_end(s, i);
    &&& 0 <= i1 < s.len() && s[i1] == '['
    &&& {
        let i2 = ws_end(s, i1 + 1);
        if i2 < s.len() && s[i2] == ']' {
            os.len() == 0 && j == i2 + 1
        } else {
            exists|q: int|
                #[trigger] objs_parse(s, i1 + 1, os, q) && q < s.len() && s[q] == ']' && j == q + 1
        }
    }
}

/// The whitespace scan stops exactly at the first non-whitespace index.
proof fn lemma_ws_end(s: Seq<char>, i: int, j: int)
    requires
        0 <= i <= j <= s.len(),
        forall|t: int| i <= t < j ==> is_ws(#[trigger] s[t]),
        j == s.len() || !is_ws(s[j]),
    ensures
        ws_end(s, i) == j,
    decreases j - i,
{
    if i < j {
        lemma_ws_end(s, i + 1, j);
    }
}

/// The quote scan stops exactly at the first quote index.
proof fn lemma_quote_end(s: Seq<char>, i: int, j: int)
    requires
        0 <= i <= j <= s.len(),
        forall|t: int| i <= t < j ==> #[trigger] s[t] != '"',
        j == s.len() || s[j] == '"',
    ensures
        quote_end(s, i) == j,
    decreases j - i,
{
    if i < j {
        lemma_quote_end(s, i + 1, j);
    }
}

/// The digit scan stops exactly at the first non-digit index.
proof fn lemma_digit_end(s: Seq<char>, i: int, j: int)
    requires
        0 <= i <= j <= s.len(),
        forall|t: int| i <= t < j ==> is_digit(#[trigger] s[t]),
        j == s.len() || !is_digit(s[j]),
    ensures
        digit_end(s, i) == j,
    decreases j - i,
{
    if i < j {
        lemma_digit_end(s, i + 1, j);
    }
}

/// A longer digit run never denotes a smaller number.
proof fn lemma_digits_val_monotone(s: Seq<char>, i: int, k: int, j: int)
    requires
        0 <= i <= k <= j <= s.len(),
    ensures
        digits_val(s.subrange(i, k)) <= digits_val(s.subrange(i, j)),
    decreases j - k,
{
    if k < j {
        lemma_digits_val_monotone(s, i, k, j - 1);
        assert(s.subrange(i, j).drop_last() =~= s.subrange(i, j - 1));
        assert(digits_val(s.subrange(i, j)) >= digits_val(s.subrange(i, j - 1)));
    }
}

/// Whether the character at `cur` is whitespace.
fn ws_byte(s: &str, cur: usize) -> (r: bool)
    requires
        s.is_ascii(),
        cur < s@.len(),
    ensures
        r == is_ws(s@[cur as int]),
{
    let b = s.get_ascii(cur);
    proof {
        assert(s@[cur as int] as u8 == b && '\0' <= s@[cur as int] <= '\u{7f}');
    }
    b == 0x20 || b == 0x09 || b == 0x0a || b == 0x0d
}

/// Whether the character at `cur` is a decimal digit.
fn digit_byte(s: &str, cur: usize) -> (r: bool)
    requires
        s.is_ascii(),
        cur < s@.len(),
    ensures
        r == is_digit(s@[cur as int]),
{
    let b = s.get_ascii(cur);
    proof {
        assert(s@[cur as int] as u8 == b && '\0' <= s@[cur as int] <= '\u{7f}');
    }
    0x30 <= b && b <= 0x39
}

/// Skips whitespace.
fn skip_ws(s: &str, i: usize) -> (r: usize)
    requires
        s.is_ascii(),
        i <= s@.len(),
    ensures
        r == ws_end(s@, i as int),
        i <= r <= s@.len(),
{
    let len = s.unicode_len();
    let mut cur = i;
    while cur < len && ws_byte(s, cur)
        invariant
            i <= cur <= len,
            len == s@.len(),
            s.is_ascii(),
            forall|t: int| i <= t < cur ==> is_ws(#[trigger] s@[t]),
        decreases len - cur,
    {
        cur = cur + 1;
    }
    proof {
        lemma_ws_end(s@, i as int, cur as int);
    }
    cur
}

/// Parses a string literal.
fn p_str(s: &str, i: usize) -> (r: Option<(String, usize)>)
    requires
        s.is_ascii(),
        i <= s@.len(),
    ensures
        match r {
            Some(p) => sp_str(s@, i as int) == Some((p.0@, p.1 as int)) && i < p.1 <= s@.len(),
            None => sp_str(s@, i as int) is None,
        },
{
    let len = s.unicode_len();
    if i >= len || s.get_ascii(i) != 0x22 {
        proof {
            if i < len {
                assert(s@[i as int] != '"');
            }
        }
        return None;
    }
    proof {
        assert(s@[i as int] == '"');
    }
    let mut q = i + 1;
    while q < len && s.get_ascii(q) != 0x22
        invariant
            i + 1 <= q <= len,
            len == s@.len(),
            s.is_ascii(),
            forall|t: int| i + 1 <= t < q ==> #[trigger] s@[t] != '"',
        decreases len - q,
    {
        proof {
            assert(s@[q as int] != '"');
        }
        q = q + 1;
    }
    proof {
        if q < len {
            assert(s@[q as int] == '"');
        }
        lemma_quote_end(s@, i + 1, q as int);
    }
    if q >= len {
        return None;
    }
    let content = s.substring_ascii(i + 1, q);
    if !is_plain(content) {
        return None;
    }
    Some((content.to_owned(), q + 1))
}

/// Parses an unsigned integer.
fn p_u64(s: &str, i: usize) -> (r: Option<(u64, usize)>)
    requires
        s.is_ascii(),
        i <= s@.len(),
    ensures
        match r {
            Some(p) => sp_u64(s@, i as int) == Some((p.0, p.1 as int)) && i < p.1 <= s@.len(),
            None => sp_u64(s@, i as int) is None,
        },
{
    let len = s.unicode_len();
    if i >= len {
        return None;
    }
    let b0 = s.get_ascii(i);
    if b0 < 0x30 || b0 > 0x39 {
        proof {
            assert(!is_digit(s@[i as int]));
        }
        return None;
    }
    proof {
        assert(is_digit(s@[i as int]));
        assert(s@.subrange(i as int, i as int) =~= Seq::<char>::empty());
    }
    let mut acc: u64 = 0;
    let mut cur = i;
    while cur < len && digit_byte(s, cur)
        invariant
            i <= cur <= len,
            len == s@.len(),
            s.is_ascii(),
            forall|t: int| i <= t < cur ==> is_digit(#[trigger] s@[t]),
            acc as nat == digits_val(s@.subrange(i as int, cur as int)),
        decreases len - cur,
    {
        let b = s.get_ascii(cur);
        proof {
            assert(s@[cur as int] as u8 == b && '\0' <= s@[cur as int] <= '\u{7f}');
            assert(0x30 <= b <= 0x39);
        }
        let d: u64 = (b - 0x30) as u64;
        let wide: u128 = (acc as u128) * 10 + (d as u128);
        proof {
            assert(s@.subrange(i as int, cur + 1).drop_last() =~= s@.subrange(
                i as int,
                cur as int,
            ));
            assert(s@.subrange(i as int, cur + 1).last() == s@[cur as int]);
            assert(s@[cur as int] as nat - '0' as nat == d as nat);
            assert(digits_val(s@.subrange(i as int, cur + 1)) == acc as nat * 10 + d as nat);
        }
        if wide > u64::MAX as u128 {
            // the full run can only be larger, so the number cannot fit
            let ghost k = cur + 1;
            let mut scan = cur + 1;
            while scan < len && digit_byte(s, scan)
                invariant
                    k <= scan <= len,
                    len == s@.len(),
                    s.is_ascii(),
                    forall|t: int| k <= t < scan ==> is_digit(#[trigger] s@[t]),
                decreases len - scan,
            {
                scan = scan + 1;
            }
            proof {
                lemma_digit_end(s@, i as int, scan as int);
                lemma_digits_val_monotone(s@, i as int, k, scan as int);
                assert(digits_val(s@.subrange(i as int, k)) > u64::MAX);
            }
            return None;
        }
        acc = wide as u64;
        cur = cur + 1;
    }
    proof {
        lemma_digit_end(s@, i as int, cur as int);
    }
    Some((acc, cur))
}

/// Parses a value.
fn p_val(s: &str, i: usize) -> (r: Option<(JsonVal, usize)>)
    requires
        s.is_ascii(),
        i <= s@.len(),
    ensures
        match r {
            Some(p) => sp_val(s@, i as int) == Some((p.0@, p.1 as int)) && i < p.1 <= s@.len(),
            None => sp_val(s@, i as int) is None,
        },
{
    let len = s.unicode_len();
    if i >= len {
        return None;
    }
    let b = s.get_ascii(i);
    if b == 0x22 {
        proof {
            assert(s@[i as int] == '"');
        }
        match p_str(s, i) {
            Some((v, j)) => Some((JsonVal::S(v), j)),
            None => None,
        }
    } else if 0x30 <= b && b <= 0x39 {
        proof {
            assert(is_digit(s@[i as int]));
            assert(s@[i as int] != '"');
        }
        match p_u64(s, i) {
            Some((v, j)) => Some((JsonVal::U(v), j)),
            None => None,
        }
    } else if b == 0x74 {
        proof {
            assert(s@[i as int] == 't' && s@[i as int] != '"' && !is_digit(s@[i as int]));
        }
        if len - i >= 4 && s.get_ascii(i + 1) == 0x72 && s.get_ascii(i + 2) == 0x75 && s.get_ascii(
            i + 3,
        ) == 0x65 {
            proof {
                assert(s@[i + 1] == 'r' && s@[i + 2] == 'u' && s@[i + 3] == 'e');
            }
            Some((JsonVal::B(true), i + 4))
        } else {
            proof {
                if i + 4 <= s@.len() {
                    assert(!(s@[i + 1] == 'r' && s@[i + 2] == 'u' && s@[i + 3] == 'e'));
                }
            }
            None
        }
    } else if b == 0x66 {
        proof {
            assert(s@[i as int] == 'f' && s@[i as int] != '"' && !is_digit(s@[i as int]));
        }
        if len - i >= 5 && s.get_ascii(i + 1) == 0x61 && s.get_ascii(i + 2) == 0x6c && s.get_ascii(
            i + 3,
        ) == 0x73 && s.get_ascii(i + 4) == 0x65 {
            proof {
                assert(s@[i + 1] == 'a' && s@[i + 2] == 'l' && s@[i + 3] == 's' && s@[i + 4]
                    == 'e');
            }
            Some((JsonVal::B(false), i + 5))
        } else {
            proof {
                if i + 5 <= s@.len() {
                    assert(!(s@[i + 1] == 'a' && s@[i + 2] == 'l' && s@[i + 3] == 's' && s@[i + 4]
                        == 'e'));
                }
            }
            None
        }
    } else if b == 0x6e {
        proof {
            assert(s@[i as int] == 'n' && s@[i as int] != '"' && !is_digit(s@[i as int]));
        }
        if len - i >= 4 && s.get_ascii(i + 1) == 0x75 && s.get_ascii(i + 2) == 0x6c && s.get_ascii(
            i + 3,
        ) == 0x6c {
            proof {
                assert(s@[i + 1] == 'u' && s@[i + 2] == 'l' && s@[i + 3] == 'l');
            }
            Some((JsonVal::Null, i + 4))
        } else {
            proof {
                if i + 4 <= s@.len() {
                    assert(!(s@[i + 1] == 'u' && s@[i + 2] == 'l' && s@[i + 3] == 'l'));
                }
            }
            None
        }
    } else {
        proof {
            assert(s@[i as int] != '"' && !is_digit(s@[i as int]) && s@[i as int] != 't' && s@[
                i as int] != 'f' && s@[i as int] != 'n');
        }
        None
    }
}

/// Parses one field: key, colon, value.
fn p_field(s: &str, i: usize) -> (r: Option<((String, JsonVal), usize)>)
    requires
        s.is_ascii(),
        i <= s@.len(),
    ensures
        match r {
            Some(p) => sp_field(s@, i as int) == Some((((p.0).0@, (p.0).1@), p.1 as int)) && i
                < p.1 <= s@.len(),
            None => sp_field(s@, i as int) is None,
        },
{
    let i1 = skip_ws(s, i);
    let (k, p) = match p_str(s, i1) {
        Some(kp) => kp,
        None => {
            return None;
        },
    };
    let p1 = skip_ws(s, p);
    let len = s.unicode_len();
    if p1 >= len || s.get_ascii(p1) != 0x3a {
        proof {
            if p1 < len {
                assert(s@[p1 as int] != ':');
            }
        }
        return None;
    }
    proof {
        assert(s@[p1 as int] == ':');
    }
    let p2 = skip_ws(s, p1 + 1);
    match p_val(s, p2) {
        Some((v, q)) => Some(((k, v), q)),
        None => None,
    }
}

/// A field list parses to one list and one end only.
proof fn lemma_fields_parse_func(
    s: Seq<char>,
    i: int,
    fs1: Seq<FieldV>,
    j1: int,
    fs2: Seq<FieldV>,
    j2: int,
)
    requires
        fields_parse(s, i, fs1, j1),
        fields_parse(s, i, fs2, j2),
    ensures
        fs1 == fs2,
        j1 == j2,
    decreases fs1.len(),
{
    let (f, q) = sp_field(s, i)->Some_0;
    let q1 = ws_end(s, q);
    if fs1.len() == 1 && fs2.len() == 1 {
        assert(fs1 =~= seq![f]);
        assert(fs2 =~= seq![f]);
    } else if fs1.len() == 1 {
        assert(false);
    } else if fs2.len() == 1 {
        assert(false);
    } else {
        lemma_fields_parse_func(s, q1 + 1, fs1.skip(1), j1, fs2.skip(1), j2);
        assert(fs1 =~= seq![f] + fs1.skip(1));
        assert(fs2 =~= seq![f] + fs2.skip(1));
    }
}

/// An object parses to one field list and one end only.
proof fn lemma_obj_parse_func(
    s: Seq<char>,
    i: int,
    fs1: Seq<FieldV>,
    j1: int,
    fs2: Seq<FieldV>,
    j2: int,
)
    requires
        obj_parse(s, i, fs1, j1),
        obj_parse(s, i, fs2, j2),
    ensures
        fs1 == fs2,
        j1 == j2,
{
    let i1 = ws_end(s, i);
    let i2 = ws_end(s, i1 + 1);
    if i2 < s.len() && s[i2] == '}' {
        assert(fs1 =~= fs2);
    } else {
        let q1 = choose|q: int|
            #[trigger] fields_parse(s, i1 + 1, fs1, q) && q < s.len() && s[q] == '}' && j1 == q
                + 1;
        let q2 = choose|q: int|
            #[trigger] fields_parse(s, i1 + 1, fs2, q) && q < s.len() && s[q] == '}' && j2 == q
                + 1;
        lemma_fields_parse_func(s, i1 + 1, fs1, q1, fs2, q2);
    }
}

/// An object list parses to one list and one end only.
proof fn lemma_objs_parse_func(
    s: Seq<char>,
    i: int,
    os1: Seq<Seq<FieldV>>,
    j1: int,
    os2: Seq<Seq<FieldV>>,
    j2: int,
)
    requires
        objs_parse(s, i, os1, j1),
        objs_parse(s, i, os2, j2),
    ensures
        os1 == os2,
        j1 == j2,
    decreases os1.len(),
{
    let qa = choose|q: int|
        #[trigger] obj_parse(s, i, os1[0], q) && {
            let q1 = ws_end(s, q);
            if os1.len() == 1 {
                j1 == q1 && (q1 >= s.len() || s[q1] != ',')
            } else {
                q1 < s.len() && s[q1] == ',' && objs_parse(s, q1 + 1, os1.skip(1), j1)
            }
        };
    let qb = choose|q: int|
        #[trigger] obj_parse(s, i, os2[0], q) && {
            let q1 = ws_end(s, q);
            if os2.len() == 1 {
                j2 == q1 && (q1 >= s.len() || s[q1] != ',')
            } else {
                q1 < s.len() && s[q1] == ',' && objs_parse(s, q1 + 1, os2.skip(1), j2)
            }
        };
    lemma_obj_parse_func(s, i, os1[0], qa, os2[0], qb);
    let q1 = ws_end(s, qa);
    if os1.len() == 1 && os2.len() == 1 {
        assert(os1 =~= seq![os1[0]]);
        assert(os2 =~= seq![os1[0]]);
    } else if os1.len() == 1 {
        assert(false);
    } else if os2.len() == 1 {
        assert(false);
    } else {
        lemma_objs_parse_func(s, q1 + 1, os1.skip(1), j1, os2.skip(1), j2);
        assert(os1 =~= seq![os1[0]] + os1.skip(1));
        assert(os2 =~= seq![os2[0]] + os2.skip(1));
    }
}

/// An array parses to one object list and one end only.
pub proof fn lemma_arr_parse_func(
    s: Seq<char>,
    i: int,
    os1: Seq<Seq<FieldV>>,
    j1: int,
    os2: Seq<Seq<FieldV>>,
    j2: int,
)
    requires
        arr_parse(s, i, os1, j1),
        arr_parse(s, i, os2, j2),
    ensures
        os1 == os2,
        j1 == j2,
{
    let i1 = ws_end(s, i);
    let i2 = ws_end(s, i1 + 1);
    if i2 < s.len() && s[i2] == ']' {
        assert(os1 =~= os2);
    } else {
        let qa = choose|q: int|
            #[trigger] objs_parse(s, i1 + 1, os1, q) && q < s.len() && s[q] == ']' && j1 == q + 1;
        let qb = choose|q: int|
            #[trigger] objs_parse(s, i1 + 1, os2, q) && q < s.len() && s[q] == ']' && j2 == q + 1;
        lemma_objs_parse_func(s, i1 + 1, os1, qa, os2, qb);
    }
}

/// Parses a non-empty comma-separated field list.
fn p_fields(s: &str, i: usize) -> (r: Option<(Vec<(String, JsonVal)>, usize)>)
    requires
        s.is_ascii(),
        i <= s@.len(),
    ensures
        match r {
            Some(p) => fields_parse(s@, i as int, fields_v(p.0@), p.1 as int) && i < p.1
                <= s@.len(),
            None => forall|fs: Seq<FieldV>, j: int| !fields_parse(s@, i as int, fs, j),
        },
    decreases s@.len() - i,
{
    let (f, q) = match p_field(s, i) {
        Some(x) => x,
        None => {
            proof {
                assert forall|fs: Seq<FieldV>, j: int| !fields_parse(
                    s@,
                    i as int,
                    fs,
                    j,
                ) by {
                    if fields_parse(s@, i as int, fs, j) {
                        assert(sp_field(s@, i as int) is Some);
                    }
                }
            }
            return None;
        },
    };
    let q1 = skip_ws(s, q);
    let len = s.unicode_len();
    let comma = q1 < len && s.get_ascii(q1) == 0x2c;
    proof {
        if q1 < len {
            assert((s@[q1 as int] == ',') == (s@[q1 as int] as u8 == 0x2c));
        }
    }
    if comma {
        match p_fields(s, q1 + 1) {
            Some((tail, j)) => {
                let ghost tailv = tail@;
                let mut fields = tail;
                fields.insert(0, f);
                proof {
                    let fv = fields_v(fields@);
                    assert(fields@ =~= seq![f] + tailv);
                    assert(fv[0] == ((f.0)@, (f.1)@));
                    assert(fv.skip(1) =~= fields_v(tailv));
                    assert(fields_parse(s@, q1 + 1, fields_v(tailv), j as int));
                    assert(fields_v(tailv).len() >= 1);
                    assert(fv.len() >= 2);
                    assert(fields_parse(s@, i as int, fv, j as int));
                }
                Some((fields, j))
            },
            None => {
                proof {
                    assert forall|fs: Seq<FieldV>, j: int| !fields_parse(
                        s@,
                        i as int,
                        fs,
                        j,
                    ) by {
                        if fields_parse(s@, i as int, fs, j) {
                            if fs.len() == 1 {
                                assert(s@[q1 as int] != ',');
                            } else {
                                assert(fields_parse(s@, q1 + 1, fs.skip(1), j));
                            }
                        }
                    }
                }
                None
            },
        }
    } else {
        let mut fields: Vec<(String, JsonVal)> = Vec::new();
        fields.push(f);
        proof {
            let fv = fields_v(fields@);
            assert(fv.len() == 1);
            assert(fv[0] == ((f.0)@, (f.1)@));
            assert(fields_parse(s@, i as int, fv, q1 as int));
        }
        Some((fields, q1))
    }
}

/// Parses an object.
fn p_obj(s: &str, i: usize) -> (r: Option<(Vec<(String, JsonVal)>, usize)>)
    requires
        s.is_ascii(),
        i <= s@.len(),
    ensures
        match r {
            Some(p) => obj_parse(s@, i as int, fields_v(p.0@), p.1 as int) && i < p.1 <= s@.len(),
            None => forall|fs: Seq<FieldV>, j: int| !obj_parse(s@, i as int, fs, j),
        },
    decreases s@.len() - i,
{
    let len = s.unicode_len();
    let i1 = skip_ws(s, i);
    if i1 >= len || s.get_ascii(i1) != 0x7b {
        proof {
            if i1 < len {
                assert(s@[i1 as int] != '{');
            }
        }
        return None;
    }
    proof {
        assert(s@[i1 as int] == '{');
    }
    let i2 = skip_ws(s, i1 + 1);
    if i2 < len && s.get_ascii(i2) == 0x7d {
        proof {
            assert(s@[i2 as int] == '}');
        }
        let fields: Vec<(String, JsonVal)> = Vec::new();
        proof {
            assert(fields_v(fields@).len() == 0);
        }
        return Some((fields, i2 + 1));
    }
    proof {
        if i2 < len {
            assert(s@[i2 as int] != '}');
        }
    }
    match p_fields(s, i1 + 1) {
        Some((fields, q)) => {
            if q < len && s.get_ascii(q) == 0x7d {
                proof {
                    assert(s@[q as int] == '}');
                    assert(obj_parse(s@, i as int, fields_v(fields@), q + 1));
                }
                Some((fields, q + 1))
            } else {
                proof {
                    if q < len {
                        assert(s@[q as int] != '}');
                    }
                    assert forall|fs: Seq<FieldV>, j: int| !obj_parse(
                        s@,
                        i as int,
                        fs,
                        j,
                    ) by {
                        if obj_parse(s@, i as int, fs, j) {
                            let qq = choose|qq: int|
                                #[trigger] fields_parse(s@, i1 + 1, fs, qq) && qq < s@.len()
                                    && s@[qq] == '}' && j == qq + 1;
                            lemma_fields_parse_func(
                                s@,
                                i1 + 1,
                                fs,
                                qq,
                                fields_v(fields@),
                                q as int,
                            );
                        }
                    }
                }
                None
            }
        },
        None => {
            proof {
                assert forall|fs: Seq<FieldV>, j: int| !obj_parse(s@, i as int, fs, j) by {
                    if obj_parse(s@, i as int, fs, j) {
                        let qq = choose|qq: int|
                            #[trigger] fields_parse(s@, i1 + 1, fs, qq) && qq < s@.len() && s@[qq]
                                == '}' && j == qq + 1;
                    }
                }
            }
            None
        },
    }
}

/// Parses a non-empty comma-separated object list.
fn p_objs(s: &str, i: usize) -> (r: Option<(Vec<Vec<(String, JsonVal)>>, usize)>)
    requires
        s.is_ascii(),
        i <= s@.len(),
    ensures
        match r {
            Some(p) => objs_parse(s@, i as int, objs_v(p.0@), p.1 as int) && i < p.1 <= s@.len(),
            None => forall|os: Seq<Seq<FieldV>>, j: int| !objs_parse(s@, i as int, os, j),
        },
    decreases s@.len() - i,
{
    let (o, q) = match p_obj(s, i) {
        Some(x) => x,
        None => {
            proof {
                assert forall|os: Seq<Seq<FieldV>>, j: int| !objs_parse(
                    s@,
                    i as int,
                    os,
                    j,
                ) by {
                    if objs_parse(s@, i as int, os, j) {
                        let qq = choose|qq: int|
                            #[trigger] obj_parse(s@, i as int, os[0], qq);
                    }
                }
            }
            return None;
        },
    };
    let q1 = skip_ws(s, q);
    let len = s.unicode_len();
    let comma = q1 < len && s.get_ascii(q1) == 0x2c;
    proof {
        if q1 < len {
            assert((s@[q1 as int] == ',') == (s@[q1 as int] as u8 == 0x2c));
        }
    }
    if comma {
        match p_objs(s, q1 + 1) {
            Some((tail, j)) => {
                let ghost tailv = tail@;
                let mut objs = tail;
                objs.insert(0, o);
                proof {
                    let ov = objs_v(objs@);
                    assert(objs@ =~= seq![o] + tailv);
                    assert(ov[0] == fields_v(o@));
                    assert(ov.skip(1) =~= objs_v(tailv));
                    assert(objs_parse(s@, q1 + 1, objs_v(tailv), j as int));
                    assert(objs_v(tailv).len() >= 1);
                    assert(ov.len() >= 2);
                    assert(obj_parse(s@, i as int, ov[0], q as int));
                    assert(objs_parse(s@, i as int, ov, j as int));
                }
                Some((objs, j))
            },
            None => {
                proof {
                    assert forall|os: Seq<Seq<FieldV>>, j: int| !objs_parse(
                        s@,
                        i as int,
                        os,
                        j,
                    ) by {
                        if objs_parse(s@, i as int, os, j) {
                            let qq = choose|qq: int|
                                #[trigger] obj_parse(s@, i as int, os[0], qq) && {
                                    let qq1 = ws_end(s@, qq);
                                    if os.len() == 1 {
                                        j == qq1 && (qq1 >= s@.len() || s@[qq1] != ',')
                                    } else {
                                        qq1 < s@.len() && s@[qq1] == ',' && objs_parse(
                                            s@,
                                            qq1 + 1,
                                            os.skip(1),
                                            j,
                                        )
                                    }
                                };
                            lemma_obj_parse_func(
                                s@,
                                i as int,
                                os[0],
                                qq,
                                fields_v(o@),
                                q as int,
                            );
                            if os.len() == 1 {
                                assert(s@[q1 as int] != ',');
                            } else {
                                assert(objs_parse(s@, q1 + 1, os.skip(1), j));
                            }
                        }
                    }
                }
                None
            },
        }
    } else {
        let mut objs: Vec<Vec<(String, JsonVal)>> = Vec::new();
        objs.push(o);
        proof {
            let ov = objs_v(objs@);
            assert(ov.len() == 1);
            assert(ov[0] == fields_v(o@));
            assert(obj_parse(s@, i as int, ov[0], q as int));
            assert(objs_parse(s@, i as int, ov, q1 as int));
        }
        Some((objs, q1))
    }
}

/// Parses an array of objects.
fn p_arr(s: &str, i: usize) -> (r: Option<(Vec<Vec<(String, JsonVal)>>, usize)>)
    requires
        s.is_ascii(),
        i <= s@.len(),
    ensures
        match r {
            Some(p) => arr_parse(s@, i as int, objs_v(p.0@), p.1 as int) && i < p.1 <= s@.len(),
            None => forall|os: Seq<Seq<FieldV>>, j: int| !arr_parse(s@, i as int, os, j),
        },
{
    let len = s.unicode_len();
    let i1 = skip_ws(s, i);
    if i1 >= len || s.get_ascii(i1) != 0x5b {
        proof {
            if i1 < len {
                assert(s@[i1 as int] != '[');
            }
        }
        return None;
    }
    proof {
        assert(s@[i1 as int] == '[');
    }
    let i2 = skip_ws(s, i1 + 1);
    if i2 < len && s.get_ascii(i2) == 0x5d {
        proof {
            assert(s@[i2 as int] == ']');
        }
        let objs: Vec<Vec<(String, JsonVal)>> = Vec::new();
        proof {
            assert(objs_v(objs@).len() == 0);
        }
        return Some((objs, i2 + 1));
    }
    proof {
        if i2 < len {
            assert(s@[i2 as int] != ']');
        }
    }
    match p_objs(s, i1 + 1) {
        Some((objs, q)) => {
            if q < len && s.get_ascii(q) == 0x5d {
                proof {
                    assert(s@[q as int] == ']');
                    assert(arr_parse(s@, i as int, objs_v(objs@), q + 1));
                }
                Some((objs, q + 1))
            } else {
                proof {
                    if q < len {
                        assert(s@[q as int] != ']');
                    }
                    assert forall|os: Seq<Seq<FieldV>>, j: int| !arr_parse(
                        s@,
                        i as int,
                        os,
                        j,
                    ) by {
                        if arr_parse(s@, i as int, os, j) {
                            let qq = choose|qq: int|
                                #[trigger] objs_parse(s@, i1 + 1, os, qq) && qq < s@.len()
                                    && s@[qq] == ']' && j == qq + 1;
                            lemma_objs_parse_func(
                                s@,
                                i1 + 1,
                                os,
                                qq,
                                objs_v(objs@),
                                q as int,
                            );
                        }
                    }
                }
                None
            }
        },
        None => {
            proof {
                assert forall|os: Seq<Seq<FieldV>>, j: int| !arr_parse(s@, i as int, os, j) by {
                    if arr_parse(s@, i as int, os, j) {
                        let qq = choose|qq: int|
                            #[trigger] objs_parse(s@, i1 + 1, os, qq) && qq < s@.len() && s@[qq]
                                == ']' && j == qq + 1;
                    }
                }
            }
            None
        },
    }
}

/// The canonical encoding of a string value.
pub open spec fn spec_enc_str(s: Seq<char>) -> Seq<char> {
    seq!['"'] + s + seq!['"']
}

/// The decimal digit character of a value below ten.
pub open spec fn dig_char(d: int) -> char {
    if d == 0 { '0' }
    else if d == 1 { '1' }
    else if d == 2 { '2' }
    else if d == 3 { '3' }
    else if d == 4 { '4' }
    else if d == 5 { '5' }
    else if d == 6 { '6' }
    else if d == 7 { '7' }
    else if d == 8 { '8' }
    else { '9' }
}

/// The canonical decimal encoding of an unsigned integer.
pub open spec fn spec_enc_u64(v: nat) -> Seq<char>
    decreases v,
{
    if v < 10 {
        seq![dig_char(v as int)]
    } else {
        spec_enc_u64(v / 10).push(dig_char((v % 10) as int))
    }
}

/// The canonical encoding of a value.
pub open spec fn spec_enc_val(v: JsonValV) -> Seq<char> {
    match v {
        JsonValV::S(s) => spec_enc_str(s),
        JsonValV::U(u) => spec_enc_u64(u as nat),
        JsonValV::B(b) => if b {
            seq!['t', 'r', 'u', 'e']
        } else {
            seq!['f', 'a', 'l', 's', 'e']
        },
        JsonValV::Null => seq!['n', 'u', 'l', 'l'],
    }
}

/// The canonical encoding of a field.
pub open spec fn spec_enc_field(f: FieldV) -> Seq<char> {
    spec_enc_str(f.0) + seq![':'] + spec_enc_val(f.1)
}

/// The canonical encoding of a field list, comma-separated.
pub open spec fn spec_enc_fields(fs: Seq<FieldV>) -> Seq<char>
    decreases fs.len(),
{
    if fs.len() == 0 {
        Seq::empty()
    } else if fs.len() == 1 {
        spec_enc_field(fs[0])
    } else {
        spec_enc_field(fs[0]) + seq![','] + spec_enc_fields(fs.skip(1))
    }
}

/// The canonical encoding of an object.
pub open spec fn spec_enc_obj(fs: Seq<FieldV>) -> Seq<char> {
    seq!['{'] + spec_enc_fields(fs) + seq!['}']
}

/// The canonical encoding of an object list, comma-separated.
pub open spec fn spec_enc_objs(os: Seq<Seq<FieldV>>) -> Seq<char>
    decreases os.len(),
{
    if os.len() == 0 {
        Seq::empty()
    } else if os.len() == 1 {
        spec_enc_obj(os[0])
    } else {
        spec_enc_obj(os[0]) + seq![','] + spec_enc_objs(os.skip(1))
    }
}

/// The canonical encoding of an array of objects.
pub open spec fn spec_enc_arr(os: Seq<Seq<FieldV>>) -> Seq<char> {
    seq!['['] + spec_enc_objs(os) + seq![']']
}

/// A value the encoder can write: string contents are plain.
pub open spec fn val_wf(v: JsonValV) -> bool {
    match v {
        JsonValV::S(s) => plain(s),
        _ => true,
    }
}

/// A field the encoder can write: a plain key and a writable value.
pub open spec fn field_wf(f: FieldV) -> bool {
    plain(f.0) && val_wf(f.1)
}

/// Every field is writable.
pub open spec fn fields_wf(fs: Seq<FieldV>) -> bool {
    forall|k: int| 0 <= k < fs.len() ==> field_wf(#[trigger] fs[k])
}

/// Every object is writable.
pub open spec fn objs_wf(os: Seq<Seq<FieldV>>) -> bool {
    forall|k: int| 0 <= k < os.len() ==> fields_wf(#[trigger] os[k])
}

/// Pointwise view of a subrange equality.
proof fn lemma_subrange_pointwise(s: Seq<char>, i: int, e: Seq<char>)
    requires
        0 <= i,
        i + e.len() <= s.len(),
        s.subrange(i, i + e.len()) == e,
    ensures
        forall|t: int| 0 <= t < e.len() ==> s[i + t] == #[trigger] e[t],
{
    assert forall|t: int| 0 <= t < e.len() implies s[i + t] == #[trigger] e[t] by {
        assert(s.subrange(i, i + e.len() as int)[t] == e[t]);
    }
}

/// Every character of an encoded integer is a digit.
proof fn lemma_enc_u64_digits(v: nat)
    ensures
        spec_enc_u64(v).len() >= 1,
        forall|t: int| 0 <= t < spec_enc_u64(v).len() ==> is_digit(#[trigger] spec_enc_u64(v)[t]),
    decreases v,
{
    if v >= 10 {
        lemma_enc_u64_digits(v / 10);
    }
}

/// The encoded integer denotes the integer.
proof fn lemma_enc_u64_val(v: nat)
    ensures
        digits_val(spec_enc_u64(v)) == v,
    decreases v,
{
    if v < 10 {
        let e = spec_enc_u64(v);
        assert(e == seq![dig_char(v as int)]);
        assert(e.len() == 1);
        assert(e.drop_last() =~= Seq::<char>::empty());
        assert(digits_val(e.drop_last()) == 0);
        assert(e.last() == dig_char(v as int));
        assert(dig_char(v as int) as int - '0' as int == v);
        assert(digits_val(e) == digits_val(e.drop_last()) * 10 + (e.last() as nat
            - '0' as nat) as nat);
    } else {
        lemma_enc_u64_val(v / 10);
        let e = spec_enc_u64(v);
        assert(e == spec_enc_u64(v / 10).push(dig_char((v % 10) as int)));
        assert(e.len() == spec_enc_u64(v / 10).len() + 1);
        assert(e.drop_last() =~= spec_enc_u64(v / 10));
        assert(digits_val(e.drop_last()) == v / 10);
        assert(e.last() == dig_char((v % 10) as int));
        assert(dig_char((v % 10) as int) as int - '0' as int == v % 10);
        assert(digits_val(e) == digits_val(e.drop_last()) * 10 + (e.last() as nat
            - '0' as nat) as nat);
        assert((v / 10) * 10 + v % 10 == v) by (nonlinear_arith);
    }
}

/// An encoded string parses back to its content.
proof fn lemma_enc_str_parses(s: Seq<char>, i: int, k: Seq<char>)
    requires
        plain(k),
        0 <= i,
        i + k.len() + 2 <= s.len(),
        s.subrange(i, i + k.len() + 2) == spec_enc_str(k),
    ensures
        sp_str(s, i) == Some((k, i + k.len() + 2)),
{
    let l = k.len() as int;
    let e = spec_enc_str(k);
    lemma_subrange_pointwise(s, i, e);
    assert(s[i] == e[0]);
    assert(forall|t: int| 0 <= t < l ==> s[i + 1 + t] == #[trigger] k[t]) by {
        assert forall|t: int| 0 <= t < l implies s[i + 1 + t] == #[trigger] k[t] by {
            assert(s[i + (1 + t)] == e[1 + t]);
            assert(e[1 + t] == k[t]);
        }
    }
    assert(s[i + (1 + l)] == e[l + 1]);
    assert(forall|t: int| i + 1 <= t < i + 1 + l ==> #[trigger] s[t] != '"') by {
        assert forall|t: int| i + 1 <= t < i + 1 + l implies #[trigger] s[t] != '"' by {
            assert(s[t] == k[t - i - 1]);
            assert(is_plain_char(k[t - i - 1]));
        }
    }
    lemma_quote_end(s, i + 1, i + 1 + l);
    assert(s.subrange(i + 1, i + 1 + l) =~= k);
}

/// An encoded integer parses back to its value when no digit follows.
proof fn lemma_enc_u64_parses(s: Seq<char>, i: int, v: u64)
    requires
        0 <= i,
        i + spec_enc_u64(v as nat).len() <= s.len(),
        s.subrange(i, i + spec_enc_u64(v as nat).len()) == spec_enc_u64(v as nat),
        i + spec_enc_u64(v as nat).len() == s.len() || !is_digit(
            s[i + spec_enc_u64(v as nat).len()],
        ),
    ensures
        sp_u64(s, i) == Some((v, i + spec_enc_u64(v as nat).len())),
{
    let e = spec_enc_u64(v as nat);
    let l = e.len() as int;
    lemma_enc_u64_digits(v as nat);
    lemma_subrange_pointwise(s, i, e);
    assert(forall|t: int| i <= t < i + l ==> is_digit(#[trigger] s[t])) by {
        assert forall|t: int| i <= t < i + l implies is_digit(#[trigger] s[t]) by {
            assert(s[i + (t - i)] == e[t - i]);
        }
    }
    lemma_digit_end(s, i, i + l);
    assert(s.subrange(i, i + l) =~= e);
    lemma_enc_u64_val(v as nat);
    assert(is_digit(s[i]));
}

/// An encoded value parses back to the value when no digit follows.
proof fn lemma_enc_val_parses(s: Seq<char>, i: int, v: JsonValV)
    requires
        val_wf(v),
        0 <= i,
        i + spec_enc_val(v).len() <= s.len(),
        s.subrange(i, i + spec_enc_val(v).len()) == spec_enc_val(v),
        i + spec_enc_val(v).len() == s.len() || !is_digit(s[i + spec_enc_val(v).len()]),
    ensures
        sp_val(s, i) == Some((v, i + spec_enc_val(v).len())),
{
    let e = spec_enc_val(v);
    let l = e.len() as int;
    lemma_subrange_pointwise(s, i, e);
    match v {
        JsonValV::S(k) => {
            assert(s.subrange(i, i + k.len() + 2) =~= spec_enc_str(k));
            lemma_enc_str_parses(s, i, k);
            assert(s[i] == '"');
        },
        JsonValV::U(u) => {
            assert(s.subrange(i, i + spec_enc_u64(u as nat).len()) =~= spec_enc_u64(u as nat));
            lemma_enc_u64_parses(s, i, u);
            lemma_enc_u64_digits(u as nat);
            assert(is_digit(s[i]));
            assert(s[i] != '"');
        },
        JsonValV::B(b) => {
            if b {
                assert(s[i] == 't' && s[i + 1] == 'r' && s[i + 2] == 'u' && s[i + 3] == 'e');
                assert(s[i] != '"' && !is_digit(s[i]));
            } else {
                assert(s[i] == 'f' && s[i + 1] == 'a' && s[i + 2] == 'l' && s[i + 3] == 's' && s[i
                    + 4] == 'e');
                assert(s[i] != '"' && !is_digit(s[i]));
            }
        },
        JsonValV::Null => {
            assert(s[i] == 'n' && s[i + 1] == 'u' && s[i + 2] == 'l' && s[i + 3] == 'l');
            assert(s[i] != '"' && !is_digit(s[i]));
        },
    }
}

/// An encoded field parses back to the field when no digit follows.
proof fn lemma_enc_field_parses(s: Seq<char>, i: int, f: FieldV)
    requires
        field_wf(f),
        0 <= i,
        i + spec_enc_field(f).len() <= s.len(),
        s.subrange(i, i + spec_enc_field(f).len()) == spec_enc_field(f),
        i + spec_enc_field(f).len() == s.len() || !is_digit(s[i + spec_enc_field(f).len()]),
    ensures
        sp_field(s, i) == Some((f, i + spec_enc_field(f).len())),
{
    let e = spec_enc_field(f);
    let l = e.len() as int;
    let lk = f.0.len() as int;
    lemma_subrange_pointwise(s, i, e);
    assert(forall|t: int| 0 <= t < l ==> s[i + t] == #[trigger] e[t]);
    assert(e[0] == spec_enc_str(f.0)[0]);
    assert(s[i + 0] == e[0]);
    assert(s[i] == '"');
    lemma_ws_end(s, i, i);
    assert(s.subrange(i, i + lk + 2) =~= spec_enc_str(f.0));
    lemma_enc_str_parses(s, i, f.0);
    let p = i + lk + 2;
    assert(e[lk + 2] == ':');
    assert(s[i + (lk + 2)] == e[lk + 2]);
    assert(s[p] == ':');
    lemma_ws_end(s, p, p);
    let p2 = p + 1;
    assert(!is_ws(s[p2])) by {
        assert(e[lk + 3] == spec_enc_val(f.1)[0]);
        assert(s[i + (lk + 3)] == e[lk + 3]);
        assert(s[p2] == spec_enc_val(f.1)[0]);
        match f.1 {
            JsonValV::S(k) => {
                assert(s[p2] == '"');
            },
            JsonValV::U(u) => {
                lemma_enc_u64_digits(u as nat);
                assert(is_digit(s[p2]));
            },
            JsonValV::B(b) => {},
            JsonValV::Null => {},
        }
    }
    lemma_ws_end(s, p2, p2);
    assert(s.subrange(p2, p2 + spec_enc_val(f.1).len()) =~= spec_enc_val(f.1)) by {
        let ev = spec_enc_val(f.1);
        assert forall|t: int| 0 <= t < ev.len() implies s.subrange(
            p2,
            p2 + ev.len() as int,
        )[t] == ev[t] by {
            assert(s[i + (lk + 3 + t)] == e[lk + 3 + t]);
            assert(e[lk + 3 + t] == ev[t]);
        }
    }
    lemma_enc_val_parses(s, p2, f.1);
}

/// An encoded field list parses back to the list when a closing brace
/// follows.
proof fn lemma_enc_fields_parses(s: Seq<char>, i: int, fs: Seq<FieldV>)
    requires
        fields_wf(fs),
        fs.len() >= 1,
        0 <= i,
        i + spec_enc_fields(fs).len() < s.len(),
        s.subrange(i, i + spec_enc_fields(fs).len()) == spec_enc_fields(fs),
        s[i + spec_enc_fields(fs).len()] == '}',
    ensures
        fields_parse(s, i, fs, i + spec_enc_fields(fs).len()),
    decreases fs.len(),
{
    let e = spec_enc_fields(fs);
    let l = e.len() as int;
    let f0 = fs[0];
    let lf = spec_enc_field(f0).len() as int;
    lemma_subrange_pointwise(s, i, e);
    assert(forall|t: int| 0 <= t < l ==> s[i + t] == #[trigger] e[t]);
    if fs.len() == 1 {
        assert(s.subrange(i, i + lf) =~= spec_enc_field(f0));
        lemma_enc_field_parses(s, i, f0);
        let q = i + lf;
        lemma_ws_end(s, q, q);
        assert(s[q] != ',');
    } else {
        assert(e =~= spec_enc_field(f0) + seq![','] + spec_enc_fields(fs.skip(1)));
        assert(s.subrange(i, i + lf) =~= spec_enc_field(f0));
        assert(e[lf] == ',');
        assert(s[i + lf] == e[lf]);
        lemma_enc_field_parses(s, i, f0);
        let q = i + lf;
        lemma_ws_end(s, q, q);
        let rest = spec_enc_fields(fs.skip(1));
        assert(s.subrange(q + 1, q + 1 + rest.len()) =~= rest) by {
            assert forall|t: int| 0 <= t < rest.len() implies s.subrange(
                q + 1,
                q + 1 + rest.len() as int,
            )[t] == rest[t] by {
                assert(s[i + (lf + 1 + t)] == e[lf + 1 + t]);
                assert(e[lf + 1 + t] == rest[t]);
            }
        }
        assert(fields_wf(fs.skip(1))) by {
            assert(forall|k: int|
                0 <= k < fs.skip(1).len() ==> #[trigger] fs.skip(1)[k] == fs[k + 1]);
        }
        lemma_enc_fields_parses(s, q + 1, fs.skip(1));
        assert(fields_parse(s, q + 1, fs.skip(1), i + l));
    }
}

/// An encoded object parses back to its fields.
proof fn lemma_enc_obj_parses(s: Seq<char>, i: int, fs: Seq<FieldV>)
    requires
        fields_wf(fs),
        0 <= i,
        i + spec_enc_obj(fs).len() <= s.len(),
        s.subrange(i, i + spec_enc_obj(fs).len()) == spec_enc_obj(fs),
    ensures
        obj_parse(s, i, fs, i + spec_enc_obj(fs).len()),
{
    let e = spec_enc_obj(fs);
    let l = e.len() as int;
    let lf = spec_enc_fields(fs).len() as int;
    lemma_subrange_pointwise(s, i, e);
    assert(forall|t: int| 0 <= t < l ==> s[i + t] == #[trigger] e[t]);
    assert(s[i + 0] == e[0]);
    assert(s[i] == '{');
    lemma_ws_end(s, i, i);
    if fs.len() == 0 {
        assert(e[1] == '}');
        assert(s[i + 1] == e[1]);
        lemma_ws_end(s, i + 1, i + 1);
    } else {
        assert(e[1] == spec_enc_fields(fs)[0]);
        assert(s[i + 1] == e[1]);
        assert(spec_enc_fields(fs)[0] == spec_enc_field(fs[0])[0]);
        assert(s[i + 1] == '"');
        lemma_ws_end(s, i + 1, i + 1);
        assert(s.subrange(i + 1, i + 1 + lf) =~= spec_enc_fields(fs)) by {
            let ef = spec_enc_fields(fs);
            assert forall|t: int| 0 <= t < ef.len() implies s.subrange(
                i + 1,
                i + 1 + ef.len() as int,
            )[t] == ef[t] by {
                assert(s[i + (1 + t)] == e[1 + t]);
                assert(e[1 + t] == ef[t]);
            }
        }
        assert(e[1 + lf] == '}');
        assert(s[i + (1 + lf)] == e[1 + lf]);
        assert(s[i + 1 + lf] == '}');
        lemma_enc_fields_parses(s, i + 1, fs);
        assert(fields_parse(s, i + 1, fs, i + 1 + lf) && i + 1 + lf < s.len() && s[i + 1 + lf]
            == '}' && i + l == (i + 1 + lf) + 1);
    }
}

/// An encoded object list parses back to the list when a closing bracket
/// follows.
proof fn lemma_enc_objs_parses(s: Seq<char>, i: int, os: Seq<Seq<FieldV>>)
    requires
        objs_wf(os),
        os.len() >= 1,
        0 <= i,
        i + spec_enc_objs(os).len() < s.len(),
        s.subrange(i, i + spec_enc_objs(os).len()) == spec_enc_objs(os),
        s[i + spec_enc_objs(os).len()] == ']',
    ensures
        objs_parse(s, i, os, i + spec_enc_objs(os).len()),
    decreases os.len(),
{
    let e = spec_enc_objs(os);
    let l = e.len() as int;
    let o0 = os[0];
    let lo = spec_enc_obj(o0).len() as int;
    lemma_subrange_pointwise(s, i, e);
    assert(forall|t: int| 0 <= t < l ==> s[i + t] == #[trigger] e[t]);
    if os.len() == 1 {
        assert(s.subrange(i, i + lo) =~= spec_enc_obj(o0));
        lemma_enc_obj_parses(s, i, o0);
        let q = i + lo;
        lemma_ws_end(s, q, q);
        assert(s[q] != ',');
        assert(obj_parse(s, i, os[0], q) && ws_end(s, q) == q);
    } else {
        assert(e =~= spec_enc_obj(o0) + seq![','] + spec_enc_objs(os.skip(1)));
        assert(s.subrange(i, i + lo) =~= spec_enc_obj(o0));
        assert(e[lo] == ',');
        assert(s[i + lo] == e[lo]);
        lemma_enc_obj_parses(s, i, o0);
        let q = i + lo;
        lemma_ws_end(s, q, q);
        let rest = spec_enc_objs(os.skip(1));
        assert(s.subrange(q + 1, q + 1 + rest.len()) =~= rest) by {
            assert forall|t: int| 0 <= t < rest.len() implies s.subrange(
                q + 1,
                q + 1 + rest.len() as int,
            )[t] == rest[t] by {
                assert(s[i + (lo + 1 + t)] == e[lo + 1 + t]);
                assert(e[lo + 1 + t] == rest[t]);
            }
        }
        assert(objs_wf(os.skip(1))) by {
            assert(forall|k: int|
                0 <= k < os.skip(1).len() ==> #[trigger] os.skip(1)[k] == os[k + 1]);
        }
        lemma_enc_objs_parses(s, q + 1, os.skip(1));
        assert(obj_parse(s, i, os[0], q) && ws_end(s, q) == q && s[q] == ',' && objs_parse(
            s,
            q + 1,
            os.skip(1),
            i + l,
        ));
    }
}

/// An encoded array parses back to its objects, ending at the end of the
/// encoding.
pub proof fn lemma_enc_arr_parses(s: Seq<char>, os: Seq<Seq<FieldV>>)
    requires
        objs_wf(os),
        s == spec_enc_arr(os),
    ensures
        arr_parse(s, 0, os, s.len() as int),
{
    let e = spec_enc_objs(os);
    let l = e.len() as int;
    assert(s[0] == '[');
    lemma_ws_end(s, 0, 0);
    if os.len() == 0 {
        assert(s[1] == ']');
        lemma_ws_end(s, 1, 1);
    } else {
        assert(s[1] == e[0]);
        assert(e[0] == spec_enc_obj(os[0])[0]);
        assert(s[1] == '{');
        lemma_ws_end(s, 1, 1);
        assert(s.subrange(1, 1 + l) =~= e) by {
            assert forall|t: int| 0 <= t < e.len() implies s.subrange(1, 1 + l)[t] == e[t] by {
                assert(s[1 + t] == e[t]);
            }
        }
        assert(s[1 + l] == ']');
        lemma_enc_objs_parses(s, 1, os);
        assert(objs_parse(s, 1, os, 1 + l) && 1 + l < s.len() && s[1 + l] == ']' && s.len() == (1
            + l) + 1);
    }
}

/// Every character of a canonical encoding is ASCII.
pub proof fn lemma_enc_arr_ascii(os: Seq<Seq<FieldV>>)
    requires
        objs_wf(os),
    ensures
        vstd::utf8::is_ascii_chars(spec_enc_arr(os)),
{
    lemma_enc_objs_ascii(os);
    let e = spec_enc_arr(os);
    assert forall|t: int| 0 <= t < e.len() implies '\0' <= #[trigger] e[t] <= '\u{7f}' by {
        if 1 <= t < 1 + spec_enc_objs(os).len() {
            assert(e[t] == spec_enc_objs(os)[t - 1]);
        }
    }
}

/// Every character of an encoded object list is ASCII.
proof fn lemma_enc_objs_ascii(os: Seq<Seq<FieldV>>)
    requires
        objs_wf(os),
    ensures
        vstd::utf8::is_ascii_chars(spec_enc_objs(os)),
    decreases os.len(),
{
    if os.len() == 0 {
    } else {
        lemma_enc_obj_ascii(os[0]);
        if os.len() > 1 {
            assert(objs_wf(os.skip(1))) by {
                assert(forall|k: int|
                    0 <= k < os.skip(1).len() ==> #[trigger] os.skip(1)[k] == os[k + 1]);
            }
            lemma_enc_objs_ascii(os.skip(1));
            let e = spec_enc_objs(os);
            let a = spec_enc_obj(os[0]);
            let b = spec_enc_objs(os.skip(1));
            assert forall|t: int| 0 <= t < e.len() implies '\0' <= #[trigger] e[t] <= '\u{7f}' by {
                if t < a.len() {
                    assert(e[t] == a[t]);
                } else if t == a.len() {
                    assert(e[t] == ',');
                } else {
                    assert(e[t] == b[t - a.len() - 1]);
                }
            }
        }
    }
}

/// Every character of an encoded object is ASCII.
proof fn lemma_enc_obj_ascii(fs: Seq<FieldV>)
    requires
        fields_wf(fs),
    ensures
        vstd::utf8::is_ascii_chars(spec_enc_obj(fs)),
{
    lemma_enc_fields_ascii(fs);
    let e = spec_enc_obj(fs);
    assert forall|t: int| 0 <= t < e.len() implies '\0' <= #[trigger] e[t] <= '\u{7f}' by {
        if 1 <= t < 1 + spec_enc_fields(fs).len() {
            assert(e[t] == spec_enc_fields(fs)[t - 1]);
        }
    }
}

/// Every character of an encoded field list is ASCII.
proof fn lemma_enc_fields_ascii(fs: Seq<FieldV>)
    requires
        fields_wf(fs),
    ensures
        vstd::utf8::is_ascii_chars(spec_enc_fields(fs)),
    decreases fs.len(),
{
    if fs.len() == 0 {
    } else {
        lemma_enc_field_ascii(fs[0]);
        if fs.len() > 1 {
            assert(fields_wf(fs.skip(1))) by {
                assert(forall|k: int|
                    0 <= k < fs.skip(1).len() ==> #[trigger] fs.skip(1)[k] == fs[k + 1]);
            }
            lemma_enc_fields_ascii(fs.skip(1));
            let e = spec_enc_fields(fs);
            let a = spec_enc_field(fs[0]);
            let b = spec_enc_fields(fs.skip(1));
            assert forall|t: int| 0 <= t < e.len() implies '\0' <= #[trigger] e[t] <= '\u{7f}' by {
                if t < a.len() {
                    assert(e[t] == a[t]);
                } else if t == a.len() {
                    assert(e[t] == ',');
                } else {
                    assert(e[t] == b[t - a.len() - 1]);
                }
            }
        }
    }
}

/// Every character of an encoded field is ASCII.
proof fn lemma_enc_field_ascii(f: FieldV)
    requires
        field_wf(f),
    ensures
        vstd::utf8::is_ascii_chars(spec_enc_field(f)),
{
    lemma_enc_val_ascii(f.1);
    let e = spec_enc_field(f);
    let a = spec_enc_str(f.0);
    let b = spec_enc_val(f.1);
    assert forall|t: int| 0 <= t < e.len() implies '\0' <= #[trigger] e[t] <= '\u{7f}' by {
        if t < a.len() {
            assert(e[t] == a[t]);
            if 1 <= t < a.len() - 1 {
                assert(a[t] == f.0[t - 1]);
                assert(is_plain_char(f.0[t - 1]));
            }
        } else if t == a.len() {
            assert(e[t] == ':');
        } else {
            assert(e[t] == b[t - a.len() - 1]);
        }
    }
}

/// Every character of an encoded value is ASCII.
proof fn lemma_enc_val_ascii(v: JsonValV)
    requires
        val_wf(v),
    ensures
        vstd::utf8::is_ascii_chars(spec_enc_val(v)),
{
    match v {
        JsonValV::S(k) => {
            let e = spec_enc_val(v);
            assert forall|t: int| 0 <= t < e.len() implies '\0' <= #[trigger] e[t] <= '\u{7f}' by {
                if 1 <= t < e.len() - 1 {
                    assert(e[t] == k[t - 1]);
                    assert(is_plain_char(k[t - 1]));
                }
            }
        },
        JsonValV::U(u) => {
            lemma_enc_u64_digits(u as nat);
            let e = spec_enc_val(v);
            assert forall|t: int| 0 <= t < e.len() implies '\0' <= #[trigger] e[t] <= '\u{7f}' by {
                assert(is_digit(e[t]));
            }
        },
        JsonValV::B(b) => {},
        JsonValV::Null => {},
    }
}


/// Appends a decimal digit character.
fn push_digit(out: &mut String, d: u64)
    requires
        d < 10,
    ensures
        final(out)@ == old(out)@.push(dig_char(d as int)),
{
    let piece: &str = match d {
        0 => "0",
        1 => "1",
        2 => "2",
        3 => "3",
        4 => "4",
        5 => "5",
        6 => "6",
        7 => "7",
        8 => "8",
        _ => "9",
    };
    proof {
        reveal_strlit("0");
        reveal_strlit("1");
        reveal_strlit("2");
        reveal_strlit("3");
        reveal_strlit("4");
        reveal_strlit("5");
        reveal_strlit("6");
        reveal_strlit("7");
        reveal_strlit("8");
        reveal_strlit("9");
        assert(piece@ =~= seq![dig_char(d as int)]);
    }
    let ghost before = out@;
    out.append(piece);
    proof {
        assert(out@ =~= before.push(dig_char(d as int)));
    }
}

/// Appends the canonical decimal encoding of an unsigned integer.
fn enc_u64_push(out: &mut String, v: u64)
    ensures
        final(out)@ == old(out)@ + spec_enc_u64(v as nat),
    decreases v,
{
    if v < 10 {
        push_digit(out, v);
        proof {
            assert(out@ =~= old(out)@ + spec_enc_u64(v as nat));
        }
    } else {
        enc_u64_push(out, v / 10);
        push_digit(out, v % 10);
        proof {
            assert(out@ =~= old(out)@ + spec_enc_u64(v as nat));
        }
    }
}

/// Appends the canonical encoding of a string value.
fn enc_str_push(out: &mut String, s: &str)
    requires
        plain(s@),
    ensures
        final(out)@ == old(out)@ + spec_enc_str(s@),
{
    proof {
        reveal_strlit("\"");
    }
    out.append("\"");
    out.append(s);
    out.append("\"");
    proof {
        assert(out@ =~= old(out)@ + spec_enc_str(s@));
    }
}

/// Appends the canonical encoding of a value.
fn enc_val_push(out: &mut String, v: &JsonVal)
    requires
        val_wf(v@),
    ensures
        final(out)@ == old(out)@ + spec_enc_val(v@),
{
    match v {
        JsonVal::S(s) => {
            enc_str_push(out, s.as_str());
        },
        JsonVal::U(u) => {
            enc_u64_push(out, *u);
        },
        JsonVal::B(b) => {
            proof {
                reveal_strlit("true");
                reveal_strlit("false");
            }
            if *b {
                out.append("true");
                proof {
                    assert(out@ =~= old(out)@ + spec_enc_val(v@));
                }
            } else {
                out.append("false");
                proof {
                    assert(out@ =~= old(out)@ + spec_enc_val(v@));
                }
            }
        },
        JsonVal::Null => {
            proof {
                reveal_strlit("null");
            }
            out.append("null");
            proof {
                assert(out@ =~= old(out)@ + spec_enc_val(v@));
            }
        },
    }
}

/// Appends the canonical encoding of a field.
fn enc_field_push(out: &mut String, f: &(String, JsonVal))
    requires
        field_wf((f.0@, f.1@)),
    ensures
        final(out)@ == old(out)@ + spec_enc_field((f.0@, f.1@)),
{
    enc_str_push(out, f.0.as_str());
    proof {
        reveal_strlit(":");
    }
    out.append(":");
    enc_val_push(out, &f.1);
    proof {
        assert(out@ =~= old(out)@ + spec_enc_field((f.0@, f.1@)));
    }
}

/// Appends the canonical encoding of the fields from `idx` on.
fn enc_fields_push(out: &mut String, fs: &Vec<(String, JsonVal)>, idx: usize)
    requires
        idx <= fs@.len(),
        fields_wf(fields_v(fs@)),
    ensures
        final(out)@ == old(out)@ + spec_enc_fields(fields_v(fs@).skip(idx as int)),
    decreases fs@.len() - idx,
{
    if idx >= fs.len() {
        proof {
            assert(fields_v(fs@).skip(idx as int) =~= Seq::<FieldV>::empty());
            assert(out@ =~= old(out)@ + spec_enc_fields(fields_v(fs@).skip(idx as int)));
        }
        return ;
    }
    proof {
        assert(fields_v(fs@)[idx as int] == ((fs@[idx as int].0)@, (fs@[idx as int].1)@));
        assert(field_wf(fields_v(fs@)[idx as int]));
    }
    enc_field_push(out, &fs[idx]);
    if idx + 1 < fs.len() {
        proof {
            reveal_strlit(",");
        }
        out.append(",");
        enc_fields_push(out, fs, idx + 1);
        proof {
            let fv = fields_v(fs@);
            assert(fv.skip(idx as int)[0] == fv[idx as int]);
            assert(fv.skip(idx as int).skip(1) =~= fv.skip(idx + 1));
            assert(fv.skip(idx as int).len() > 1);
            assert(out@ =~= old(out)@ + spec_enc_fields(fv.skip(idx as int)));
        }
    } else {
        proof {
            let fv = fields_v(fs@);
            assert(fv.skip(idx as int).len() == 1);
            assert(fv.skip(idx as int)[0] == fv[idx as int]);
            assert(out@ =~= old(out)@ + spec_enc_fields(fv.skip(idx as int)));
        }
    }
}

/// Appends the canonical encoding of an object.
fn enc_obj_push(out: &mut String, fs: &Vec<(String, JsonVal)>)
    requires
        fields_wf(fields_v(fs@)),
    ensures
        final(out)@ == old(out)@ + spec_enc_obj(fields_v(fs@)),
{
    proof {
        reveal_strlit("{");
        reveal_strlit("}");
    }
    out.append("{");
    enc_fields_push(out, fs, 0);
    out.append("}");
    proof {
        assert(fields_v(fs@).skip(0) =~= fields_v(fs@));
        assert(out@ =~= old(out)@ + spec_enc_obj(fields_v(fs@)));
    }
}

/// Appends the canonical encoding of the objects from `idx` on.
fn enc_objs_push(out: &mut String, os: &Vec<Vec<(String, JsonVal)>>, idx: usize)
    requires
        idx <= os@.len(),
        objs_wf(objs_v(os@)),
    ensures
        final(out)@ == old(out)@ + spec_enc_objs(objs_v(os@).skip(idx as int)),
    decreases os@.len() - idx,
{
    if idx >= os.len() {
        proof {
            assert(objs_v(os@).skip(idx as int) =~= Seq::<Seq<FieldV>>::empty());
            assert(out@ =~= old(out)@ + spec_enc_objs(objs_v(os@).skip(idx as int)));
        }
        return ;
    }
    proof {
        assert(objs_v(os@)[idx as int] == fields_v(os@[idx as int]@));
        assert(fields_wf(objs_v(os@)[idx as int]));
    }
    enc_obj_push(out, &os[idx]);
    if idx + 1 < os.len() {
        proof {
            reveal_strlit(",");
        }
        out.append(",");
        enc_objs_push(out, os, idx + 1);
        proof {
            let ov = objs_v(os@);
            assert(ov.skip(idx as int)[0] == ov[idx as int]);
            assert(ov.skip(idx as int).skip(1) =~= ov.skip(idx + 1));
            assert(ov.skip(idx as int).len() > 1);
            assert(out@ =~= old(out)@ + spec_enc_objs(ov.skip(idx as int)));
        }
    } else {
        proof {
            let ov = objs_v(os@);
            assert(ov.skip(idx as int).len() == 1);
            assert(ov.skip(idx as int)[0] == ov[idx as int]);
            assert(out@ =~= old(out)@ + spec_enc_objs(ov.skip(idx as int)));
        }
    }
}

/// Writes the canonical encoding of an array of objects.
pub fn encode_json_array(os: &Vec<Vec<(String, JsonVal)>>) -> (r: String)
    requires
        objs_wf(objs_v(os@)),
    ensures
        r@ == spec_enc_arr(objs_v(os@)),
{
    proof {
        reveal_strlit("[");
        reveal_strlit("]");
    }
    let mut out = String::new();
    out.append("[");
    enc_objs_push(&mut out, os, 0);
    out.append("]");
    proof {
        assert(objs_v(os@).skip(0) =~= objs_v(os@));
        assert(out@ =~= spec_enc_arr(objs_v(os@)));
    }
    out
}

/// The whole text parses as this array of objects, up to trailing
/// whitespace.
pub open spec fn full_arr_parse(s: Seq<char>, os: Seq<Seq<FieldV>>) -> bool {
    exists|j: int| #[trigger] arr_parse(s, 0, os, j) && ws_end(s, j) == s.len()
}

/// Parses a whole text as an array of objects: the canonical form, with
/// whitespace tolerated around tokens and at either end.
///
/// The second clause is the round-trip law of this codec: every canonical
/// encoding of writable objects parses back to exactly those objects.
#[verifier::rlimit(60)]
pub fn parse_json_array(s: &str) -> (r: Option<Vec<Vec<(String, JsonVal)>>>)
    ensures
        match r {
            Some(v) => full_arr_parse(s@, objs_v(v@)),
            None => !vstd::utf8::is_ascii_chars(s@) || forall|os: Seq<Seq<FieldV>>|
                !#[trigger] full_arr_parse(s@, os),
        },
        forall|os: Seq<Seq<FieldV>>|
            objs_wf(os) && s@ == spec_enc_arr(os) ==> r is Some && objs_v(r->Some_0@) == os,
{
    if !s.is_ascii() {
        proof {
            assert forall|os: Seq<Seq<FieldV>>|
                objs_wf(os) && s@ == spec_enc_arr(os) implies false by {
                lemma_enc_arr_ascii(os);
            }
        }
        return None;
    }
    let len = s.unicode_len();
    match p_arr(s, 0) {
        Some((objs, j)) => {
            let j2 = skip_ws(s, j);
            if j2 == len {
                proof {
                    assert(#[trigger] arr_parse(s@, 0, objs_v(objs@), j as int) && ws_end(
                        s@,
                        j as int,
                    ) == s@.len());
                    assert(full_arr_parse(s@, objs_v(objs@)));
                    assert forall|os: Seq<Seq<FieldV>>|
                        objs_wf(os) && s@ == spec_enc_arr(os) implies objs_v(objs@) == os by {
                        lemma_enc_arr_parses(s@, os);
                        lemma_arr_parse_func(s@, 0, os, s@.len() as int, objs_v(objs@), j as int);
                    }
                }
                Some(objs)
            } else {
                proof {
                    assert forall|os: Seq<Seq<FieldV>>| !#[trigger] full_arr_parse(
                        s@,
                        os,
                    ) by {
                        if full_arr_parse(s@, os) {
                            let jj = choose|jj: int|
                                #[trigger] arr_parse(s@, 0, os, jj) && ws_end(s@, jj)
                                    == s@.len();
                            lemma_arr_parse_func(s@, 0, os, jj, objs_v(objs@), j as int);
                        }
                    }
                    assert forall|os: Seq<Seq<FieldV>>|
                        objs_wf(os) && s@ == spec_enc_arr(os) implies false by {
                        lemma_enc_arr_parses(s@, os);
                        lemma_arr_parse_func(s@, 0, os, s@.len() as int, objs_v(objs@), j as int);
                        assert(ws_end(s@, s@.len() as int) == s@.len());
                    }
                }
                None
            }
        },
        None => {
            proof {
                assert forall|os: Seq<Seq<FieldV>>| !#[trigger] full_arr_parse(s@, os) by {
                    if full_arr_parse(s@, os) {
                        let jj = choose|jj: int|
                            #[trigger] arr_parse(s@, 0, os, jj) && ws_end(s@, jj) == s@.len();
                    }
                }
                assert forall|os: Seq<Seq<FieldV>>|
                    objs_wf(os) && s@ == spec_enc_arr(os) implies false by {
                    lemma_enc_arr_parses(s@, os);
                }
            }
            None
        },
    }
}


/// The whole text parses as this object, up to trailing whitespace.
pub open spec fn full_obj_parse(s: Seq<char>, fs: Seq<FieldV>) -> bool {
    exists|j: int| #[trigger] obj_parse(s, 0, fs, j) && ws_end(s, j) == s.len()
}

/// Writes the canonical encoding of one object.
pub fn encode_json_object(fs: &Vec<(String, JsonVal)>) -> (r: String)
    requires
        fields_wf(fields_v(fs@)),
    ensures
        r@ == spec_enc_obj(fields_v(fs@)),
{
    let mut out = String::new();
    enc_obj_push(&mut out, fs);
    proof {
        assert(out@ =~= spec_enc_obj(fields_v(fs@)));
    }
    out
}

/// Parses a whole text as one object, with whitespace tolerated around
/// tokens and at either end.
///
/// The second clause is the round-trip law at the object level: every
/// canonical encoding of writable fields parses back to exactly those
/// fields.
pub fn parse_json_object(s: &str) -> (r: Option<Vec<(String, JsonVal)>>)
    ensures
        match r {
            Some(v) => full_obj_parse(s@, fields_v(v@)),
            None => !vstd::utf8::is_ascii_chars(s@) || forall|fs: Seq<FieldV>|
                !#[trigger] full_obj_parse(s@, fs),
        },
        forall|fs: Seq<FieldV>|
            fields_wf(fs) && s@ == spec_enc_obj(fs) ==> r is Some && fields_v(r->Some_0@) == fs,
{
    if !s.is_ascii() {
        proof {
            assert forall|fs: Seq<FieldV>|
                fields_wf(fs) && s@ == spec_enc_obj(fs) implies false by {
                lemma_enc_obj_ascii(fs);
            }
        }
        return None;
    }
    let len = s.unicode_len();
    match p_obj(s, 0) {
        Some((fields, j)) => {
            let j2 = skip_ws(s, j);
            if j2 == len {
                proof {
                    assert(#[trigger] obj_parse(s@, 0, fields_v(fields@), j as int) && ws_end(
                        s@,
                        j as int,
                    ) == s@.len());
                    assert(full_obj_parse(s@, fields_v(fields@)));
                    assert forall|fs: Seq<FieldV>|
                        fields_wf(fs) && s@ == spec_enc_obj(fs) implies fields_v(fields@)
                        == fs by {
                        assert(s@.subrange(0, spec_enc_obj(fs).len() as int) =~= spec_enc_obj(fs));
                        lemma_enc_obj_parses(s@, 0, fs);
                        lemma_obj_parse_func(s@, 0, fs, s@.len() as int, fields_v(fields@), j as int);
                    }
                }
                Some(fields)
            } else {
                proof {
                    assert forall|fs: Seq<FieldV>| !#[trigger] full_obj_parse(s@, fs) by {
                        if full_obj_parse(s@, fs) {
                            let jj = choose|jj: int|
                                #[trigger] obj_parse(s@, 0, fs, jj) && ws_end(s@, jj)
                                    == s@.len();
                            lemma_obj_parse_func(s@, 0, fs, jj, fields_v(fields@), j as int);
                        }
                    }
                    assert forall|fs: Seq<FieldV>|
                        fields_wf(fs) && s@ == spec_enc_obj(fs) implies false by {
                        assert(s@.subrange(0, spec_enc_obj(fs).len() as int) =~= spec_enc_obj(fs));
                        lemma_enc_obj_parses(s@, 0, fs);
                        lemma_obj_parse_func(s@, 0, fs, s@.len() as int, fields_v(fields@), j as int);
                        assert(ws_end(s@, s@.len() as int) == s@.len());
                    }
                }
                None
            }
        },
        None => {
            proof {
                assert forall|fs: Seq<FieldV>| !#[trigger] full_obj_parse(s@, fs) by {
                    if full_obj_parse(s@, fs) {
                        let jj = choose|jj: int|
                            #[trigger] obj_parse(s@, 0, fs, jj) && ws_end(s@, jj) == s@.len();
                    }
                }
                assert forall|fs: Seq<FieldV>|
                    fields_wf(fs) && s@ == spec_enc_obj(fs) implies false by {
                    assert(s@.subrange(0, spec_enc_obj(fs).len() as int) =~= spec_enc_obj(fs));
                    lemma_enc_obj_parses(s@, 0, fs);
                }
            }
            None
        },
    }
}

/// The first string value stored under the key, if its first occurrence is
/// a string.
pub open spec fn find_sv(fs: Seq<FieldV>, key: Seq<char>) -> Option<Seq<char>>
    decreases fs.len(),
{
    if fs.len() == 0 {
        None
    } else if fs[0].0 == key {
        match fs[0].1 {
            JsonValV::S(v) => Some(v),
            _ => None,
        }
    } else {
        find_sv(fs.skip(1), key)
    }
}

/// Looks up the first field with this key; its value must be a string.
pub fn find_string_field(fs: &Vec<(String, JsonVal)>, key: &str) -> (r: Option<String>)
    ensures
        crate::strutil::opt_view(r) == find_sv(fields_v(fs@), key@),
{
    let n = fs.len();
    let mut i: usize = 0;
    proof {
        assert(fields_v(fs@).skip(0) =~= fields_v(fs@));
    }
    while i < n
        invariant
            i <= n,
            n == fs@.len(),
            find_sv(fields_v(fs@), key@) == find_sv(fields_v(fs@).skip(i as int), key@),
        decreases n - i,
    {
        proof {
            assert(fields_v(fs@).skip(i as int)[0] == fields_v(fs@)[i as int]);
            assert(fields_v(fs@)[i as int] == ((fs@[i as int].0)@, (fs@[i as int].1)@));
        }
        if crate::pool::str_eq(fs[i].0.as_str(), key) {
            match &fs[i].1 {
                JsonVal::S(v) => {
                    return Some(v.clone());
                },
                _ => {
                    return None;
                },
            }
        }
        proof {
            assert(fields_v(fs@).skip(i as int).skip(1) =~= fields_v(fs@).skip(i + 1));
        }
        i = i + 1;
    }
    proof {
        assert(fields_v(fs@).skip(n as int) =~= Seq::<FieldV>::empty());
    }
    None
}


/// One entry of an object-of-objects: a key string, a colon, an object.
pub open spec fn entry_parse(
    s: Seq<char>,
    i: int,
    key: Seq<char>,
    fs: Seq<FieldV>,
    j: int,
) -> bool {
    let i1 = ws_end(s, i);
    match sp_str(s, i1) {
        Some((k, p)) => {
            let p1 = ws_end(s, p);
            &&& k == key
            &&& p1 < s.len() && s[p1] == ':'
            &&& obj_parse(s, p1 + 1, fs, j)
        },
        None => false,
    }
}

/// The non-empty entry list `es` parses from `i` to `j`: entries separated
/// by commas; the list ends exactly where no comma follows.
pub open spec fn entries_parse(
    s: Seq<char>,
    i: int,
    es: Seq<(Seq<char>, Seq<FieldV>)>,
    j: int,
) -> bool
    decreases es.len(),
{
    if es.len() == 0 {
        false
    } else {
        exists|q: int|
            #[trigger] entry_parse(s, i, es[0].0, es[0].1, q) && {
                let q1 = ws_end(s, q);
                if es.len() == 1 {
                    j == q1 && (q1 >= s.len() || s[q1] != ',')
                } else {
                    q1 < s.len() && s[q1] == ',' && entries_parse(s, q1 + 1, es.skip(1), j)
                }
            }
    }
}

/// The object-of-objects `es` parses from `i` to `j`: a brace, the entries
/// or nothing, a closing brace.
pub open spec fn mapobj_parse(s: Seq<char>, i: int, es: Seq<(Seq<char>, Seq<FieldV>)>, j: int) -> bool {
    let i1 = ws_end(s, i);
    &&& 0 <= i1 < s.len() && s[i1] == '{'
    &&& {
        let i2 = ws_end(s, i1 + 1);
        if i2 < s.len() && s[i2] == '}' {
            es.len() == 0 && j == i2 + 1
        } else {
            exists|q: int|
                #[trigger] entries_parse(s, i1 + 1, es, q) && q < s.len() && s[q] == '}' && j == q
                    + 1
        }
    }
}

/// The whole text parses as this object-of-objects, up to trailing
/// whitespace.
pub open spec fn full_map_parse(s: Seq<char>, es: Seq<(Seq<char>, Seq<FieldV>)>) -> bool {
    exists|j: int| #[trigger] mapobj_parse(s, 0, es, j) && ws_end(s, j) == s.len()
}

/// An entry parses to one key, one field list and one end only.
proof fn lemma_entry_parse_func(
    s: Seq<char>,
    i: int,
    k1: Seq<char>,
    f1: Seq<FieldV>,
    j1: int,
    k2: Seq<char>,
    f2: Seq<FieldV>,
    j2: int,
)
    requires
        entry_parse(s, i, k1, f1, j1),
        entry_parse(s, i, k2, f2, j2),
    ensures
        k1 == k2,
        f1 == f2,
        j1 == j2,
{
    let i1 = ws_end(s, i);
    let p = sp_str(s, i1)->Some_0.1;
    let p1 = ws_end(s, p);
    lemma_obj_parse_func(s, p1 + 1, f1, j1, f2, j2);
}

/// An entry list parses to one list and one end only.
proof fn lemma_entries_parse_func(
    s: Seq<char>,
    i: int,
    es1: Seq<(Seq<char>, Seq<FieldV>)>,
    j1: int,
    es2: Seq<(Seq<char>, Seq<FieldV>)>,
    j2: int,
)
    requires
        entries_parse(s, i, es1, j1),
        entries_parse(s, i, es2, j2),
    ensures
        es1 == es2,
        j1 == j2,
    decreases es1.len(),
{
    let qa = choose|q: int|
        #[trigger] entry_parse(s, i, es1[0].0, es1[0].1, q) && {
            let q1 = ws_end(s, q);
            if es1.len() == 1 {
                j1 == q1 && (q1 >= s.len() || s[q1] != ',')
            } else {
                q1 < s.len() && s[q1] == ',' && entries_parse(s, q1 + 1, es1.skip(1), j1)
            }
        };
    let qb = choose|q: int|
        #[trigger] entry_parse(s, i, es2[0].0, es2[0].1, q) && {
            let q1 = ws_end(s, q);
            if es2.len() == 1 {
                j2 == q1 && (q1 >= s.len() || s[q1] != ',')
            } else {
                q1 < s.len() && s[q1] == ',' && entries_parse(s, q1 + 1, es2.skip(1), j2)
            }
        };
    lemma_entry_parse_func(s, i, es1[0].0, es1[0].1, qa, es2[0].0, es2[0].1, qb);
    let q1 = ws_end(s, qa);
    if es1.len() == 1 && es2.len() == 1 {
        assert(es1[0] == es2[0]);
        assert(es1 =~= seq![es1[0]]);
        assert(es2 =~= seq![es1[0]]);
    } else if es1.len() == 1 {
        assert(false);
    } else if es2.len() == 1 {
        assert(false);
    } else {
        lemma_entries_parse_func(s, q1 + 1, es1.skip(1), j1, es2.skip(1), j2);
        assert(es1 =~= seq![es1[0]] + es1.skip(1));
        assert(es2 =~= seq![es2[0]] + es2.skip(1));
    }
}

/// An object-of-objects parses to one entry list and one end only.
proof fn lemma_mapobj_parse_func(
    s: Seq<char>,
    i: int,
    es1: Seq<(Seq<char>, Seq<FieldV>)>,
    j1: int,
    es2: Seq<(Seq<char>, Seq<FieldV>)>,
    j2: int,
)
    requires
        mapobj_parse(s, i, es1, j1),
        mapobj_parse(s, i, es2, j2),
    ensures
        es1 == es2,
        j1 == j2,
{
    let i1 = ws_end(s, i);
    let i2 = ws_end(s, i1 + 1);
    if i2 < s.len() && s[i2] == '}' {
        assert(es1 =~= es2);
    } else {
        let qa = choose|q: int|
            #[trigger] entries_parse(s, i1 + 1, es1, q) && q < s.len() && s[q] == '}' && j1 == q
                + 1;
        let qb = choose|q: int|
            #[trigger] entries_parse(s, i1 + 1, es2, q) && q < s.len() && s[q] == '}' && j2 == q
                + 1;
        lemma_entries_parse_func(s, i1 + 1, es1, qa, es2, qb);
    }
}

/// The views of an exec entry list.
pub open spec fn entries_v(es: Seq<(String, Vec<(String, JsonVal)>)>) -> Seq<
    (Seq<char>, Seq<FieldV>),
> {
    es.map_values(|e: (String, Vec<(String, JsonVal)>)| (e.0@, fields_v(e.1@)))
}

/// Parses one entry: key, colon, object.
fn p_entry(s: &str, i: usize) -> (r: Option<((String, Vec<(String, JsonVal)>), usize)>)
    requires
        s.is_ascii(),
        i <= s@.len(),
    ensures
        match r {
            Some(p) => entry_parse(s@, i as int, (p.0).0@, fields_v((p.0).1@), p.1 as int) && i
                < p.1 <= s@.len(),
            None => forall|key: Seq<char>, fs: Seq<FieldV>, j: int|
                !entry_parse(s@, i as int, key, fs, j),
        },
    decreases s@.len() - i,
{
    let i1 = skip_ws(s, i);
    let (k, p) = match p_str(s, i1) {
        Some(kp) => kp,
        None => {
            return None;
        },
    };
    let p1 = skip_ws(s, p);
    let len = s.unicode_len();
    if p1 >= len || s.get_ascii(p1) != 0x3a {
        proof {
            if p1 < len {
                assert(s@[p1 as int] != ':');
            }
        }
        return None;
    }
    proof {
        assert(s@[p1 as int] == ':');
    }
    match p_obj(s, p1 + 1) {
        Some((fields, j)) => Some(((k, fields), j)),
        None => {
            proof {
                assert forall|key: Seq<char>, fs: Seq<FieldV>, j: int|
                    !entry_parse(s@, i as int, key, fs, j) by {
                    if entry_parse(s@, i as int, key, fs, j) {
                        assert(obj_parse(s@, p1 + 1, fs, j));
                    }
                }
            }
            None
        },
    }
}

/// Parses a non-empty comma-separated entry list.
fn p_entries(s: &str, i: usize) -> (r: Option<(Vec<(String, Vec<(String, JsonVal)>)>, usize)>)
    requires
        s.is_ascii(),
        i <= s@.len(),
    ensures
        match r {
            Some(p) => entries_parse(s@, i as int, entries_v(p.0@), p.1 as int) && i < p.1
                <= s@.len(),
            None => forall|es: Seq<(Seq<char>, Seq<FieldV>)>, j: int|
                !entries_parse(s@, i as int, es, j),
        },
    decreases s@.len() - i,
{
    let (e, q) = match p_entry(s, i) {
        Some(x) => x,
        None => {
            proof {
                assert forall|es: Seq<(Seq<char>, Seq<FieldV>)>, j: int|
                    !entries_parse(s@, i as int, es, j) by {
                    if entries_parse(s@, i as int, es, j) {
                        let qq = choose|qq: int|
                            #[trigger] entry_parse(s@, i as int, es[0].0, es[0].1, qq);
                    }
                }
            }
            return None;
        },
    };
    let q1 = skip_ws(s, q);
    let len = s.unicode_len();
    let comma = q1 < len && s.get_ascii(q1) == 0x2c;
    proof {
        if q1 < len {
            assert((s@[q1 as int] == ',') == (s@[q1 as int] as u8 == 0x2c));
        }
    }
    if comma {
        match p_entries(s, q1 + 1) {
            Some((tail, j)) => {
                let ghost tailv = tail@;
                let mut entries = tail;
                entries.insert(0, e);
                proof {
                    let ev = entries_v(entries@);
                    assert(entries@ =~= seq![e] + tailv);
                    assert(ev[0] == ((e.0)@, fields_v((e.1)@)));
                    assert(ev.skip(1) =~= entries_v(tailv));
                    assert(entries_parse(s@, q1 + 1, entries_v(tailv), j as int));
                    assert(entries_v(tailv).len() >= 1);
                    assert(ev.len() >= 2);
                    assert(entry_parse(s@, i as int, ev[0].0, ev[0].1, q as int));
                    assert(entries_parse(s@, i as int, ev, j as int));
                }
                Some((entries, j))
            },
            None => {
                proof {
                    assert forall|es: Seq<(Seq<char>, Seq<FieldV>)>, j: int|
                        !entries_parse(s@, i as int, es, j) by {
                        if entries_parse(s@, i as int, es, j) {
                            let qq = choose|qq: int|
                                #[trigger] entry_parse(s@, i as int, es[0].0, es[0].1, qq) && {
                                    let qq1 = ws_end(s@, qq);
                                    if es.len() == 1 {
                                        j == qq1 && (qq1 >= s@.len() || s@[qq1] != ',')
                                    } else {
                                        qq1 < s@.len() && s@[qq1] == ',' && entries_parse(
                                            s@,
                                            qq1 + 1,
                                            es.skip(1),
                                            j,
                                        )
                                    }
                                };
                            lemma_entry_parse_func(
                                s@,
                                i as int,
                                es[0].0,
                                es[0].1,
                                qq,
                                (e.0)@,
                                fields_v((e.1)@),
                                q as int,
                            );
                            if es.len() == 1 {
                                assert(s@[q1 as int] != ',');
                            } else {
                                assert(entries_parse(s@, q1 + 1, es.skip(1), j));
                            }
                        }
                    }
                }
                None
            },
        }
    } else {
        let mut entries: Vec<(String, Vec<(String, JsonVal)>)> = Vec::new();
        entries.push(e);
        proof {
            let ev = entries_v(entries@);
            assert(ev.len() == 1);
            assert(ev[0] == ((e.0)@, fields_v((e.1)@)));
            assert(entry_parse(s@, i as int, ev[0].0, ev[0].1, q as int));
            assert(entries_parse(s@, i as int, ev, q1 as int));
        }
        Some((entries, q1))
    }
}

/// Parses an object-of-objects.
fn p_mapobj(s: &str, i: usize) -> (r: Option<(Vec<(String, Vec<(String, JsonVal)>)>, usize)>)
    requires
        s.is_ascii(),
        i <= s@.len(),
    ensures
        match r {
            Some(p) => mapobj_parse(s@, i as int, entries_v(p.0@), p.1 as int) && i < p.1
                <= s@.len(),
            None => forall|es: Seq<(Seq<char>, Seq<FieldV>)>, j: int|
                !mapobj_parse(s@, i as int, es, j),
        },
{
    let len = s.unicode_len();
    let i1 = skip_ws(s, i);
    if i1 >= len || s.get_ascii(i1) != 0x7b {
        proof {
            if i1 < len {
                assert(s@[i1 as int] != '{');
            }
        }
        return None;
    }
    proof {
        assert(s@[i1 as int] == '{');
    }
    let i2 = skip_ws(s, i1 + 1);
    if i2 < len && s.get_ascii(i2) == 0x7d {
        proof {
            assert(s@[i2 as int] == '}');
        }
        let entries: Vec<(String, Vec<(String, JsonVal)>)> = Vec::new();
        proof {
            assert(entries_v(entries@).len() == 0);
        }
        return Some((entries, i2 + 1));
    }
    proof {
        if i2 < len {
            assert(s@[i2 as int] != '}');
        }
    }
    match p_entries(s, i1 + 1) {
        Some((entries, q)) => {
            if q < len && s.get_ascii(q) == 0x7d {
                proof {
                    assert(s@[q as int] == '}');
                    assert(mapobj_parse(s@, i as int, entries_v(entries@), q + 1));
                }
                Some((entries, q + 1))
            } else {
                proof {
                    if q < len {
                        assert(s@[q as int] != '}');
                    }
                    assert forall|es: Seq<(Seq<char>, Seq<FieldV>)>, j: int|
                        !mapobj_parse(s@, i as int, es, j) by {
                        if mapobj_parse(s@, i as int, es, j) {
                            let qq = choose|qq: int|
                                #[trigger] entries_parse(s@, i1 + 1, es, qq) && qq < s@.len()
                                    && s@[qq] == '}' && j == qq + 1;
                            lemma_entries_parse_func(
                                s@,
                                i1 + 1,
                                es,
                                qq,
                                entries_v(entries@),
                                q as int,
                            );
                        }
                    }
                }
                None
            }
        },
        None => {
            proof {
                assert forall|es: Seq<(Seq<char>, Seq<FieldV>)>, j: int|
                    !mapobj_parse(s@, i as int, es, j) by {
                    if mapobj_parse(s@, i as int, es, j) {
                        let qq = choose|qq: int|
                            #[trigger] entries_parse(s@, i1 + 1, es, qq) && qq < s@.len()
                                && s@[qq] == '}' && j == qq + 1;
                    }
                }
            }
            None
        },
    }
}


/// The canonical encoding of one entry.
pub open spec fn spec_enc_entry(e: (Seq<char>, Seq<FieldV>)) -> Seq<char> {
    spec_enc_str(e.0) + seq![':'] + spec_enc_obj(e.1)
}

/// The canonical encoding of an entry list, comma-separated.
pub open spec fn spec_enc_entries(es: Seq<(Seq<char>, Seq<FieldV>)>) -> Seq<char>
    decreases es.len(),
{
    if es.len() == 0 {
        Seq::empty()
    } else if es.len() == 1 {
        spec_enc_entry(es[0])
    } else {
        spec_enc_entry(es[0]) + seq![','] + spec_enc_entries(es.skip(1))
    }
}

/// The canonical encoding of an object-of-objects.
pub open spec fn spec_enc_map(es: Seq<(Seq<char>, Seq<FieldV>)>) -> Seq<char> {
    seq!['{'] + spec_enc_entries(es) + seq!['}']
}

/// An entry the encoder can write: a plain key and writable fields.
pub open spec fn entry_wf(e: (Seq<char>, Seq<FieldV>)) -> bool {
    plain(e.0) && fields_wf(e.1)
}

/// Every entry is writable.
pub open spec fn entries_wf(es: Seq<(Seq<char>, Seq<FieldV>)>) -> bool {
    forall|k: int| 0 <= k < es.len() ==> entry_wf(#[trigger] es[k])
}

/// An encoded entry parses back to the entry.
proof fn lemma_enc_entry_parses(s: Seq<char>, i: int, e: (Seq<char>, Seq<FieldV>))
    requires
        entry_wf(e),
        0 <= i,
        i + spec_enc_entry(e).len() <= s.len(),
        s.subrange(i, i + spec_enc_entry(e).len()) == spec_enc_entry(e),
    ensures
        entry_parse(s, i, e.0, e.1, i + spec_enc_entry(e).len()),
{
    let enc = spec_enc_entry(e);
    let l = enc.len() as int;
    let lk = e.0.len() as int;
    lemma_subrange_pointwise(s, i, enc);
    assert(enc[0] == '"');
    assert(s[i + 0] == enc[0]);
    lemma_ws_end(s, i, i);
    assert(s.subrange(i, i + lk + 2) =~= spec_enc_str(e.0)) by {
        assert forall|t: int| 0 <= t < lk + 2 implies s.subrange(i, i + lk + 2)[t]
            == spec_enc_str(e.0)[t] by {
            assert(s[i + t] == enc[t]);
            assert(enc[t] == spec_enc_str(e.0)[t]);
        }
    }
    lemma_enc_str_parses(s, i, e.0);
    let p = i + lk + 2;
    assert(enc[lk + 2] == ':');
    assert(s[i + (lk + 2)] == enc[lk + 2]);
    lemma_ws_end(s, p, p);
    let lo = spec_enc_obj(e.1).len() as int;
    assert(s.subrange(p + 1, p + 1 + lo) =~= spec_enc_obj(e.1)) by {
        assert forall|t: int| 0 <= t < lo implies s.subrange(p + 1, p + 1 + lo)[t]
            == spec_enc_obj(e.1)[t] by {
            assert(s[i + (lk + 3 + t)] == enc[lk + 3 + t]);
            assert(enc[lk + 3 + t] == spec_enc_obj(e.1)[t]);
        }
    }
    lemma_enc_obj_parses(s, p + 1, e.1);
}

/// An encoded entry list parses back to the list when a closing brace
/// follows.
proof fn lemma_enc_entries_parses(s: Seq<char>, i: int, es: Seq<(Seq<char>, Seq<FieldV>)>)
    requires
        entries_wf(es),
        es.len() >= 1,
        0 <= i,
        i + spec_enc_entries(es).len() < s.len(),
        s.subrange(i, i + spec_enc_entries(es).len()) == spec_enc_entries(es),
        s[i + spec_enc_entries(es).len()] == '}',
    ensures
        entries_parse(s, i, es, i + spec_enc_entries(es).len()),
    decreases es.len(),
{
    let enc = spec_enc_entries(es);
    let l = enc.len() as int;
    let e0 = es[0];
    let le = spec_enc_entry(e0).len() as int;
    lemma_subrange_pointwise(s, i, enc);
    assert(forall|t: int| 0 <= t < l ==> s[i + t] == #[trigger] enc[t]);
    if es.len() == 1 {
        assert(s.subrange(i, i + le) =~= spec_enc_entry(e0));
        lemma_enc_entry_parses(s, i, e0);
        let q = i + le;
        lemma_ws_end(s, q, q);
        assert(s[q] != ',');
        assert(entry_parse(s, i, es[0].0, es[0].1, q) && ws_end(s, q) == q);
    } else {
        assert(enc =~= spec_enc_entry(e0) + seq![','] + spec_enc_entries(es.skip(1)));
        assert(s.subrange(i, i + le) =~= spec_enc_entry(e0));
        assert(enc[le] == ',');
        assert(s[i + le] == enc[le]);
        lemma_enc_entry_parses(s, i, e0);
        let q = i + le;
        lemma_ws_end(s, q, q);
        let rest = spec_enc_entries(es.skip(1));
        assert(s.subrange(q + 1, q + 1 + rest.len()) =~= rest) by {
            assert forall|t: int| 0 <= t < rest.len() implies s.subrange(
                q + 1,
                q + 1 + rest.len() as int,
            )[t] == rest[t] by {
                assert(s[i + (le + 1 + t)] == enc[le + 1 + t]);
                assert(enc[le + 1 + t] == rest[t]);
            }
        }
        assert(entries_wf(es.skip(1))) by {
            assert(forall|k: int|
                0 <= k < es.skip(1).len() ==> #[trigger] es.skip(1)[k] == es[k + 1]);
        }
        lemma_enc_entries_parses(s, q + 1, es.skip(1));
        assert(entry_parse(s, i, es[0].0, es[0].1, q) && ws_end(s, q) == q && s[q] == ','
            && entries_parse(s, q + 1, es.skip(1), i + l));
    }
}

/// An encoded object-of-objects parses back to its entries, ending at the
/// end of the encoding.
pub proof fn lemma_enc_map_parses(s: Seq<char>, es: Seq<(Seq<char>, Seq<FieldV>)>)
    requires
        entries_wf(es),
        s == spec_enc_map(es),
    ensures
        mapobj_parse(s, 0, es, s.len() as int),
{
    let enc = spec_enc_entries(es);
    let l = enc.len() as int;
    assert(s[0] == '{');
    lemma_ws_end(s, 0, 0);
    if es.len() == 0 {
        assert(s[1] == '}');
        lemma_ws_end(s, 1, 1);
    } else {
        assert(s[1] == enc[0]);
        assert(enc[0] == spec_enc_entry(es[0])[0]);
        assert(s[1] == '"');
        lemma_ws_end(s, 1, 1);
        assert(s.subrange(1, 1 + l) =~= enc) by {
            assert forall|t: int| 0 <= t < enc.len() implies s.subrange(1, 1 + l)[t]
                == enc[t] by {
                assert(s[1 + t] == enc[t]);
            }
        }
        assert(s[1 + l] == '}');
        lemma_enc_entries_parses(s, 1, es);
        assert(entries_parse(s, 1, es, 1 + l) && 1 + l < s.len() && s[1 + l] == '}' && s.len()
            == (1 + l) + 1);
    }
}

/// Every character of an encoded entry is ASCII.
proof fn lemma_enc_entry_ascii(e: (Seq<char>, Seq<FieldV>))
    requires
        entry_wf(e),
    ensures
        vstd::utf8::is_ascii_chars(spec_enc_entry(e)),
{
    lemma_enc_obj_ascii(e.1);
    let enc = spec_enc_entry(e);
    let a = spec_enc_str(e.0);
    let b = spec_enc_obj(e.1);
    assert forall|t: int| 0 <= t < enc.len() implies '\0' <= #[trigger] enc[t] <= '\u{7f}' by {
        if t < a.len() {
            assert(enc[t] == a[t]);
            if 1 <= t < a.len() - 1 {
                assert(a[t] == e.0[t - 1]);
                assert(is_plain_char(e.0[t - 1]));
            }
        } else if t == a.len() {
            assert(enc[t] == ':');
        } else {
            assert(enc[t] == b[t - a.len() - 1]);
        }
    }
}

/// Every character of an encoded entry list is ASCII.
proof fn lemma_enc_entries_ascii(es: Seq<(Seq<char>, Seq<FieldV>)>)
    requires
        entries_wf(es),
    ensures
        vstd::utf8::is_ascii_chars(spec_enc_entries(es)),
    decreases es.len(),
{
    if es.len() == 0 {
    } else {
        lemma_enc_entry_ascii(es[0]);
        if es.len() > 1 {
            assert(entries_wf(es.skip(1))) by {
                assert(forall|k: int|
                    0 <= k < es.skip(1).len() ==> #[trigger] es.skip(1)[k] == es[k + 1]);
            }
            lemma_enc_entries_ascii(es.skip(1));
            let enc = spec_enc_entries(es);
            let a = spec_enc_entry(es[0]);
            let b = spec_enc_entries(es.skip(1));
            assert forall|t: int| 0 <= t < enc.len() implies '\0' <= #[trigger] enc[t]
                <= '\u{7f}' by {
                if t < a.len() {
                    assert(enc[t] == a[t]);
                } else if t == a.len() {
                    assert(enc[t] == ',');
                } else {
                    assert(enc[t] == b[t - a.len() - 1]);
                }
            }
        }
    }
}

/// Every character of an encoded object-of-objects is ASCII.
proof fn lemma_enc_map_ascii(es: Seq<(Seq<char>, Seq<FieldV>)>)
    requires
        entries_wf(es),
    ensures
        vstd::utf8::is_ascii_chars(spec_enc_map(es)),
{
    lemma_enc_entries_ascii(es);
    let enc = spec_enc_map(es);
    assert forall|t: int| 0 <= t < enc.len() implies '\0' <= #[trigger] enc[t] <= '\u{7f}' by {
        if 1 <= t < 1 + spec_enc_entries(es).len() {
            assert(enc[t] == spec_enc_entries(es)[t - 1]);
        }
    }
}

/// Appends the canonical encoding of one entry.
fn enc_entry_push(out: &mut String, e: &(String, Vec<(String, JsonVal)>))
    requires
        entry_wf(((e.0)@, fields_v((e.1)@))),
    ensures
        final(out)@ == old(out)@ + spec_enc_entry(((e.0)@, fields_v((e.1)@))),
{
    enc_str_push(out, e.0.as_str());
    proof {
        reveal_strlit(":");
    }
    out.append(":");
    enc_obj_push(out, &e.1);
    proof {
        assert(out@ =~= old(out)@ + spec_enc_entry(((e.0)@, fields_v((e.1)@))));
    }
}

/// Appends the canonical encoding of the entries from `idx` on.
fn enc_entries_push(out: &mut String, es: &Vec<(String, Vec<(String, JsonVal)>)>, idx: usize)
    requires
        idx <= es@.len(),
        entries_wf(entries_v(es@)),
    ensures
        final(out)@ == old(out)@ + spec_enc_entries(entries_v(es@).skip(idx as int)),
    decreases es@.len() - idx,
{
    if idx >= es.len() {
        proof {
            assert(entries_v(es@).skip(idx as int) =~= Seq::<(Seq<char>, Seq<FieldV>)>::empty());
            assert(out@ =~= old(out)@ + spec_enc_entries(entries_v(es@).skip(idx as int)));
        }
        return ;
    }
    proof {
        assert(entries_v(es@)[idx as int] == ((es@[idx as int].0)@, fields_v(es@[idx as int].1@)));
        assert(entry_wf(entries_v(es@)[idx as int]));
    }
    enc_entry_push(out, &es[idx]);
    if idx + 1 < es.len() {
        proof {
            reveal_strlit(",");
        }
        out.append(",");
        enc_entries_push(out, es, idx + 1);
        proof {
            let ev = entries_v(es@);
            assert(ev.skip(idx as int)[0] == ev[idx as int]);
            assert(ev.skip(idx as int).skip(1) =~= ev.skip(idx + 1));
            assert(ev.skip(idx as int).len() > 1);
            assert(out@ =~= old(out)@ + spec_enc_entries(ev.skip(idx as int)));
        }
    } else {
        proof {
            let ev = entries_v(es@);
            assert(ev.skip(idx as int).len() == 1);
            assert(ev.skip(idx as int)[0] == ev[idx as int]);
            assert(out@ =~= old(out)@ + spec_enc_entries(ev.skip(idx as int)));
        }
    }
}

/// Writes the canonical encoding of an object-of-objects.
pub fn encode_json_map(es: &Vec<(String, Vec<(String, JsonVal)>)>) -> (r: String)
    requires
        entries_wf(entries_v(es@)),
    ensures
        r@ == spec_enc_map(entries_v(es@)),
{
    proof {
        reveal_strlit("{");
        reveal_strlit("}");
    }
    let mut out = String::new();
    out.append("{");
    enc_entries_push(&mut out, es, 0);
    out.append("}");
    proof {
        assert(entries_v(es@).skip(0) =~= entries_v(es@));
        assert(out@ =~= spec_enc_map(entries_v(es@)));
    }
    out
}

/// Parses a whole text as an object-of-objects: the canonical form, with
/// whitespace tolerated around tokens and at either end.
///
/// The second clause is the round-trip law at this level: every canonical
/// encoding of writable entries parses back to exactly those entries.
pub fn parse_json_map(s: &str) -> (r: Option<Vec<(String, Vec<(String, JsonVal)>)>>)
    ensures
        match r {
            Some(v) => full_map_parse(s@, entries_v(v@)),
            None => !vstd::utf8::is_ascii_chars(s@) || forall|es: Seq<(Seq<char>, Seq<FieldV>)>|
                !#[trigger] full_map_parse(s@, es),
        },
        forall|es: Seq<(Seq<char>, Seq<FieldV>)>|
            entries_wf(es) && s@ == spec_enc_map(es) ==> r is Some && entries_v(r->Some_0@) == es,
{
    if !s.is_ascii() {
        proof {
            assert forall|es: Seq<(Seq<char>, Seq<FieldV>)>|
                entries_wf(es) && s@ == spec_enc_map(es) implies false by {
                lemma_enc_map_ascii(es);
            }
        }
        return None;
    }
    let len = s.unicode_len();
    match p_mapobj(s, 0) {
        Some((entries, j)) => {
            let j2 = skip_ws(s, j);
            if j2 == len {
                proof {
                    assert(#[trigger] mapobj_parse(s@, 0, entries_v(entries@), j as int)
                        && ws_end(s@, j as int) == s@.len());
                    assert(full_map_parse(s@, entries_v(entries@)));
                    assert forall|es: Seq<(Seq<char>, Seq<FieldV>)>|
                        entries_wf(es) && s@ == spec_enc_map(es) implies entries_v(entries@)
                        == es by {
                        lemma_enc_map_parses(s@, es);
                        lemma_mapobj_parse_func(
                            s@,
                            0,
                            es,
                            s@.len() as int,
                            entries_v(entries@),
                            j as int,
                        );
                    }
                }
                Some(entries)
            } else {
                proof {
                    assert forall|es: Seq<(Seq<char>, Seq<FieldV>)>| !#[trigger] full_map_parse(
                        s@,
                        es,
                    ) by {
                        if full_map_parse(s@, es) {
                            let jj = choose|jj: int|
                                #[trigger] mapobj_parse(s@, 0, es, jj) && ws_end(s@, jj)
                                    == s@.len();
                            lemma_mapobj_parse_func(s@, 0, es, jj, entries_v(entries@), j as int);
                        }
                    }
                    assert forall|es: Seq<(Seq<char>, Seq<FieldV>)>|
                        entries_wf(es) && s@ == spec_enc_map(es) implies false by {
                        lemma_enc_map_parses(s@, es);
                        lemma_mapobj_parse_func(
                            s@,
                            0,
                            es,
                            s@.len() as int,
                            entries_v(entries@),
                            j as int,
                        );
                        assert(ws_end(s@, s@.len() as int) == s@.len());
                    }
                }
                None
            }
        },
        None => {
            proof {
                assert forall|es: Seq<(Seq<char>, Seq<FieldV>)>| !#[trigger] full_map_parse(
                    s@,
                    es,
                ) by {
                    if full_map_parse(s@, es) {
                        let jj = choose|jj: int|
                            #[trigger] mapobj_parse(s@, 0, es, jj) && ws_end(s@, jj) == s@.len();
                    }
                }
                assert forall|es: Seq<(Seq<char>, Seq<FieldV>)>|
                    entries_wf(es) && s@ == spec_enc_map(es) implies false by {
                    lemma_enc_map_parses(s@, es);
                }
            }
            None
        },
    }
}


/// The decimal text of an unsigned integer.
pub fn u64_to_string(v: u64) -> (r: String)
    ensures
        r@ == spec_enc_u64(v as nat),
{
    let mut out = String::new();
    enc_u64_push(&mut out, v);
    proof {
        assert(out@ =~= spec_enc_u64(v as nat));
    }
    out
}

/// Every character of an encoded integer is plain: digits are printable
/// ASCII and neither a quote nor a backslash.
pub proof fn lemma_enc_u64_plain(v: nat)
    ensures
        plain(spec_enc_u64(v)),
{
    lemma_enc_u64_digits(v);
    assert forall|t: int| 0 <= t < spec_enc_u64(v).len() implies is_plain_char(
        #[trigger] spec_enc_u64(v)[t],
    ) by {
        assert(is_digit(spec_enc_u64(v)[t]));
    }
}

} // verus!
