//! A small JSON reader over raw bytes.
//!
//! The upstream directory answers with a JSON document; this module turns the
//! response bytes into a [`Json`] tree.  The grammar accepted here is JSON
//! with two restrictions, both stated exactly by the specification functions:
//! a `\u` escape must name a code point below `0x10000` that is no
//! surrogate (so astral characters cannot be written escaped), and numbers
//! are kept as their raw byte text rather than converted to a numeric type.
//! Bytes at or above `0x80` inside strings pass through unchanged, so raw
//! UTF-8 content is preserved byte for byte.

use vstd::prelude::*;
use vstd::string::StringSliceAdditionalSpecFns;

verus! {

/// The byte sequence of an ASCII string, one byte per character.
pub open spec fn ascii_of(s: Seq<char>) -> Seq<u8> {
    Seq::new(s.len(), |i: int| s[i] as u8)
}

/// The bytes of an ASCII string slice.
pub fn ascii_bytes(s: &str) -> (r: &[u8])
    requires
        vstd::string::is_ascii(s),
    ensures
        r@ == ascii_of(s@),
{
    proof {
        vstd::string::is_ascii_spec_bytes(s);
        assert(s.spec_bytes() =~= ascii_of(s@));
    }
    s.as_bytes()
}

/// Whether two byte slices hold the same bytes.
pub fn bytes_eq(a: &[u8], b: &[u8]) -> (r: bool)
    ensures
        r == (a@ == b@),
{
    if a.len() != b.len() {
        proof {
            assert(a@.len() != b@.len());
        }
        return false;
    }
    let n = a.len();
    let mut i: usize = 0;
    while i < n
        invariant
            n == a@.len() == b@.len(),
            i <= n,
            forall|k: int| 0 <= k < i ==> a@[k] == b@[k],
        decreases n - i,
    {
        if a[i] != b[i] {
            return false;
        }
        i = i + 1;
    }
    proof {
        assert(a@ =~= b@);
    }
    true
}

/// A decoded JSON value.  Numbers keep their raw byte text.
pub enum Json {
    Null,
    Bool(bool),
    Num(Vec<u8>),
    Str(Vec<u8>),
    Arr(Vec<Json>),
    Obj(Vec<(Vec<u8>, Json)>),
}

/// The mathematical shape of a [`Json`] value.
pub enum JsonV {
    Null,
    Bool(bool),
    Num(Seq<u8>),
    Str(Seq<u8>),
    Arr(Seq<JsonV>),
    Obj(Seq<(Seq<u8>, JsonV)>),
}

impl Json {
    /// The mathematical value of this tree.
    pub open spec fn deep(self) -> JsonV
        decreases self,
    {
        match self {
            Json::Null => JsonV::Null,
            Json::Bool(b) => JsonV::Bool(b),
            Json::Num(s) => JsonV::Num(s@),
            Json::Str(s) => JsonV::Str(s@),
            Json::Arr(v) => JsonV::Arr(deep_seq(v@)),
            Json::Obj(v) => JsonV::Obj(deep_members(v@)),
        }
    }
}

/// The mathematical values of a sequence of trees.
pub open spec fn deep_seq(v: Seq<Json>) -> Seq<JsonV>
    decreases v,
{
    if v.len() == 0 {
        Seq::empty()
    } else {
        seq![v[0].deep()] + deep_seq(v.drop_first())
    }
}

/// The mathematical values of a sequence of key/value pairs.
pub open spec fn deep_members(v: Seq<(Vec<u8>, Json)>) -> Seq<(Seq<u8>, JsonV)>
    decreases v,
{
    if v.len() == 0 {
        Seq::empty()
    } else {
        seq![(v[0].0@, v[0].1.deep())] + deep_members(v.drop_first())
    }
}

/// `deep_seq` maps each element to its mathematical value, in place.
pub proof fn lemma_deep_seq(v: Seq<Json>)
    ensures
        deep_seq(v).len() == v.len(),
        forall|i: int| 0 <= i < v.len() ==> deep_seq(v)[i] == #[trigger] v[i].deep(),
    decreases v.len(),
{
    if v.len() > 0 {
        lemma_deep_seq(v.drop_first());
        assert forall|i: int| 0 <= i < v.len() implies deep_seq(v)[i] == #[trigger] v[i].deep() by {
            if i > 0 {
                assert(v.drop_first()[i - 1] == v[i]);
                assert(deep_seq(v)[i] == deep_seq(v.drop_first())[i - 1]);
            }
        }
    }
}

/// `deep_members` maps each pair to its mathematical value, in place.
pub proof fn lemma_deep_members(v: Seq<(Vec<u8>, Json)>)
    ensures
        deep_members(v).len() == v.len(),
        forall|i: int| 0 <= i < v.len() ==> deep_members(v)[i] == (#[trigger] v[i].0@, v[i].1.deep()),
    decreases v.len(),
{
    if v.len() > 0 {
        lemma_deep_members(v.drop_first());
        assert forall|i: int| 0 <= i < v.len() implies deep_members(v)[i] == (
        #[trigger] v[i].0@,
        v[i].1.deep(),
        ) by {
            if i > 0 {
                assert(v.drop_first()[i - 1] == v[i]);
                assert(deep_members(v)[i] == deep_members(v.drop_first())[i - 1]);
            }
        }
    }
}

/// JSON insignificant whitespace: space, tab, line feed, carriage return.
pub open spec fn is_ws(b: u8) -> bool {
    b == 32 || b == 9 || b == 10 || b == 13
}

/// ASCII decimal digit.
pub open spec fn is_digit(b: u8) -> bool {
    48 <= b <= 57
}

/// The first position at or after `i` holding no whitespace.
pub open spec fn spec_skip_ws(s: Seq<u8>, i: int) -> int
    decreases s.len() - i when 0 <= i <= s.len()
{
    if i < s.len() && is_ws(s[i]) {
        spec_skip_ws(s, i + 1)
    } else {
        i
    }
}

/// The value of one hexadecimal digit byte, either case.
pub open spec fn hex_digit(b: u8) -> Option<u32> {
    if 48 <= b <= 57 {  // '0'..'9'
        Some((b - 48) as u32)
    } else if 97 <= b <= 102 {  // 'a'..'f'
        Some((b - 87) as u32)
    } else if 65 <= b <= 70 {  // 'A'..'F'
        Some((b - 55) as u32)
    } else {
        None
    }
}

/// The code point named by four hexadecimal digit bytes at position `i`.
pub open spec fn hex4(s: Seq<u8>, i: int) -> Option<u32> {
    if 0 <= i && i + 4 <= s.len() {
        match (hex_digit(s[i]), hex_digit(s[i + 1]), hex_digit(s[i + 2]), hex_digit(s[i + 3])) {
            (Some(h0), Some(h1), Some(h2), Some(h3)) => Some(
                (h0 * 0x1000 + h1 * 0x100 + h2 * 0x10 + h3) as u32,
            ),
            _ => None,
        }
    } else {
        None
    }
}

/// The UTF-8 bytes of a code point below `0x10000`.
pub open spec fn utf8_enc(c: u32) -> Seq<u8> {
    if c < 0x80 {
        seq![c as u8]
    } else if c < 0x800 {
        seq![(0xC0 + c / 0x40) as u8, (0x80 + c % 0x40) as u8]
    } else {
        seq![(0xE0 + c / 0x1000) as u8, (0x80 + (c / 0x40) % 0x40) as u8, (0x80 + c % 0x40) as u8]
    }
}

/// What a one-byte escape after a backslash stands for; `None` where the
/// escape is not recognized (`\u` goes its own way, and surrogate escapes
/// are refused).
pub open spec fn spec_unescape(b: u8) -> Option<u8> {
    if b == 34 {  // '"'
        Some(34u8)
    } else if b == 92 {  // '\'
        Some(92u8)
    } else if b == 47 {  // '/'
        Some(47u8)
    } else if b == 98 {  // 'b'
        Some(8u8)
    } else if b == 102 {  // 'f'
        Some(12u8)
    } else if b == 110 {  // 'n'
        Some(10u8)
    } else if b == 114 {  // 'r'
        Some(13u8)
    } else if b == 116 {  // 't'
        Some(9u8)
    } else {
        None
    }
}

/// The content of a string literal read from position `i` (just after the
/// opening quote): the unescaped bytes and the position after the closing
/// quote.  Control bytes below `0x20` and unrecognized escapes are refused.
pub open spec fn spec_string_body(s: Seq<u8>, i: int) -> Option<(Seq<u8>, int)>
    decreases s.len() - i when 0 <= i <= s.len()
{
    if i >= s.len() {
        None
    } else if s[i] == 34 {  // '"'
        Some((Seq::empty(), i + 1))
    } else if s[i] == 92 {  // '\'
        if i + 2 > s.len() {
            None
        } else if s[i + 1] == 117 {  // 'u'
            if i + 6 > s.len() {
                None
            } else {
                match hex4(s, i + 2) {
                    None => None,
                    Some(c) => if 0xD800 <= c < 0xE000 {  // a surrogate
                        None
                    } else {
                        match spec_string_body(s, i + 6) {
                            None => None,
                            Some((rest, p)) => Some((utf8_enc(c) + rest, p)),
                        }
                    },
                }
            }
        } else {
            match spec_unescape(s[i + 1]) {
                None => None,
                Some(c) => match spec_string_body(s, i + 2) {
                    None => None,
                    Some((rest, p)) => Some((seq![c] + rest, p)),
                },
            }
        }
    } else if s[i] < 32 {
        None
    } else {
        match spec_string_body(s, i + 1) {
            None => None,
            Some((rest, p)) => Some((seq![s[i]] + rest, p)),
        }
    }
}

/// The first position at or after `i` holding no decimal digit.
pub open spec fn spec_digits_end(s: Seq<u8>, i: int) -> int
    decreases s.len() - i when 0 <= i <= s.len()
{
    if i < s.len() && is_digit(s[i]) {
        spec_digits_end(s, i + 1)
    } else {
        i
    }
}

pub proof fn lemma_digits_end(s: Seq<u8>, i: int)
    requires
        0 <= i <= s.len(),
    ensures
        i <= spec_digits_end(s, i) <= s.len(),
    decreases s.len() - i,
{
    if i < s.len() && is_digit(s[i]) {
        lemma_digits_end(s, i + 1);
    }
}

/// A number token read from position `i`: its raw byte text and the position
/// after it.  The shape is JSON's: an optional minus sign, an integer part
/// without a leading zero, an optional fraction, an optional exponent.
pub open spec fn spec_number(s: Seq<u8>, i: int) -> Option<(Seq<u8>, int)> {
    if !(0 <= i <= s.len()) {
        None
    } else {
        let d0 = if i < s.len() && s[i] == 45 { i + 1 } else { i };  // '-'
        if d0 >= s.len() || !is_digit(s[d0]) {
            None
        } else {
            let e1 = spec_digits_end(s, d0);
            if s[d0] == 48 && d0 + 1 < e1 {  // leading zero
                None
            } else {
                let e2 = if e1 < s.len() && s[e1] == 46 {  // '.'
                    if e1 + 1 < s.len() && is_digit(s[e1 + 1]) {
                        spec_digits_end(s, e1 + 1)
                    } else {
                        -1
                    }
                } else {
                    e1
                };
                if e2 < 0 {
                    None
                } else {
                    let e3 = if e2 < s.len() && (s[e2] == 101 || s[e2] == 69) {  // 'e' 'E'
                        let e = if e2 + 1 < s.len() && (s[e2 + 1] == 43 || s[e2 + 1] == 45) {
                            e2 + 2
                        } else {
                            e2 + 1
                        };
                        if e < s.len() && is_digit(s[e]) {
                            spec_digits_end(s, e)
                        } else {
                            -1
                        }
                    } else {
                        e2
                    };
                    if e3 < 0 {
                        None
                    } else {
                        Some((s.subrange(i, e3), e3))
                    }
                }
            }
        }
    }
}

/// A JSON value read from position `i`, leading whitespace allowed: its
/// mathematical shape and the position after it.
pub open spec fn spec_value(s: Seq<u8>, i: int) -> Option<(JsonV, int)>
    decreases s.len() - i, 0int when 0 <= i <= s.len()
{
    let j = spec_skip_ws(s, i);
    if !(i <= j && j < s.len()) {
        None
    } else {
        let b = s[j];
        if b == 110 {  // 'n'
            if j + 4 <= s.len() && s[j + 1] == 117 && s[j + 2] == 108 && s[j + 3] == 108 {
                Some((JsonV::Null, j + 4))
            } else {
                None
            }
        } else if b == 116 {  // 't'
            if j + 4 <= s.len() && s[j + 1] == 114 && s[j + 2] == 117 && s[j + 3] == 101 {
                Some((JsonV::Bool(true), j + 4))
            } else {
                None
            }
        } else if b == 102 {  // 'f'
            if j + 5 <= s.len() && s[j + 1] == 97 && s[j + 2] == 108 && s[j + 3] == 115 && s[j + 4]
                == 101 {
                Some((JsonV::Bool(false), j + 5))
            } else {
                None
            }
        } else if b == 34 {  // '"'
            match spec_string_body(s, j + 1) {
                None => None,
                Some((cs, p)) => Some((JsonV::Str(cs), p)),
            }
        } else if b == 45 || is_digit(b) {
            match spec_number(s, j) {
                None => None,
                Some((raw, p)) => Some((JsonV::Num(raw), p)),
            }
        } else if b == 91 {  // '['
            match spec_items(s, j + 1, true) {
                None => None,
                Some((els, p)) => Some((JsonV::Arr(els), p)),
            }
        } else if b == 123 {  // '{'
            match spec_members(s, j + 1, true) {
                None => None,
                Some((ms, p)) => Some((JsonV::Obj(ms), p)),
            }
        } else {
            None
        }
    }
}

/// The elements of an array read from position `i` (just after `[` or after a
/// comma); `first` says whether a closing bracket may come at once.
pub open spec fn spec_items(s: Seq<u8>, i: int, first: bool) -> Option<(Seq<JsonV>, int)>
    decreases s.len() - i, 1int when 0 <= i <= s.len()
{
    let m = spec_skip_ws(s, i);
    if !(i <= m && m <= s.len()) {
        None
    } else if first && m < s.len() && s[m] == 93 {  // ']'
        Some((Seq::empty(), m + 1))
    } else {
        match spec_value(s, i) {
            None => None,
            Some((el, p)) => {
                if !(i < p && p <= s.len()) {
                    None
                } else {
                    let q = spec_skip_ws(s, p);
                    if !(p <= q && q < s.len()) {
                        None
                    } else if s[q] == 93 {  // ']'
                        Some((seq![el], q + 1))
                    } else if s[q] == 44 {  // ','
                        match spec_items(s, q + 1, false) {
                            None => None,
                            Some((rest, r)) => Some((seq![el] + rest, r)),
                        }
                    } else {
                        None
                    }
                }
            },
        }
    }
}

/// The members of an object read from position `i` (just after `{` or after a
/// comma); `first` says whether a closing brace may come at once.
pub open spec fn spec_members(s: Seq<u8>, i: int, first: bool) -> Option<
    (Seq<(Seq<u8>, JsonV)>, int),
>
    decreases s.len() - i, 1int when 0 <= i <= s.len()
{
    let m = spec_skip_ws(s, i);
    if !(i <= m && m <= s.len()) {
        None
    } else if first && m < s.len() && s[m] == 125 {  // '}'
        Some((Seq::empty(), m + 1))
    } else if !(m < s.len() && s[m] == 34) {  // '"'
        None
    } else {
        match spec_string_body(s, m + 1) {
            None => None,
            Some((key, p)) => {
                if !(m < p && p <= s.len()) {
                    None
                } else {
                    let c = spec_skip_ws(s, p);
                    if !(p <= c && c < s.len() && s[c] == 58) {  // ':'
                        None
                    } else {
                        match spec_value(s, c + 1) {
                            None => None,
                            Some((val, p2)) => {
                                if !(c < p2 && p2 <= s.len()) {
                                    None
                                } else {
                                    let q = spec_skip_ws(s, p2);
                                    if !(p2 <= q && q < s.len()) {
                                        None
                                    } else if s[q] == 125 {  // '}'
                                        Some((seq![(key, val)], q + 1))
                                    } else if s[q] == 44 {  // ','
                                        match spec_members(s, q + 1, false) {
                                            None => None,
                                            Some((rest, r)) => Some((seq![(key, val)] + rest, r)),
                                        }
                                    } else {
                                        None
                                    }
                                }
                            },
                        }
                    }
                }
            },
        }
    }
}

/// The JSON document denoted by a whole byte sequence: one value with nothing
/// but whitespace around it, or `None` where the bytes are not such a
/// document.
pub open spec fn spec_json(s: Seq<u8>) -> Option<JsonV> {
    match spec_value(s, 0) {
        None => None,
        Some((v, p)) => {
            if !(0 <= p <= s.len()) {
                None
            } else if spec_skip_ws(s, p) == s.len() {
                Some(v)
            } else {
                None
            }
        },
    }
}

/// The first position at or after `i` holding no whitespace.
pub fn skip_ws(s: &[u8], i: usize) -> (r: usize)
    requires
        i <= s@.len(),
    ensures
        r as int == spec_skip_ws(s@, i as int),
        i <= r <= s@.len(),
{
    let mut cur: usize = i;
    loop
        invariant
            i <= cur <= s@.len(),
            spec_skip_ws(s@, i as int) == spec_skip_ws(s@, cur as int),
        decreases s@.len() - cur,
    {
        if cur < s.len() {
            let b = s[cur];
            if b == 32 || b == 9 || b == 10 || b == 13 {
                cur = cur + 1;
                continue ;
            }
        }
        return cur;
    }
}

/// The first position at or after `i` holding no decimal digit.
fn digits_end(s: &[u8], i: usize) -> (r: usize)
    requires
        i <= s@.len(),
    ensures
        r as int == spec_digits_end(s@, i as int),
        i <= r <= s@.len(),
{
    let mut cur: usize = i;
    loop
        invariant
            i <= cur <= s@.len(),
            spec_digits_end(s@, i as int) == spec_digits_end(s@, cur as int),
        decreases s@.len() - cur,
    {
        if cur < s.len() {
            let b = s[cur];
            if 48 <= b && b <= 57 {
                cur = cur + 1;
                continue ;
            }
        }
        return cur;
    }
}

/// The value of one hexadecimal digit byte.
fn hex_digit_byte(b: u8) -> (r: Option<u32>)
    ensures
        r == hex_digit(b),
{
    if 48 <= b && b <= 57 {
        Some((b - 48) as u32)
    } else if 97 <= b && b <= 102 {
        Some((b - 87) as u32)
    } else if 65 <= b && b <= 70 {
        Some((b - 55) as u32)
    } else {
        None
    }
}

/// Appends the UTF-8 bytes of a code point below `0x10000`.
fn push_code_point(out: &mut Vec<u8>, c: u32)
    requires
        c < 0x10000,
    ensures
        final(out)@ == old(out)@ + utf8_enc(c),
{
    if c < 0x80 {
        out.push(c as u8);
    } else if c < 0x800 {
        out.push((0xC0 + c / 0x40) as u8);
        out.push((0x80 + c % 0x40) as u8);
    } else {
        out.push((0xE0 + c / 0x1000) as u8);
        out.push((0x80 + (c / 0x40) % 0x40) as u8);
        out.push((0x80 + c % 0x40) as u8);
    }
    proof {
        assert(out@ =~= old(out)@ + utf8_enc(c));
    }
}

/// What a one-byte escape stands for.
fn unescape_byte(b: u8) -> (r: Option<u8>)
    ensures
        r == spec_unescape(b),
{
    if b == 34 {
        Some(34u8)
    } else if b == 92 {
        Some(92u8)
    } else if b == 47 {
        Some(47u8)
    } else if b == 98 {
        Some(8u8)
    } else if b == 102 {
        Some(12u8)
    } else if b == 110 {
        Some(10u8)
    } else if b == 114 {
        Some(13u8)
    } else if b == 116 {
        Some(9u8)
    } else {
        None
    }
}

/// Reads a string literal's content from just after its opening quote.
fn string_body(s: &[u8], i: usize) -> (r: Option<(Vec<u8>, usize)>)
    requires
        i <= s@.len(),
    ensures
        match r {
            None => spec_string_body(s@, i as int) is None,
            Some(vp) => spec_string_body(s@, i as int) == Some((vp.0@, vp.1 as int)) && i < vp.1
                <= s@.len(),
        },
{
    let mut cur: usize = i;
    let mut out: Vec<u8> = Vec::new();
    loop
        invariant
            i <= cur <= s@.len(),
            match spec_string_body(s@, cur as int) {
                None => spec_string_body(s@, i as int) is None,
                Some((rest, p)) => spec_string_body(s@, i as int) == Some((out@ + rest, p)),
            },
        decreases s@.len() - cur,
    {
        if cur >= s.len() {
            return None;
        }
        let b = s[cur];
        if b == 34 {
            proof {
                assert(out@ + Seq::<u8>::empty() =~= out@);
            }
            return Some((out, cur + 1));
        } else if b == 92 {
            if s.len() - cur < 2 {
                return None;
            }
            if s[cur + 1] == 117 {  // 'u'
                if s.len() - cur < 6 {
                    return None;
                }
                let h0 = match hex_digit_byte(s[cur + 2]) {
                    None => return None,
                    Some(h) => h,
                };
                let h1 = match hex_digit_byte(s[cur + 3]) {
                    None => return None,
                    Some(h) => h,
                };
                let h2 = match hex_digit_byte(s[cur + 4]) {
                    None => return None,
                    Some(h) => h,
                };
                let h3 = match hex_digit_byte(s[cur + 5]) {
                    None => return None,
                    Some(h) => h,
                };
                let c: u32 = h0 * 0x1000 + h1 * 0x100 + h2 * 0x10 + h3;
                if 0xD800 <= c && c < 0xE000 {
                    return None;
                }
                proof {
                    let rest2 = spec_string_body(s@, cur + 6);
                    if rest2 is Some {
                        assert(out@ + (utf8_enc(c) + rest2->Some_0.0) =~= (out@ + utf8_enc(c))
                            + rest2->Some_0.0);
                    }
                }
    push_code_point(&mut out, c);
                cur = cur + 6;
            } else {
                match unescape_byte(s[cur + 1]) {
                    None => {
                        return None;
                    },
                    Some(c) => {
                        proof {
                            let rest2 = spec_string_body(s@, cur + 2);
                            if rest2 is Some {
                                assert(out@ + (seq![c] + rest2->Some_0.0) =~= (out@ + seq![c])
                                    + rest2->Some_0.0);
                            }
                        }
                        out.push(c);
                        cur = cur + 2;
                    },
                }
            }
        } else if b < 32 {
            return None;
        } else {
            proof {
                let rest2 = spec_string_body(s@, cur + 1);
                if rest2 is Some {
                    assert(out@ + (seq![b] + rest2->Some_0.0) =~= (out@ + seq![b])
                        + rest2->Some_0.0);
                }
            }
            out.push(b);
            cur = cur + 1;
        }
    }
}

/// Reads a number token's raw byte text.
fn number(s: &[u8], i: usize) -> (r: Option<(Vec<u8>, usize)>)
    requires
        i <= s@.len(),
    ensures
        match r {
            None => spec_number(s@, i as int) is None,
            Some(vp) => spec_number(s@, i as int) == Some((vp.0@, vp.1 as int)) && i < vp.1
                <= s@.len(),
        },
{
    let d0: usize = if i < s.len() && s[i] == 45 {
        i + 1
    } else {
        i
    };
    if d0 >= s.len() {
        return None;
    }
    let first = s[d0];
    if !(48 <= first && first <= 57) {
        return None;
    }
    let e1 = digits_end(s, d0);
    if first == 48 && d0 + 1 < e1 {
        return None;
    }
    let e2: usize = if e1 < s.len() && s[e1] == 46 {
        if e1 + 1 < s.len() && 48 <= s[e1 + 1] && s[e1 + 1] <= 57 {
            digits_end(s, e1 + 1)
        } else {
            return None;
        }
    } else {
        e1
    };
    let e3: usize = if e2 < s.len() && (s[e2] == 101 || s[e2] == 69) {
        let e: usize = if e2 + 1 < s.len() && (s[e2 + 1] == 43 || s[e2 + 1] == 45) {
            e2 + 2
        } else {
            e2 + 1
        };
        if e < s.len() && 48 <= s[e] && s[e] <= 57 {
            digits_end(s, e)
        } else {
            return None;
        }
    } else {
        e2
    };
    proof {
        assert(spec_digits_end(s@, d0 as int) == spec_digits_end(s@, d0 + 1));
        lemma_digits_end(s@, d0 + 1);
    }
    let raw = vstd::slice::slice_to_vec(vstd::slice::slice_subrange(s, i, e3));
    Some((raw, e3))
}

/// Reads one JSON value from position `i`, leading whitespace allowed.
pub fn parse_value(s: &[u8], i: usize) -> (r: Option<(Json, usize)>)
    requires
        i <= s@.len(),
    ensures
        match r {
            None => spec_value(s@, i as int) is None,
            Some(jp) => spec_value(s@, i as int) == Some((jp.0.deep(), jp.1 as int)) && i < jp.1
                <= s@.len(),
        },
    decreases s@.len() - i, 0int,
{
    let j = skip_ws(s, i);
    if j >= s.len() {
        return None;
    }
    let b = s[j];
    if b == 110 {  // 'n'
        if s.len() - j >= 4 && s[j + 1] == 117 && s[j + 2] == 108 && s[j + 3] == 108 {
            Some((Json::Null, j + 4))
        } else {
            None
        }
    } else if b == 116 {  // 't'
        if s.len() - j >= 4 && s[j + 1] == 114 && s[j + 2] == 117 && s[j + 3] == 101 {
            Some((Json::Bool(true), j + 4))
        } else {
            None
        }
    } else if b == 102 {  // 'f'
        if s.len() - j >= 5 && s[j + 1] == 97 && s[j + 2] == 108 && s[j + 3] == 115 && s[j + 4]
            == 101 {
            Some((Json::Bool(false), j + 5))
        } else {
            None
        }
    } else if b == 34 {  // '"'
        match string_body(s, j + 1) {
            None => None,
            Some((cs, p)) => Some((Json::Str(cs), p)),
        }
    } else if b == 45 || (48 <= b && b <= 57) {
        match number(s, j) {
            None => None,
            Some((raw, p)) => Some((Json::Num(raw), p)),
        }
    } else if b == 91 {  // '['
        match parse_items(s, j + 1, true) {
            None => None,
            Some((els, p)) => Some((Json::Arr(els), p)),
        }
    } else if b == 123 {  // '{'
        match parse_members(s, j + 1, true) {
            None => None,
            Some((ms, p)) => Some((Json::Obj(ms), p)),
        }
    } else {
        None
    }
}

/// Reads an array's elements from just after `[` or after a comma.
pub fn parse_items(s: &[u8], i: usize, first: bool) -> (r: Option<(Vec<Json>, usize)>)
    requires
        i <= s@.len(),
    ensures
        match r {
            None => spec_items(s@, i as int, first) is None,
            Some(vp) => spec_items(s@, i as int, first) == Some((deep_seq(vp.0@), vp.1 as int))
                && i < vp.1 <= s@.len(),
        },
    decreases s@.len() - i, 1int,
{
    let m = skip_ws(s, i);
    if first && m < s.len() && s[m] == 93 {  // ']'
        let out: Vec<Json> = Vec::new();
        proof {
            assert(deep_seq(out@) =~= Seq::<JsonV>::empty());
        }
        return Some((out, m + 1));
    }
    match parse_value(s, i) {
        None => None,
        Some((el, p)) => {
            let q = skip_ws(s, p);
            if q >= s.len() {
                return None;
            }
            let c = s[q];
            if c == 93 {  // ']'
                let mut out: Vec<Json> = Vec::new();
                let ghost eld = el.deep();
                out.push(el);
                proof {
                    assert(out@.drop_first() =~= Seq::<Json>::empty());
                    assert(deep_seq(out@) == seq![out@[0].deep()] + deep_seq(out@.drop_first()));
                    assert(deep_seq(out@) =~= seq![eld]);
                }
                Some((out, q + 1))
            } else if c == 44 {  // ','
                match parse_items(s, q + 1, false) {
                    None => None,
                    Some((mut rest, r2)) => {
                        let ghost old_rest = rest@;
                        let ghost eld = el.deep();
                        rest.insert(0, el);
                        proof {
                            assert(rest@ =~= seq![rest@[0]] + old_rest);
                            assert(rest@.drop_first() =~= old_rest);
                            assert(deep_seq(rest@) =~= seq![eld] + deep_seq(old_rest));
                        }
                        Some((rest, r2))
                    },
                }
            } else {
                None
            }
        },
    }
}

/// Reads an object's members from just after `{` or after a comma.
pub fn parse_members(s: &[u8], i: usize, first: bool) -> (r: Option<(Vec<(Vec<u8>, Json)>, usize)>)
    requires
        i <= s@.len(),
    ensures
        match r {
            None => spec_members(s@, i as int, first) is None,
            Some(vp) => spec_members(s@, i as int, first) == Some(
                (deep_members(vp.0@), vp.1 as int),
            ) && i < vp.1 <= s@.len(),
        },
    decreases s@.len() - i, 1int,
{
    let m = skip_ws(s, i);
    if first && m < s.len() && s[m] == 125 {  // '}'
        let out: Vec<(Vec<u8>, Json)> = Vec::new();
        proof {
            assert(deep_members(out@) =~= Seq::<(Seq<u8>, JsonV)>::empty());
        }
        return Some((out, m + 1));
    }
    if !(m < s.len() && s[m] == 34) {  // '"'
        return None;
    }
    match string_body(s, m + 1) {
        None => None,
        Some((key, p)) => {
            let c = skip_ws(s, p);
            if !(c < s.len() && s[c] == 58) {  // ':'
                return None;
            }
            match parse_value(s, c + 1) {
                None => None,
                Some((val, p2)) => {
                    let q = skip_ws(s, p2);
                    if q >= s.len() {
                        return None;
                    }
                    let cb = s[q];
                    if cb == 125 {  // '}'
                        let mut out: Vec<(Vec<u8>, Json)> = Vec::new();
                        let ghost kd = key@;
                        let ghost vd = val.deep();
                        out.push((key, val));
                        proof {
                            assert(out@.drop_first() =~= Seq::<(Vec<u8>, Json)>::empty());
                            assert(deep_members(out@) == seq![(out@[0].0@, out@[0].1.deep())]
                                + deep_members(out@.drop_first()));
                            assert(deep_members(out@) =~= seq![(kd, vd)]);
                        }
                        Some((out, q + 1))
                    } else if cb == 44 {  // ','
                        match parse_members(s, q + 1, false) {
                            None => None,
                            Some((mut rest, r2)) => {
                                let ghost old_rest = rest@;
                                let ghost kd = key@;
                                let ghost vd = val.deep();
                                rest.insert(0, (key, val));
                                proof {
                                    assert(rest@ =~= seq![rest@[0]] + old_rest);
                                    assert(rest@.drop_first() =~= old_rest);
                                    assert(deep_members(rest@) =~= seq![(kd, vd)] + deep_members(
                                        old_rest,
                                    ));
                                }
                                Some((rest, r2))
                            },
                        }
                    } else {
                        None
                    }
                },
            }
        },
    }
}

/// Reads a whole JSON document: one value with only whitespace around it.
pub fn parse_json(s: &[u8]) -> (r: Option<Json>)
    ensures
        match r {
            None => spec_json(s@) is None,
            Some(j) => spec_json(s@) == Some(j.deep()),
        },
{
    match parse_value(s, 0) {
        None => None,
        Some((j, p)) => {
            let q = skip_ws(s, p);
            if q == s.len() {
                Some(j)
            } else {
                None
            }
        },
    }
}

} // verus!
