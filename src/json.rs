//! The fragment of JSON that the wire protocol uses: objects whose member
//! values are `null`, strings, or arrays of strings, with JSON whitespace
//! between tokens. Each parser works on a character sequence from a position
//! and is specified by a spec function over the same sequence and position.
use vstd::prelude::*;
use crate::text::{chars_of, push_chars};

verus! {

/// The value of one object member, as the protocol reads it.
pub ghost enum JsonValue {
    Null,
    Str(Seq<char>),
    StrList(Seq<Seq<char>>),
    /// Any other JSON value: a number, `true`, `false`, an object, or an
    /// array that does not hold strings alone.
    Other,
}

/// Members of an object, in the order they appear.
pub type Members = Seq<(Seq<char>, JsonValue)>;

pub open spec fn strings_view(v: Seq<String>) -> Seq<Seq<char>> {
    v.map_values(|x: String| x@)
}

/// An object member's value held at run time.
pub enum FieldValue {
    Null,
    Text(String),
    List(Vec<String>),
    Other,
}

impl View for FieldValue {
    type V = JsonValue;

    open spec fn view(&self) -> JsonValue {
        match self {
            FieldValue::Null => JsonValue::Null,
            FieldValue::Text(t) => JsonValue::Str(t@),
            FieldValue::List(l) => JsonValue::StrList(strings_view(l@)),
            FieldValue::Other => JsonValue::Other,
        }
    }
}

pub open spec fn members_view(v: Seq<(String, FieldValue)>) -> Members {
    v.map_values(|m: (String, FieldValue)| (m.0@, m.1@))
}

pub open spec fn is_ws(c: char) -> bool {
    c == ' ' || c == '\t' || c == '\n' || c == '\r'
}

/// The first position at or after `i` that holds no whitespace.
pub open spec fn skip_ws_spec(s: Seq<char>, i: int) -> int
    decreases s.len() - i,
{
    if 0 <= i < s.len() && is_ws(s[i]) {
        skip_ws_spec(s, i + 1)
    } else {
        i
    }
}

pub open spec fn hex_val(c: char) -> Option<u32> {
    let n = c as u32;
    if 48 <= n <= 57 {
        Some((n - 48) as u32)
    } else if 97 <= n <= 102 {
        Some((n - 87) as u32)
    } else if 65 <= n <= 70 {
        Some((n - 55) as u32)
    } else {
        None
    }
}

/// The number written by four hexadecimal digits at `i`.
pub open spec fn hex4_spec(s: Seq<char>, i: int) -> Option<u32> {
    if 0 <= i && i + 4 <= s.len() && hex_val(s[i]) is Some && hex_val(s[i + 1]) is Some
        && hex_val(s[i + 2]) is Some && hex_val(s[i + 3]) is Some {
        Some(
            (hex_val(s[i])->0 * 4096 + hex_val(s[i + 1])->0 * 256 + hex_val(s[i + 2])->0 * 16
                + hex_val(s[i + 3])->0) as u32,
        )
    } else {
        None
    }
}

/// Whether `v` is the code of a character outside the surrogate range.
pub open spec fn is_bmp_scalar(v: u32) -> bool {
    v < 0xD800 || (0xE000 <= v && v <= 0xFFFF)
}

pub open spec fn code(c: char) -> u32 {
    c as u32
}

/// Whether `v` is the code of a character.
pub open spec fn is_scalar(v: u32) -> bool {
    v < 0xD800 || (0xE000 <= v && v <= 0x10FFFF)
}

pub open spec fn is_high_surrogate(v: u32) -> bool {
    0xD800 <= v && v < 0xDC00
}

pub open spec fn is_low_surrogate(v: u32) -> bool {
    0xDC00 <= v && v < 0xE000
}

/// The code that a surrogate pair `hi`, `lo` stands for.
pub open spec fn pair_code(hi: u32, lo: u32) -> u32 {
    (0x10000 + (hi - 0xD800) * 0x400 + (lo - 0xDC00)) as u32
}

/// The code written by a second `\uXXXX` escape at `i` that completes a
/// surrogate pair begun by `hi`.
pub open spec fn low_escape_spec(s: Seq<char>, i: int, hi: u32) -> Option<u32> {
    if is_high_surrogate(hi) && 0 <= i && i + 1 < s.len() && s[i] == '\\' && s[i + 1] == 'u' {
        match hex4_spec(s, i + 2) {
            Some(lo) => if is_low_surrogate(lo) {
                Some(pair_code(hi, lo))
            } else {
                None
            },
            None => None,
        }
    } else {
        None
    }
}

pub open spec fn char_of(v: u32) -> char {
    choose|c: char| #[trigger] code(c) == v
}

/// The character that a one-letter escape `\e` stands for.
pub open spec fn short_escape(e: char) -> Option<char> {
    if e == '"' {
        Some('"')
    } else if e == '\\' {
        Some('\\')
    } else if e == '/' {
        Some('/')
    } else if e == 'b' {
        Some('\x08')
    } else if e == 'f' {
        Some('\x0c')
    } else if e == 'n' {
        Some('\n')
    } else if e == 'r' {
        Some('\r')
    } else if e == 't' {
        Some('\t')
    } else {
        None
    }
}

/// Reads the rest of a string literal from `i` (just after the opening quote
/// or a completed character), `acc` being what was read before. On success
/// gives the text and the position just after the closing quote.
pub open spec fn str_body_spec(s: Seq<char>, i: int, acc: Seq<char>) -> Option<(Seq<char>, int)>
    decreases s.len() - i,
{
    if i < 0 || i >= s.len() {
        None
    } else if s[i] == '"' {
        Some((acc, i + 1))
    } else if s[i] == '\\' {
        if i + 1 >= s.len() {
            None
        } else if s[i + 1] == 'u' {
            match hex4_spec(s, i + 2) {
                Some(v) => if is_bmp_scalar(v) {
                    str_body_spec(s, i + 6, acc.push(char_of(v)))
                } else {
                    match low_escape_spec(s, i + 6, v) {
                        Some(p) => str_body_spec(s, i + 12, acc.push(char_of(p))),
                        None => None,
                    }
                },
                None => None,
            }
        } else {
            match short_escape(s[i + 1]) {
                Some(c) => str_body_spec(s, i + 2, acc.push(c)),
                None => None,
            }
        }
    } else if (s[i] as u32) < 0x20 {
        None
    } else {
        str_body_spec(s, i + 1, acc.push(s[i]))
    }
}

/// A string literal starting at `i`.
pub open spec fn string_spec(s: Seq<char>, i: int) -> Option<(Seq<char>, int)> {
    if 0 <= i < s.len() && s[i] == '"' {
        str_body_spec(s, i + 1, Seq::empty())
    } else {
        None
    }
}

/// The items of an array of strings from `i` (at an item), `acc` being the
/// items read before; gives them and the position after the closing bracket.
pub open spec fn items_spec(s: Seq<char>, i: int, acc: Seq<Seq<char>>) -> Option<(Seq<Seq<char>>, int)>
    decreases s.len() - i,
{
    match string_spec(s, i) {
        None => None,
        Some((x, j)) => {
            let k = skip_ws_spec(s, j);
            if 0 <= k < s.len() && s[k] == ']' {
                Some((acc.push(x), k + 1))
            } else if 0 <= k < s.len() && s[k] == ',' {
                let m = skip_ws_spec(s, k + 1);
                if i < m <= s.len() {
                    items_spec(s, m, acc.push(x))
                } else {
                    None
                }
            } else {
                None
            }
        },
    }
}

/// An array of strings starting at `i`.
pub open spec fn list_spec(s: Seq<char>, i: int) -> Option<(Seq<Seq<char>>, int)> {
    if 0 <= i < s.len() && s[i] == '[' {
        let j = skip_ws_spec(s, i + 1);
        if 0 <= j < s.len() && s[j] == ']' {
            Some((Seq::empty(), j + 1))
        } else {
            items_spec(s, j, Seq::empty())
        }
    } else {
        None
    }
}

pub open spec fn is_digit(c: char) -> bool {
    48 <= c as u32 <= 57
}

/// The first position at or after `i` that holds no digit.
pub open spec fn digits_end(s: Seq<char>, i: int) -> int
    decreases s.len() - i,
{
    if 0 <= i < s.len() && is_digit(s[i]) {
        digits_end(s, i + 1)
    } else {
        i
    }
}

/// The end of an optional fraction `.digits` at `b`.
pub open spec fn fraction_end(s: Seq<char>, b: int) -> Option<int> {
    if 0 <= b < s.len() && s[b] == '.' {
        let d = digits_end(s, b + 1);
        if d > b + 1 {
            Some(d)
        } else {
            None
        }
    } else {
        Some(b)
    }
}

/// The end of an optional exponent `e[+-]digits` at `c`.
pub open spec fn exponent_end(s: Seq<char>, c: int) -> Option<int> {
    if 0 <= c < s.len() && (s[c] == 'e' || s[c] == 'E') {
        let e = if c + 1 < s.len() && (s[c + 1] == '+' || s[c + 1] == '-') {
            c + 2
        } else {
            c + 1
        };
        let d = digits_end(s, e);
        if d > e {
            Some(d)
        } else {
            None
        }
    } else {
        Some(c)
    }
}

/// The end of a JSON number starting at `i`.
pub open spec fn number_end(s: Seq<char>, i: int) -> Option<int> {
    if 0 <= i < s.len() {
        let a = if s[i] == '-' {
            i + 1
        } else {
            i
        };
        if a < s.len() && is_digit(s[a]) {
            let b = if s[a] == '0' {
                a + 1
            } else {
                digits_end(s, a)
            };
            match fraction_end(s, b) {
                Some(c) => exponent_end(s, c),
                None => None,
            }
        } else {
            None
        }
    } else {
        None
    }
}

pub open spec fn true_text() -> Seq<char> {
    seq!['t', 'r', 'u', 'e']
}

pub open spec fn false_text() -> Seq<char> {
    seq!['f', 'a', 'l', 's', 'e']
}

/// How deeply arrays and objects may nest inside a member value.
pub const MAX_NESTING: usize = 128;

/// The end of any JSON value starting at `i`, in which arrays and objects
/// nest at most `depth` deep.
pub open spec fn skip_value_spec(s: Seq<char>, i: int, depth: nat) -> Option<int>
    decreases s.len() - i, 0int,
{
    if !(0 <= i < s.len()) {
        None
    } else if s[i] == '"' {
        match string_spec(s, i) {
            Some((_, j)) => Some(j),
            None => None,
        }
    } else if s[i] == '[' || s[i] == '{' {
        let close = if s[i] == '[' {
            ']'
        } else {
            '}'
        };
        let j = skip_ws_spec(s, i + 1);
        if depth == 0 {
            None
        } else if 0 <= j < s.len() && s[j] == close {
            Some(j + 1)
        } else if i < j <= s.len() {
            if s[i] == '[' {
                skip_elements_spec(s, j, (depth - 1) as nat)
            } else {
                skip_fields_spec(s, j, (depth - 1) as nat)
            }
        } else {
            None
        }
    } else if occurs_at(s, i, true_text()) || occurs_at(s, i, null_text()) {
        Some(i + 4)
    } else if occurs_at(s, i, false_text()) {
        Some(i + 5)
    } else {
        number_end(s, i)
    }
}

/// The end of the elements of an array from `i` (at an element), just
/// after the closing bracket.
pub open spec fn skip_elements_spec(s: Seq<char>, i: int, depth: nat) -> Option<int>
    decreases s.len() - i, 1int,
{
    match skip_value_spec(s, i, depth) {
        None => None,
        Some(j) => {
            let k = skip_ws_spec(s, j);
            if 0 <= k < s.len() && s[k] == ']' {
                Some(k + 1)
            } else if 0 <= k < s.len() && s[k] == ',' {
                let m = skip_ws_spec(s, k + 1);
                if i < m <= s.len() {
                    skip_elements_spec(s, m, depth)
                } else {
                    None
                }
            } else {
                None
            }
        },
    }
}

/// The end of the members of an object from `i` (at a key), just after the
/// closing brace.
pub open spec fn skip_fields_spec(s: Seq<char>, i: int, depth: nat) -> Option<int>
    decreases s.len() - i, 1int,
{
    match string_spec(s, i) {
        None => None,
        Some((_, j)) => {
            let k = skip_ws_spec(s, j);
            if 0 <= k < s.len() && s[k] == ':' {
                let v = skip_ws_spec(s, k + 1);
                if i < v <= s.len() {
                    match skip_value_spec(s, v, depth) {
                        None => None,
                        Some(n) => {
                            let p = skip_ws_spec(s, n);
                            if 0 <= p < s.len() && s[p] == '}' {
                                Some(p + 1)
                            } else if 0 <= p < s.len() && s[p] == ',' {
                                let q = skip_ws_spec(s, p + 1);
                                if i < q <= s.len() {
                                    skip_fields_spec(s, q, depth)
                                } else {
                                    None
                                }
                            } else {
                                None
                            }
                        },
                    }
                } else {
                    None
                }
            } else {
                None
            }
        },
    }
}

pub open spec fn is_null_at(s: Seq<char>, i: int) -> bool {
    0 <= i && i + 4 <= s.len() && s[i] == 'n' && s[i + 1] == 'u' && s[i + 2] == 'l' && s[i + 3] == 'l'
}

/// A member value starting at `i`.
pub open spec fn value_spec(s: Seq<char>, i: int) -> Option<(JsonValue, int)> {
    if is_null_at(s, i) {
        Some((JsonValue::Null, i + 4))
    } else {
        match string_spec(s, i) {
            Some((x, j)) => Some((JsonValue::Str(x), j)),
            None => match list_spec(s, i) {
                Some((l, j)) => Some((JsonValue::StrList(l), j)),
                None => match skip_value_spec(s, i, MAX_NESTING as nat) {
                    Some(j) => Some((JsonValue::Other, j)),
                    None => None,
                },
            },
        }
    }
}

/// The members of an object from `i` (at a member's key), `acc` being the
/// members read before; gives them and the position after the closing brace.
pub open spec fn members_spec(s: Seq<char>, i: int, acc: Members) -> Option<(Members, int)>
    decreases s.len() - i,
{
    match string_spec(s, i) {
        None => None,
        Some((key, j)) => {
            let k = skip_ws_spec(s, j);
            if 0 <= k < s.len() && s[k] == ':' {
                match value_spec(s, skip_ws_spec(s, k + 1)) {
                    None => None,
                    Some((v, n)) => {
                        let p = skip_ws_spec(s, n);
                        if 0 <= p < s.len() && s[p] == '}' {
                            Some((acc.push((key, v)), p + 1))
                        } else if 0 <= p < s.len() && s[p] == ',' {
                            let q = skip_ws_spec(s, p + 1);
                            if i < q <= s.len() {
                                members_spec(s, q, acc.push((key, v)))
                            } else {
                                None
                            }
                        } else {
                            None
                        }
                    },
                }
            } else {
                None
            }
        },
    }
}

/// A whole text that holds one object and nothing else but whitespace.
pub open spec fn document_spec(s: Seq<char>) -> Option<Members> {
    let i = skip_ws_spec(s, 0);
    let r = if 0 <= i < s.len() && s[i] == '{' {
        let j = skip_ws_spec(s, i + 1);
        if 0 <= j < s.len() && s[j] == '}' {
            Some((Seq::empty(), j + 1))
        } else {
            members_spec(s, j, Seq::empty())
        }
    } else {
        None
    };
    match r {
        Some((m, e)) => if skip_ws_spec(s, e) == s.len() {
            Some(m)
        } else {
            None
        },
        None => None,
    }
}

/// The value of the last member named `key`.
pub open spec fn find_member(m: Members, key: Seq<char>) -> Option<JsonValue>
    decreases m.len(),
{
    if m.len() == 0 {
        None
    } else if m.last().0 == key {
        Some(m.last().1)
    } else {
        find_member(m.drop_last(), key)
    }
}

pub proof fn lemma_char_of(c: char)
    ensures
        char_of(code(c)) == c,
{
    let v = code(c);
    assert(code(c) == v);
    let w = char_of(v);
    assert(code(w) == v);
}

/// The first position at or after `i` that holds no whitespace.
pub fn skip_ws(s: &Vec<char>, i: usize) -> (r: usize)
    requires
        i <= s@.len(),
    ensures
        r as int == skip_ws_spec(s@, i as int),
        i <= r <= s@.len(),
{
    let mut k: usize = i;
    while k < s.len() && (s[k] == ' ' || s[k] == '\t' || s[k] == '\n' || s[k] == '\r')
        invariant
            i <= k <= s@.len(),
            skip_ws_spec(s@, k as int) == skip_ws_spec(s@, i as int),
        decreases s@.len() - k,
    {
        k = k + 1;
    }
    k
}

fn hex_digit(c: char) -> (r: Option<u32>)
    ensures
        r == hex_val(c),
{
    let n = c as u32;
    if 48 <= n && n <= 57 {
        Some(n - 48)
    } else if 97 <= n && n <= 102 {
        Some(n - 87)
    } else if 65 <= n && n <= 70 {
        Some(n - 55)
    } else {
        None
    }
}

fn hex4(s: &Vec<char>, i: usize) -> (r: Option<u32>)
    ensures
        r == hex4_spec(s@, i as int),
{
    if i > s.len() || s.len() - i < 4 {
        return None;
    }
    let a = hex_digit(s[i]);
    let b = hex_digit(s[i + 1]);
    let c = hex_digit(s[i + 2]);
    let d = hex_digit(s[i + 3]);
    match (a, b, c, d) {
        (Some(a), Some(b), Some(c), Some(d)) => Some(a * 4096 + b * 256 + c * 16 + d),
        _ => None,
    }
}

/// Relies on `char::from_u32`: the character whose code is `v`, where there is one.
#[verifier::external_body]
fn char_from_code(v: u32) -> (r: Option<char>)
    ensures
        match r {
            Some(c) => code(c) == v,
            None => !is_scalar(v),
        },
{
    char::from_u32(v)
}

fn short_escape_exec(e: char) -> (r: Option<char>)
    ensures
        r == short_escape(e),
{
    if e == '"' {
        Some('"')
    } else if e == '\\' {
        Some('\\')
    } else if e == '/' {
        Some('/')
    } else if e == 'b' {
        Some('\x08')
    } else if e == 'f' {
        Some('\x0c')
    } else if e == 'n' {
        Some('\n')
    } else if e == 'r' {
        Some('\r')
    } else if e == 't' {
        Some('\t')
    } else {
        None
    }
}

pub(crate) fn push_one(out: &mut String, c: char)
    ensures
        final(out)@ == old(out)@.push(c),
{
    let v: Vec<char> = vec![c];
    push_chars(out, &v, 0, 1);
    assert(v@.subrange(0, 1) =~= seq![c]);
}

fn low_escape(s: &Vec<char>, i: usize, hi: u32) -> (r: Option<u32>)
    ensures
        r == low_escape_spec(s@, i as int, hi),
        r matches Some(p) ==> is_scalar(p) && i + 6 <= s@.len(),
{
    if !(hi >= 0xD800 && hi < 0xDC00) || i >= s.len() || i + 1 >= s.len() || s[i] != '\\' || s[i
        + 1] != 'u' {
        return None;
    }
    match hex4(s, i + 2) {
        Some(lo) => if lo >= 0xDC00 && lo < 0xE000 {
            Some(0x10000 + (hi - 0xD800) * 0x400 + (lo - 0xDC00))
        } else {
            None
        },
        None => None,
    }
}

/// A string literal starting at `i`: its text and the position after it.
pub fn parse_string(s: &Vec<char>, i: usize) -> (r: Option<(String, usize)>)
    ensures
        match r {
            Some((x, j)) => string_spec(s@, i as int) == Some((x@, j as int)) && i < j <= s@.len(),
            None => string_spec(s@, i as int) is None,
        },
{
    if i >= s.len() || s[i] != '"' {
        return None;
    }
    let mut acc = String::new();
    let mut k: usize = i + 1;
    assert(acc@ =~= Seq::<char>::empty());
    loop
        invariant
            i < k <= s@.len(),
            string_spec(s@, i as int) == str_body_spec(s@, k as int, acc@),
        decreases s@.len() - k,
    {
        if k >= s.len() {
            return None;
        }
        let c = s[k];
        if c == '"' {
            return Some((acc, k + 1));
        } else if c == '\\' {
            if k + 1 >= s.len() {
                return None;
            }
            if s[k + 1] == 'u' {
                match hex4(s, k + 2) {
                    Some(v) => {
                        let code_v = if v >= 0xD800 && v < 0xE000 {
                            match low_escape(s, k + 6, v) {
                                Some(p) => p,
                                None => {
                                    return None;
                                },
                            }
                        } else {
                            v
                        };
                        match char_from_code(code_v) {
                            Some(ch) => {
                                proof {
                                    lemma_char_of(ch);
                                }
                                push_one(&mut acc, ch);
                                if v >= 0xD800 && v < 0xE000 {
                                    k = k + 12;
                                } else {
                                    k = k + 6;
                                }
                            },
                            None => {
                                return None;
                            },
                        }
                    },
                    None => {
                        return None;
                    },
                }
            } else {
                match short_escape_exec(s[k + 1]) {
                    Some(ch) => {
                        push_one(&mut acc, ch);
                        k = k + 2;
                    },
                    None => {
                        return None;
                    },
                }
            }
        } else if (c as u32) < 0x20 {
            return None;
        } else {
            push_one(&mut acc, c);
            k = k + 1;
        }
    }
}

/// An array of strings starting at `i`: its items and the position after it.
pub fn parse_list(s: &Vec<char>, i: usize) -> (r: Option<(Vec<String>, usize)>)
    ensures
        match r {
            Some((l, j)) => list_spec(s@, i as int) == Some((strings_view(l@), j as int)) && i < j
                <= s@.len(),
            None => list_spec(s@, i as int) is None,
        },
{
    if i >= s.len() || s[i] != '[' {
        return None;
    }
    let mut acc: Vec<String> = Vec::new();
    let mut k = skip_ws(s, i + 1);
    if k < s.len() && s[k] == ']' {
        assert(strings_view(acc@) =~= Seq::<Seq<char>>::empty());
        return Some((acc, k + 1));
    }
    assert(strings_view(acc@) =~= Seq::<Seq<char>>::empty());
    loop
        invariant
            i < k <= s@.len(),
            list_spec(s@, i as int) == items_spec(s@, k as int, strings_view(acc@)),
        decreases s@.len() - k,
    {
        match parse_string(s, k) {
            None => {
                return None;
            },
            Some((x, j)) => {
                let ghost before = strings_view(acc@);
                acc.push(x);
                assert(strings_view(acc@) =~= before.push(x@));
                let e = skip_ws(s, j);
                if e < s.len() && s[e] == ']' {
                    return Some((acc, e + 1));
                } else if e < s.len() && s[e] == ',' {
                    k = skip_ws(s, e + 1);
                } else {
                    return None;
                }
            },
        }
    }
}

fn digits_end_exec(s: &Vec<char>, i: usize) -> (r: usize)
    requires
        i <= s@.len(),
    ensures
        r as int == digits_end(s@, i as int),
        i <= r <= s@.len(),
{
    let mut k: usize = i;
    while k < s.len() && (s[k] as u32) >= 48 && (s[k] as u32) <= 57
        invariant
            i <= k <= s@.len(),
            digits_end(s@, k as int) == digits_end(s@, i as int),
        decreases s@.len() - k,
    {
        k = k + 1;
    }
    k
}

fn number_end_exec(s: &Vec<char>, i: usize) -> (r: Option<usize>)
    ensures
        match r {
            Some(j) => number_end(s@, i as int) == Some(j as int) && i < j <= s@.len(),
            None => number_end(s@, i as int) is None,
        },
{
    if i >= s.len() {
        return None;
    }
    let a = if s[i] == '-' {
        i + 1
    } else {
        i
    };
    if !(a < s.len() && (s[a] as u32) >= 48 && (s[a] as u32) <= 57) {
        return None;
    }
    let b = if s[a] == '0' {
        a + 1
    } else {
        digits_end_exec(s, a + 1)
    };
    let c = if b < s.len() && s[b] == '.' {
        let d = digits_end_exec(s, b + 1);
        if d > b + 1 {
            d
        } else {
            return None;
        }
    } else {
        b
    };
    if c < s.len() && (s[c] == 'e' || s[c] == 'E') {
        let e = if c + 1 < s.len() && (s[c + 1] == '+' || s[c + 1] == '-') {
            c + 2
        } else {
            c + 1
        };
        let d = digits_end_exec(s, e);
        if d > e {
            Some(d)
        } else {
            None
        }
    } else {
        Some(c)
    }
}

fn word_at(s: &Vec<char>, i: usize, w: &Vec<char>) -> (r: bool)
    ensures
        r == occurs_at(s@, i as int, w@),
{
    if i > s.len() || s.len() - i < w.len() {
        return false;
    }
    let mut k: usize = 0;
    let n = s.len();
    while k < w.len()
        invariant
            n == s@.len(),
            i + w@.len() <= s@.len(),
            k <= w@.len(),
            forall|m: int| 0 <= m < k ==> s@[i + m] == w@[m],
        decreases w@.len() - k,
    {
        assert(i + k < n);
        if s[i + k] != w[k] {
            proof {
                assert(s@.subrange(i as int, i + w@.len())[k as int] == s@[i + k]);
            }
            return false;
        }
        k = k + 1;
    }
    assert(s@.subrange(i as int, i + w@.len()) =~= w@);
    true
}

/// The end of any JSON value starting at `i`, in which arrays and objects
/// nest at most `depth` deep.
pub fn skip_value(s: &Vec<char>, i: usize, depth: usize) -> (r: Option<usize>)
    ensures
        match r {
            Some(j) => skip_value_spec(s@, i as int, depth as nat) == Some(j as int) && i < j
                <= s@.len(),
            None => skip_value_spec(s@, i as int, depth as nat) is None,
        },
    decreases s@.len() - i, 0int,
{
    if i >= s.len() {
        return None;
    }
    let c = s[i];
    if c == '"' {
        match parse_string(s, i) {
            Some((_, j)) => Some(j),
            None => None,
        }
    } else if c == '[' || c == '{' {
        let close = if c == '[' {
            ']'
        } else {
            '}'
        };
        let j = skip_ws(s, i + 1);
        if depth == 0 {
            None
        } else if j < s.len() && s[j] == close {
            Some(j + 1)
        } else if c == '[' {
            skip_elements(s, j, depth - 1)
        } else {
            skip_fields(s, j, depth - 1)
        }
    } else {
        let tv = vec!['t', 'r', 'u', 'e'];
        let nv = vec!['n', 'u', 'l', 'l'];
        let fv = vec!['f', 'a', 'l', 's', 'e'];
        assert(tv@ =~= true_text());
        assert(nv@ =~= null_text());
        assert(fv@ =~= false_text());
        if word_at(s, i, &tv) || word_at(s, i, &nv) {
            Some(i + 4)
        } else if word_at(s, i, &fv) {
            Some(i + 5)
        } else {
            number_end_exec(s, i)
        }
    }
}

fn skip_elements(s: &Vec<char>, i: usize, depth: usize) -> (r: Option<usize>)
    requires
        i <= s@.len(),
    ensures
        match r {
            Some(j) => skip_elements_spec(s@, i as int, depth as nat) == Some(j as int) && i < j
                <= s@.len(),
            None => skip_elements_spec(s@, i as int, depth as nat) is None,
        },
    decreases s@.len() - i, 1int,
{
    match skip_value(s, i, depth) {
        None => None,
        Some(j) => {
            let k = skip_ws(s, j);
            if k < s.len() && s[k] == ']' {
                Some(k + 1)
            } else if k < s.len() && s[k] == ',' {
                let m = skip_ws(s, k + 1);
                skip_elements(s, m, depth)
            } else {
                None
            }
        },
    }
}

fn skip_fields(s: &Vec<char>, i: usize, depth: usize) -> (r: Option<usize>)
    requires
        i <= s@.len(),
    ensures
        match r {
            Some(j) => skip_fields_spec(s@, i as int, depth as nat) == Some(j as int) && i < j
                <= s@.len(),
            None => skip_fields_spec(s@, i as int, depth as nat) is None,
        },
    decreases s@.len() - i, 1int,
{
    match parse_string(s, i) {
        None => None,
        Some((_, j)) => {
            let k = skip_ws(s, j);
            if k < s.len() && s[k] == ':' {
                let v = skip_ws(s, k + 1);
                match skip_value(s, v, depth) {
                    None => None,
                    Some(n) => {
                        let p = skip_ws(s, n);
                        if p < s.len() && s[p] == '}' {
                            Some(p + 1)
                        } else if p < s.len() && s[p] == ',' {
                            let q = skip_ws(s, p + 1);
                            skip_fields(s, q, depth)
                        } else {
                            None
                        }
                    },
                }
            } else {
                None
            }
        },
    }
}

/// A member value starting at `i`: the value and the position after it.
pub fn parse_value(s: &Vec<char>, i: usize) -> (r: Option<(FieldValue, usize)>)
    ensures
        match r {
            Some((v, j)) => value_spec(s@, i as int) == Some((v@, j as int)) && i < j <= s@.len(),
            None => value_spec(s@, i as int) is None,
        },
{
    if i <= s.len() && s.len() - i >= 4 && s[i] == 'n' && s[i + 1] == 'u' && s[i + 2] == 'l'
        && s[i + 3] == 'l' {
        return Some((FieldValue::Null, i + 4));
    }
    match parse_string(s, i) {
        Some((x, j)) => Some((FieldValue::Text(x), j)),
        None => match parse_list(s, i) {
            Some((l, j)) => Some((FieldValue::List(l), j)),
            None => match skip_value(s, i, MAX_NESTING) {
                Some(j) => Some((FieldValue::Other, j)),
                None => None,
            },
        },
    }
}

/// The members of an object from `i` (at a member's key), and the position
/// after the closing brace.
fn parse_members(s: &Vec<char>, i: usize) -> (r: Option<(Vec<(String, FieldValue)>, usize)>)
    requires
        i <= s@.len(),
    ensures
        match r {
            Some((m, j)) => members_spec(s@, i as int, Seq::empty()) == Some(
                (members_view(m@), j as int),
            ) && j <= s@.len(),
            None => members_spec(s@, i as int, Seq::empty()) is None,
        },
{
    let mut acc: Vec<(String, FieldValue)> = Vec::new();
    let mut k: usize = i;
    assert(members_view(acc@) =~= Seq::<(Seq<char>, JsonValue)>::empty());
    loop
        invariant
            i <= k <= s@.len(),
            members_spec(s@, i as int, Seq::empty()) == members_spec(
                s@,
                k as int,
                members_view(acc@),
            ),
        decreases s@.len() - k,
    {
        let (key, j) = match parse_string(s, k) {
            None => {
                return None;
            },
            Some(p) => p,
        };
        let c = skip_ws(s, j);
        if c >= s.len() || s[c] != ':' {
            return None;
        }
        let vs = skip_ws(s, c + 1);
        let (v, n) = match parse_value(s, vs) {
            None => {
                return None;
            },
            Some(p) => p,
        };
        let ghost before = members_view(acc@);
        let ghost entry = (key@, v@);
        acc.push((key, v));
        assert(members_view(acc@) =~= before.push(entry));
        let p = skip_ws(s, n);
        if p < s.len() && s[p] == '}' {
            return Some((acc, p + 1));
        } else if p < s.len() && s[p] == ',' {
            k = skip_ws(s, p + 1);
        } else {
            return None;
        }
    }
}

/// Reads a text that holds one object and nothing else but whitespace.
pub fn parse_document(s: &Vec<char>) -> (r: Option<Vec<(String, FieldValue)>>)
    ensures
        match r {
            Some(m) => document_spec(s@) == Some(members_view(m@)),
            None => document_spec(s@) is None,
        },
{
    let i = skip_ws(s, 0);
    if i >= s.len() || s[i] != '{' {
        return None;
    }
    let j = skip_ws(s, i + 1);
    let (m, e) = if j < s.len() && s[j] == '}' {
        let m: Vec<(String, FieldValue)> = Vec::new();
        assert(members_view(m@) =~= Seq::<(Seq<char>, JsonValue)>::empty());
        (m, j + 1)
    } else {
        match parse_members(s, j) {
            Some(p) => p,
            None => {
                return None;
            },
        }
    };
    if skip_ws(s, e) == s.len() {
        Some(m)
    } else {
        None
    }
}

/// The value of the last member named `key`.
pub fn find<'a>(m: &'a Vec<(String, FieldValue)>, key: &String) -> (r: Option<&'a FieldValue>)
    ensures
        match r {
            Some(v) => find_member(members_view(m@), key@) == Some(v@),
            None => find_member(members_view(m@), key@) is None,
        },
{
    let mut k: usize = m.len();
    assert(m@.subrange(0, k as int) =~= m@);
    while k > 0
        invariant
            k <= m@.len(),
            find_member(members_view(m@), key@) == find_member(
                members_view(m@.subrange(0, k as int)),
                key@,
            ),
        decreases k,
    {
        let ghost sub = members_view(m@.subrange(0, k as int));
        assert(members_view(m@.subrange(0, k - 1)) =~= sub.drop_last());
        if m[k - 1].0 == *key {
            return Some(&m[k - 1].1);
        }
        k = k - 1;
    }
    None
}

/// A hexadecimal digit for `n < 16`, in lower case.
pub open spec fn hex_char(n: u32) -> char {
    if n < 10 {
        ((n + 48) as u8) as char
    } else {
        ((n + 87) as u8) as char
    }
}

/// How one character is written inside a string literal.
pub open spec fn escape_char(c: char) -> Seq<char> {
    if c == '"' {
        seq!['\\', '"']
    } else if c == '\\' {
        seq!['\\', '\\']
    } else if c == '\n' {
        seq!['\\', 'n']
    } else if c == '\r' {
        seq!['\\', 'r']
    } else if c == '\t' {
        seq!['\\', 't']
    } else if c == '\x08' {
        seq!['\\', 'b']
    } else if c == '\x0c' {
        seq!['\\', 'f']
    } else if code(c) < 0x20 {
        seq!['\\', 'u', '0', '0', hex_char(code(c) / 16), hex_char(code(c) % 16)]
    } else {
        seq![c]
    }
}

pub open spec fn escape(s: Seq<char>) -> Seq<char>
    decreases s.len(),
{
    if s.len() == 0 {
        Seq::empty()
    } else {
        escape_char(s[0]) + escape(s.drop_first())
    }
}

/// The string literal that holds `s`.
pub open spec fn quoted(s: Seq<char>) -> Seq<char> {
    seq!['"'] + escape(s) + seq!['"']
}

pub open spec fn list_body(l: Seq<Seq<char>>) -> Seq<char>
    decreases l.len(),
{
    if l.len() == 0 {
        Seq::empty()
    } else if l.len() == 1 {
        quoted(l[0])
    } else {
        quoted(l[0]) + seq![','] + list_body(l.drop_first())
    }
}

/// The array literal that holds the strings `l`.
pub open spec fn list_text(l: Seq<Seq<char>>) -> Seq<char> {
    seq!['['] + list_body(l) + seq![']']
}

pub open spec fn null_text() -> Seq<char> {
    seq!['n', 'u', 'l', 'l']
}

pub proof fn lemma_escape_append(a: Seq<char>, b: Seq<char>)
    ensures
        escape(a + b) == escape(a) + escape(b),
    decreases a.len(),
{
    if a.len() == 0 {
        assert(a + b =~= b);
    } else {
        lemma_escape_append(a.drop_first(), b);
        assert((a + b).drop_first() =~= a.drop_first() + b);
    }
}

pub proof fn lemma_list_body_push(l: Seq<Seq<char>>, x: Seq<char>)
    requires
        l.len() >= 1,
    ensures
        list_body(l.push(x)) == list_body(l) + seq![','] + quoted(x),
    decreases l.len(),
{
    let lx = l.push(x);
    if l.len() == 1 {
        assert(lx.drop_first() =~= seq![x]);
        assert(list_body(seq![x]) == quoted(x));
        assert(lx[0] == l[0]);
        assert(list_body(lx) =~= list_body(l) + seq![','] + quoted(x));
    } else {
        lemma_list_body_push(l.drop_first(), x);
        assert(lx.drop_first() =~= l.drop_first().push(x));
        assert(lx[0] == l[0]);
        assert(list_body(lx) =~= list_body(l) + seq![','] + quoted(x));
    }
}

fn hex_char_exec(n: u32) -> (r: char)
    requires
        n < 16,
    ensures
        r == hex_char(n),
{
    if n < 10 {
        ((n + 48) as u8) as char
    } else {
        ((n + 87) as u8) as char
    }
}

fn write_escaped_char(out: &mut String, c: char)
    ensures
        final(out)@ == old(out)@ + escape_char(c),
{
    let ghost start = out@;
    if c == '"' || c == '\\' {
        push_one(out, '\\');
        push_one(out, c);
    } else if c == '\n' {
        push_one(out, '\\');
        push_one(out, 'n');
    } else if c == '\r' {
        push_one(out, '\\');
        push_one(out, 'r');
    } else if c == '\t' {
        push_one(out, '\\');
        push_one(out, 't');
    } else if c == '\x08' {
        push_one(out, '\\');
        push_one(out, 'b');
    } else if c == '\x0c' {
        push_one(out, '\\');
        push_one(out, 'f');
    } else if (c as u32) < 0x20 {
        let n = c as u32;
        push_one(out, '\\');
        push_one(out, 'u');
        push_one(out, '0');
        push_one(out, '0');
        push_one(out, hex_char_exec(n / 16));
        push_one(out, hex_char_exec(n % 16));
    } else {
        push_one(out, c);
    }
    assert(out@ =~= start + escape_char(c));
}

/// Appends the string literal that holds `s`.
pub fn write_quoted(out: &mut String, s: &String)
    ensures
        final(out)@ == old(out)@ + quoted(s@),
{
    let ghost start = out@;
    let cs = chars_of(s.as_str());
    push_one(out, '"');
    let mut i: usize = 0;
    assert(cs@.take(0) =~= Seq::<char>::empty());
    while i < cs.len()
        invariant
            i <= cs@.len(),
            cs@ == s@,
            out@ == start + seq!['"'] + escape(cs@.take(i as int)),
        decreases cs@.len() - i,
    {
        write_escaped_char(out, cs[i]);
        proof {
            lemma_escape_append(cs@.take(i as int), seq![cs@[i as int]]);
            assert(cs@.take(i + 1) =~= cs@.take(i as int) + seq![cs@[i as int]]);
            assert(escape(seq![cs@[i as int]]) =~= escape_char(cs@[i as int])) by {
                assert(seq![cs@[i as int]].drop_first() =~= Seq::<char>::empty());
                assert(escape(Seq::<char>::empty()) == Seq::<char>::empty());
            }
        }
        i = i + 1;
    }
    push_one(out, '"');
    assert(cs@.take(i as int) =~= s@);
    assert(out@ =~= start + quoted(s@));
}

/// Appends the array literal that holds the strings `l`.
pub fn write_list(out: &mut String, l: &Vec<String>)
    ensures
        final(out)@ == old(out)@ + list_text(strings_view(l@)),
{
    let ghost start = out@;
    let ghost sv = strings_view(l@);
    push_one(out, '[');
    let mut i: usize = 0;
    assert(sv.take(0) =~= Seq::<Seq<char>>::empty());
    while i < l.len()
        invariant
            i <= l@.len(),
            sv == strings_view(l@),
            out@ == start + seq!['['] + list_body(sv.take(i as int)),
        decreases l@.len() - i,
    {
        if i > 0 {
            push_one(out, ',');
        }
        write_quoted(out, &l[i]);
        proof {
            assert(sv.take(i + 1) =~= sv.take(i as int).push(sv[i as int]));
            if i > 0 {
                lemma_list_body_push(sv.take(i as int), sv[i as int]);
            } else {
                assert(sv.take(1) =~= seq![sv[0]]);
            }
        }
        i = i + 1;
    }
    push_one(out, ']');
    assert(sv.take(i as int) =~= sv);
    assert(out@ =~= start + list_text(sv));
}

/// `t` stands in `s` from position `i` on.
pub open spec fn occurs_at(s: Seq<char>, i: int, t: Seq<char>) -> bool {
    0 <= i && i + t.len() <= s.len() && s.subrange(i, i + t.len()) == t
}

/// The text of one member value.
pub open spec fn value_text(v: JsonValue) -> Seq<char> {
    match v {
        JsonValue::Null => null_text(),
        JsonValue::Str(x) => quoted(x),
        JsonValue::StrList(l) => list_text(l),
        JsonValue::Other => null_text(),
    }
}

pub open spec fn member_text(m: (Seq<char>, JsonValue)) -> Seq<char> {
    quoted(m.0) + seq![':'] + value_text(m.1)
}

/// The members `m` written one after another, comma-separated.
pub open spec fn members_text(m: Members) -> Seq<char>
    decreases m.len(),
{
    if m.len() <= 1 {
        if m.len() == 0 {
            Seq::empty()
        } else {
            member_text(m[0])
        }
    } else {
        member_text(m[0]) + seq![','] + members_text(m.drop_first())
    }
}

pub proof fn lemma_occurs_split(s: Seq<char>, i: int, a: Seq<char>, b: Seq<char>)
    requires
        occurs_at(s, i, a + b),
    ensures
        occurs_at(s, i, a),
        occurs_at(s, i + a.len(), b),
{
    let w = s.subrange(i, i + (a + b).len());
    assert forall|k: int| 0 <= k < a.len() implies s.subrange(i, i + a.len())[k] == a[k] by {
        assert(w[k] == s[i + k]);
        assert((a + b)[k] == a[k]);
    }
    assert(s.subrange(i, i + a.len()) =~= a);
    assert forall|k: int| 0 <= k < b.len() implies s.subrange(i + a.len(), i + a.len() + b.len())[k]
        == b[k] by {
        assert(w[a.len() + k] == s[i + a.len() + k]);
        assert((a + b)[a.len() + k] == b[k]);
    }
    assert(s.subrange(i + a.len(), i + a.len() + b.len()) =~= b);
}

pub proof fn lemma_occurs_index(s: Seq<char>, i: int, t: Seq<char>, k: int)
    requires
        occurs_at(s, i, t),
        0 <= k < t.len(),
    ensures
        s[i + k] == t[k],
{
    assert(s.subrange(i, i + t.len())[k] == s[i + k]);
}

proof fn lemma_hex_round(n: u32)
    requires
        n < 16,
    ensures
        hex_val(hex_char(n)) == Some(n),
{
}

proof fn lemma_escape_step(s: Seq<char>, i: int, acc: Seq<char>, c: char)
    requires
        occurs_at(s, i, escape_char(c)),
        i + escape_char(c).len() < s.len(),
    ensures
        str_body_spec(s, i, acc) == str_body_spec(s, i + escape_char(c).len(), acc.push(c)),
{
    let e = escape_char(c);
    assert forall|k: int| 0 <= k < e.len() implies s[i + k] == e[k] by {
        lemma_occurs_index(s, i, e, k);
    }
    if c == '"' || c == '\\' || c == '\n' || c == '\r' || c == '\t' || c == '\x08' || c == '\x0c' {
        assert(e.len() == 2);
        assert(s[i] == '\\');
        assert(short_escape(s[i + 1]) == Some(c));
    } else if code(c) < 0x20 {
        let v = code(c);
        assert(e.len() == 6);
        assert(s[i] == '\\' && s[i + 1] == 'u');
        lemma_hex_round(v / 16);
        lemma_hex_round(v % 16);
        assert(hex4_spec(s, i + 2) == Some(v));
        lemma_char_of(c);
        assert(is_bmp_scalar(v));
    } else {
        assert(e =~= seq![c]);
        lemma_occurs_index(s, i, e, 0);
        assert(s[i] == c);
    }
}

pub proof fn lemma_body_parses(s: Seq<char>, i: int, acc: Seq<char>, x: Seq<char>)
    requires
        occurs_at(s, i, escape(x) + seq!['"']),
    ensures
        str_body_spec(s, i, acc) == Some((acc + x, i + escape(x).len() + 1)),
    decreases x.len(),
{
    if x.len() == 0 {
        assert(escape(x) =~= Seq::<char>::empty());
        lemma_occurs_index(s, i, escape(x) + seq!['"'], 0);
        assert(acc + x =~= acc);
    } else {
        let c = x[0];
        let rest = x.drop_first();
        assert(escape(x) + seq!['"'] =~= escape_char(c) + (escape(rest) + seq!['"']));
        lemma_occurs_split(s, i, escape_char(c), escape(rest) + seq!['"']);
        lemma_body_parses(s, i + escape_char(c).len(), acc.push(c), rest);
        assert(acc.push(c) + rest =~= acc + x);
        lemma_escape_step(s, i, acc, c);
    }
}

pub proof fn lemma_string_parses(s: Seq<char>, i: int, x: Seq<char>)
    requires
        occurs_at(s, i, quoted(x)),
    ensures
        string_spec(s, i) == Some((x, i + quoted(x).len())),
{
    assert(quoted(x) =~= seq!['"'] + (escape(x) + seq!['"']));
    lemma_occurs_split(s, i, seq!['"'], escape(x) + seq!['"']);
    lemma_occurs_index(s, i, seq!['"'], 0);
    lemma_body_parses(s, i + 1, Seq::empty(), x);
    assert(Seq::<char>::empty() + x =~= x);
}

proof fn lemma_no_ws(s: Seq<char>, i: int)
    requires
        0 <= i < s.len(),
        !is_ws(s[i]),
    ensures
        skip_ws_spec(s, i) == i,
{
}

pub proof fn lemma_items_parse(s: Seq<char>, i: int, acc: Seq<Seq<char>>, l: Seq<Seq<char>>)
    requires
        l.len() >= 1,
        occurs_at(s, i, list_body(l) + seq![']']),
    ensures
        items_spec(s, i, acc) == Some((acc + l, i + list_body(l).len() + 1)),
    decreases l.len(),
{
    let x = l[0];
    let j = i + quoted(x).len();
    if l.len() == 1 {
        assert(list_body(l) + seq![']'] =~= quoted(x) + seq![']']);
        lemma_occurs_split(s, i, quoted(x), seq![']']);
        lemma_string_parses(s, i, x);
        lemma_occurs_index(s, j, seq![']'], 0);
        lemma_no_ws(s, j);
        assert(acc.push(x) =~= acc + l);
    } else {
        let rest = l.drop_first();
        assert(list_body(l) + seq![']'] =~= quoted(x) + (seq![','] + (list_body(rest) + seq![']'])));
        lemma_occurs_split(s, i, quoted(x), seq![','] + (list_body(rest) + seq![']']));
        lemma_occurs_split(s, j, seq![','], list_body(rest) + seq![']']);
        lemma_string_parses(s, i, x);
        lemma_occurs_index(s, j, seq![','], 0);
        lemma_no_ws(s, j);
        assert(list_body(rest) == quoted(rest[0]) + seq![','] + list_body(rest.drop_first()) || list_body(
            rest,
        ) == quoted(rest[0]));
        assert(quoted(rest[0])[0] == '"');
        lemma_occurs_index(s, j + 1, list_body(rest) + seq![']'], 0);
        lemma_no_ws(s, j + 1);
        lemma_items_parse(s, j + 1, acc.push(x), rest);
        assert(acc.push(x) + rest =~= acc + l);
    }
}

pub proof fn lemma_list_parses(s: Seq<char>, i: int, l: Seq<Seq<char>>)
    requires
        occurs_at(s, i, list_text(l)),
    ensures
        list_spec(s, i) == Some((l, i + list_text(l).len())),
{
    assert(list_text(l) =~= seq!['['] + (list_body(l) + seq![']']));
    lemma_occurs_split(s, i, seq!['['], list_body(l) + seq![']']);
    lemma_occurs_index(s, i, seq!['['], 0);
    if l.len() == 0 {
        assert(list_body(l) + seq![']'] =~= seq![']']);
        lemma_occurs_index(s, i + 1, seq![']'], 0);
        lemma_no_ws(s, i + 1);
        assert(l =~= Seq::<Seq<char>>::empty());
    } else {
        assert(list_body(l) == quoted(l[0]) + seq![','] + list_body(l.drop_first()) || list_body(l)
            == quoted(l[0]));
        assert(quoted(l[0])[0] == '"');
        lemma_occurs_index(s, i + 1, list_body(l) + seq![']'], 0);
        lemma_no_ws(s, i + 1);
        lemma_items_parse(s, i + 1, Seq::empty(), l);
        assert(Seq::<Seq<char>>::empty() + l =~= l);
    }
}

pub proof fn lemma_value_parses(s: Seq<char>, i: int, v: JsonValue)
    requires
        !(v is Other),
        occurs_at(s, i, value_text(v)),
    ensures
        value_spec(s, i) == Some((v, i + value_text(v).len())),
        !is_ws(value_text(v)[0]),
{
    lemma_occurs_index(s, i, value_text(v), 0);
    match v {
        JsonValue::Null => {
            lemma_occurs_index(s, i, value_text(v), 1);
            lemma_occurs_index(s, i, value_text(v), 2);
            lemma_occurs_index(s, i, value_text(v), 3);
        },
        JsonValue::Str(x) => {
            lemma_string_parses(s, i, x);
        },
        JsonValue::StrList(l) => {
            lemma_list_parses(s, i, l);
        },
        JsonValue::Other => {},
    }
}

pub proof fn lemma_members_parse(s: Seq<char>, i: int, acc: Members, m: Members)
    requires
        m.len() >= 1,
        forall|k: int| 0 <= k < m.len() ==> !(#[trigger] m[k].1 is Other),
        occurs_at(s, i, members_text(m) + seq!['}']),
    ensures
        members_spec(s, i, acc) == Some((acc + m, i + members_text(m).len() + 1)),
    decreases m.len(),
{
    let (key, v) = m[0];
    let after = if m.len() == 1 {
        seq!['}']
    } else {
        seq![','] + (members_text(m.drop_first()) + seq!['}'])
    };
    assert(members_text(m) + seq!['}'] =~= quoted(key) + (seq![':'] + (value_text(v) + after)));
    lemma_occurs_split(s, i, quoted(key), seq![':'] + (value_text(v) + after));
    let k = i + quoted(key).len();
    lemma_occurs_split(s, k, seq![':'], value_text(v) + after);
    lemma_occurs_split(s, k + 1, value_text(v), after);
    lemma_string_parses(s, i, key);
    lemma_occurs_index(s, k, seq![':'], 0);
    lemma_no_ws(s, k);
    lemma_value_parses(s, k + 1, v);
    lemma_occurs_index(s, k + 1, value_text(v), 0);
    lemma_no_ws(s, k + 1);
    let n = k + 1 + value_text(v).len();
    lemma_occurs_index(s, n, after, 0);
    lemma_no_ws(s, n);
    if m.len() == 1 {
        assert(acc.push((key, v)) =~= acc + m);
    } else {
        let rest = m.drop_first();
        lemma_occurs_split(s, n, seq![','], members_text(rest) + seq!['}']);
        assert(members_text(rest) == member_text(rest[0]) + seq![','] + members_text(rest.drop_first())
            || members_text(rest) == member_text(rest[0]));
        assert(member_text(rest[0])[0] == '"');
        lemma_occurs_index(s, n + 1, members_text(rest) + seq!['}'], 0);
        lemma_no_ws(s, n + 1);
        lemma_members_parse(s, n + 1, acc.push((key, v)), rest);
        assert(acc.push((key, v)) + rest =~= acc + m);
    }
}

/// An object written as `{`, its members, `}` reads back as those members.
pub proof fn lemma_document_parses(m: Members)
    requires
        m.len() >= 1,
        forall|k: int| 0 <= k < m.len() ==> !(#[trigger] m[k].1 is Other),
    ensures
        document_spec(seq!['{'] + members_text(m) + seq!['}']) == Some(m),
{
    let s = seq!['{'] + members_text(m) + seq!['}'];
    assert(s.subrange(0, s.len() as int) =~= s);
    assert(s =~= seq!['{'] + (members_text(m) + seq!['}']));
    lemma_occurs_split(s, 0, seq!['{'], members_text(m) + seq!['}']);
    lemma_no_ws(s, 0);
    assert(members_text(m) == member_text(m[0]) + seq![','] + members_text(m.drop_first())
        || members_text(m) == member_text(m[0]));
    assert(member_text(m[0])[0] == '"');
    lemma_occurs_index(s, 1, members_text(m) + seq!['}'], 0);
    lemma_no_ws(s, 1);
    lemma_members_parse(s, 1, Seq::empty(), m);
    assert(Seq::<(Seq<char>, JsonValue)>::empty() + m =~= m);
}

} // verus!
