//! A small JSON model with a verified parser and serializer.
//!
//! Text is handled as sequences of characters.  A parsed document is a
//! [`Json`] tree; number tokens are kept exactly as written and only
//! interpreted on demand (see `number`).  The grammar implemented here
//! is the standard JSON one: objects, arrays, strings with escapes,
//! numbers with optional fraction and exponent, `true`, `false`,
//! `null`, with space, tab, carriage return and newline as whitespace.

use vstd::prelude::*;
use crate::strutil::push_char;
use crate::money::is_dec_digit;

verus! {

broadcast use
    vstd::std_specs::vec::axiom_vec_index_decreases,
    vstd::std_specs::vec::axiom_vec_decreases_to_view,
    vstd::seq::axiom_seq_index_decreases,
    vstd::seq::axiom_seq_subrange_decreases;

/// A JSON document or fragment.
#[verifier::ext_equal]
pub enum Json {
    Null,
    Bool(bool),
    /// A number, kept as its unparsed token text.
    Num(Vec<char>),
    Str(Vec<char>),
    Arr(Vec<Json>),
    Obj(Vec<(Vec<char>, Json)>),
}

/// The mathematical shape of a JSON document.
#[verifier::ext_equal]
pub enum JsonV {
    Null,
    Bool(bool),
    Num(Seq<char>),
    Str(Seq<char>),
    Arr(Seq<JsonV>),
    Obj(Seq<(Seq<char>, JsonV)>),
}

impl Json {
    /// The abstract value of this tree.
    pub open spec fn jv(&self) -> JsonV
        decreases self, 1int,
    {
        match self {
            Json::Null => JsonV::Null,
            Json::Bool(b) => JsonV::Bool(*b),
            Json::Num(l) => JsonV::Num(l@),
            Json::Str(t) => JsonV::Str(t@),
            Json::Arr(v) => {
                proof {
                    assert(decreases_to!(*self => *v));
                    assert(decreases_to!(*v => v@));
                }
                JsonV::Arr(jv_of_elems(v@))
            },
            Json::Obj(v) => {
                proof {
                    assert(decreases_to!(*self => *v));
                    assert(decreases_to!(*v => v@));
                }
                JsonV::Obj(jv_of_members(v@))
            },
        }
    }
}

/// The abstract values of a sequence of trees.
pub open spec fn jv_of_elems(s: Seq<Json>) -> Seq<JsonV>
    decreases s, 0int,
{
    if s.len() == 0 {
        Seq::empty()
    } else {
        jv_of_elems(s.subrange(0, s.len() - 1)).push(s[s.len() - 1].jv())
    }
}

/// The abstract values of a sequence of keyed trees.
pub open spec fn jv_of_members(s: Seq<(Vec<char>, Json)>) -> Seq<(Seq<char>, JsonV)>
    decreases s, 0int,
{
    if s.len() == 0 {
        Seq::empty()
    } else {
        jv_of_members(s.subrange(0, s.len() - 1)).push(
            (s[s.len() - 1].0@, s[s.len() - 1].1.jv()),
        )
    }
}

/// Looks a key up among object members; the last binding of a key is
/// the one that counts.
pub open spec fn obj_get(ms: Seq<(Seq<char>, JsonV)>, key: Seq<char>) -> Option<JsonV>
    decreases ms.len(),
{
    if ms.len() == 0 {
        None
    } else if ms.last().0 == key {
        Some(ms.last().1)
    } else {
        obj_get(ms.drop_last(), key)
    }
}

/// Looks a key up in a value; anything but an object holds no keys.
pub open spec fn jv_get(v: JsonV, key: Seq<char>) -> Option<JsonV> {
    match v {
        JsonV::Obj(ms) => obj_get(ms, key),
        _ => None,
    }
}

// ---------- character classes ----------

pub open spec fn is_ws(c: char) -> bool {
    c == ' ' || c == '\t' || c == '\n' || c == '\r'
}

pub open spec fn is_hex_digit(c: char) -> bool {
    ||| ('0' as u32 <= c as u32 && c as u32 <= '9' as u32)
    ||| ('a' as u32 <= c as u32 && c as u32 <= 'f' as u32)
    ||| ('A' as u32 <= c as u32 && c as u32 <= 'F' as u32)
}

/// The numeric value of a hexadecimal digit.
pub open spec fn hex_val(c: char) -> int {
    if '0' as u32 <= c as u32 && c as u32 <= '9' as u32 {
        c as u32 - '0' as u32
    } else if 'a' as u32 <= c as u32 && c as u32 <= 'f' as u32 {
        c as u32 - 'a' as u32 + 10
    } else {
        c as u32 - 'A' as u32 + 10
    }
}

/// The character with code point `u`.
pub open spec fn char_of(u: u32) -> char {
    u as char
}

/// A character is determined by its code point.
proof fn lemma_char_of_code(c: char, u: u32)
    requires
        c as u32 == u,
    ensures
        c == char_of(u),
{
}

/// What a one-letter escape stands for, if it is one.
pub open spec fn esc_char(c: char) -> Option<char> {
    if c == '"' { Some('"') }
    else if c == '\\' { Some('\\') }
    else if c == '/' { Some('/') }
    else if c == 'b' { Some('\u{0008}') }
    else if c == 'f' { Some('\u{000C}') }
    else if c == 'n' { Some('\n') }
    else if c == 'r' { Some('\r') }
    else if c == 't' { Some('\t') }
    else { None }
}

// ---------- lexical layer, specification ----------

/// The first position at or after `i` holding no whitespace.
pub open spec fn sp_ws(s: Seq<char>, i: int) -> int
    decreases s.len() - i when 0 <= i <= s.len()
{
    if i < s.len() && is_ws(s[i]) { sp_ws(s, i + 1) } else { i }
}

pub proof fn lemma_sp_ws(s: Seq<char>, i: int)
    requires
        0 <= i <= s.len(),
    ensures
        i <= sp_ws(s, i) <= s.len(),
    decreases s.len() - i,
{
    if i < s.len() && is_ws(s[i]) {
        lemma_sp_ws(s, i + 1);
    }
}

/// The first position at or after `i` holding no decimal digit.
pub open spec fn sp_digits_end(s: Seq<char>, i: int) -> int
    decreases s.len() - i when 0 <= i <= s.len()
{
    if i < s.len() && is_dec_digit(s[i]) { sp_digits_end(s, i + 1) } else { i }
}

pub proof fn lemma_sp_digits_end(s: Seq<char>, i: int)
    requires
        0 <= i <= s.len(),
    ensures
        i <= sp_digits_end(s, i) <= s.len(),
    decreases s.len() - i,
{
    if i < s.len() && is_dec_digit(s[i]) {
        lemma_sp_digits_end(s, i + 1);
    }
}

/// The code point written by four hexadecimal digits at `i`.
pub open spec fn hex4(s: Seq<char>, i: int) -> int {
    hex_val(s[i]) * 4096 + hex_val(s[i + 1]) * 256 + hex_val(s[i + 2]) * 16 + hex_val(s[i + 3])
}

pub open spec fn hex4_ok(s: Seq<char>, i: int) -> bool {
    &&& i + 4 <= s.len()
    &&& is_hex_digit(s[i])
    &&& is_hex_digit(s[i + 1])
    &&& is_hex_digit(s[i + 2])
    &&& is_hex_digit(s[i + 3])
}

/// Parses the inside of a string literal starting right after the
/// opening quote; yields the decoded content and the position right
/// after the closing quote.
pub open spec fn sp_string_body(s: Seq<char>, i: int) -> Option<(Seq<char>, int)>
    decreases s.len() - i when 0 <= i <= s.len()
{
    if i >= s.len() {
        None
    } else {
        let c = s[i];
        if c == '"' {
            Some((Seq::empty(), i + 1))
        } else if c == '\\' {
            if i + 2 > s.len() {
                None
            } else {
                let e = s[i + 1];
                if e == 'u' {
                    if hex4_ok(s, i + 2) {
                        let u = hex4(s, i + 2);
                        if 0xD800 <= u < 0xDC00 {
                            // a high surrogate must pair with a low one
                            if i + 12 <= s.len() && s[i + 6] == '\\' && s[i + 7] == 'u'
                                && hex4_ok(s, i + 8) {
                                let l = hex4(s, i + 8);
                                if 0xDC00 <= l < 0xE000 {
                                    let cp = 0x10000 + (u - 0xD800) * 0x400 + (l - 0xDC00);
                                    match sp_string_body(s, i + 12) {
                                        None => None,
                                        Some((t, j)) => Some((seq![char_of(cp as u32)] + t, j)),
                                    }
                                } else {
                                    None
                                }
                            } else {
                                None
                            }
                        } else if 0xDC00 <= u < 0xE000 {
                            None
                        } else {
                            match sp_string_body(s, i + 6) {
                                None => None,
                                Some((t, j)) => Some((seq![char_of(u as u32)] + t, j)),
                            }
                        }
                    } else {
                        None
                    }
                } else {
                    match esc_char(e) {
                        None => None,
                        Some(ec) => match sp_string_body(s, i + 2) {
                            None => None,
                            Some((t, j)) => Some((seq![ec] + t, j)),
                        },
                    }
                }
            }
        } else if (c as u32) < 0x20 {
            None
        } else {
            match sp_string_body(s, i + 1) {
                None => None,
                Some((t, j)) => Some((seq![c] + t, j)),
            }
        }
    }
}

pub proof fn lemma_sp_string_body(s: Seq<char>, i: int)
    requires
        0 <= i <= s.len(),
    ensures
        match sp_string_body(s, i) {
            None => true,
            Some((t, j)) => i < j <= s.len(),
        },
    decreases s.len() - i,
{
    if i < s.len() {
        let c = s[i];
        if c == '"' {
        } else if c == '\\' && i + 2 <= s.len() {
            if s[i + 1] == 'u' {
                if hex4_ok(s, i + 2) {
                    let u = hex4(s, i + 2);
                    if 0xD800 <= u < 0xDC00 {
                        if i + 12 <= s.len() {
                            lemma_sp_string_body(s, i + 12);
                        }
                    } else {
                        lemma_sp_string_body(s, i + 6);
                    }
                }
            } else {
                lemma_sp_string_body(s, i + 2);
            }
        } else {
            lemma_sp_string_body(s, i + 1);
        }
    }
}

/// The position right after a number token starting at `i`, if one
/// starts there: an optional minus, an integer part without leading
/// zeros, an optional fraction, an optional exponent.
pub open spec fn sp_number_end(s: Seq<char>, i: int) -> Option<int>
    recommends 0 <= i <= s.len(),
{
    let j0: int = if i < s.len() && s[i] == '-' { i + 1 } else { i };
    if j0 < s.len() && is_dec_digit(s[j0]) {
        let j1: int = if s[j0] == '0' { j0 + 1 } else { sp_digits_end(s, j0) };
        let j2: Option<int> = if j1 < s.len() && s[j1] == '.' {
            if j1 + 1 < s.len() && is_dec_digit(s[j1 + 1]) {
                Some(sp_digits_end(s, j1 + 1))
            } else {
                None
            }
        } else {
            Some(j1)
        };
        match j2 {
            None => None,
            Some(j2v) => if j2v < s.len() && (s[j2v] == 'e' || s[j2v] == 'E') {
                let j3: int = if j2v + 1 < s.len() && (s[j2v + 1] == '+' || s[j2v + 1] == '-') {
                    j2v + 2
                } else {
                    j2v + 1
                };
                if j3 < s.len() && is_dec_digit(s[j3]) {
                    Some(sp_digits_end(s, j3))
                } else {
                    None
                }
            } else {
                Some(j2v)
            },
        }
    } else {
        None
    }
}

pub proof fn lemma_sp_number_end(s: Seq<char>, i: int)
    requires
        0 <= i <= s.len(),
    ensures
        match sp_number_end(s, i) {
            None => true,
            Some(j) => i < j <= s.len(),
        },
{
    let j0: int = if i < s.len() && s[i] == '-' { i + 1 } else { i };
    if j0 < s.len() && is_dec_digit(s[j0]) {
        lemma_sp_digits_end(s, j0);
        let j1: int = if s[j0] == '0' { j0 + 1 } else { sp_digits_end(s, j0) };
        if j1 + 1 < s.len() {
            lemma_sp_digits_end(s, j1 + 1);
        }
        let j2v: int = if j1 < s.len() && s[j1] == '.' && j1 + 1 < s.len() && is_dec_digit(s[j1 + 1]) {
            sp_digits_end(s, j1 + 1)
        } else {
            j1
        };
        if 0 <= j2v + 2 <= s.len() {
            lemma_sp_digits_end(s, j2v + 1);
            lemma_sp_digits_end(s, j2v + 2);
        } else if 0 <= j2v + 1 <= s.len() {
            lemma_sp_digits_end(s, j2v + 1);
        }
    }
}

// ---------- value layer, specification ----------
//
// The value parsers carry a fuel bound so that each of them can
// recurse into the others; the public entry point hands over more
// fuel than any document of the given length can use up.

/// Parses one value starting at `i` (leading whitespace allowed);
/// yields the value and the position right after it.
pub open spec fn sp_value(s: Seq<char>, i: int, fuel: nat) -> Option<(JsonV, int)>
    recommends 0 <= i <= s.len(),
    decreases fuel,
{
    if fuel == 0 {
        None
    } else {
        let j = sp_ws(s, i);
        if j >= s.len() {
            None
        } else if s[j] == 'n' {
            if j + 4 <= s.len() && s[j + 1] == 'u' && s[j + 2] == 'l' && s[j + 3] == 'l' {
                Some((JsonV::Null, j + 4))
            } else {
                None
            }
        } else if s[j] == 't' {
            if j + 4 <= s.len() && s[j + 1] == 'r' && s[j + 2] == 'u' && s[j + 3] == 'e' {
                Some((JsonV::Bool(true), j + 4))
            } else {
                None
            }
        } else if s[j] == 'f' {
            if j + 5 <= s.len() && s[j + 1] == 'a' && s[j + 2] == 'l' && s[j + 3] == 's'
                && s[j + 4] == 'e' {
                Some((JsonV::Bool(false), j + 5))
            } else {
                None
            }
        } else if s[j] == '"' {
            match sp_string_body(s, j + 1) {
                None => None,
                Some((t, k)) => Some((JsonV::Str(t), k)),
            }
        } else if s[j] == '[' {
            match sp_elements(s, j + 1, true, (fuel - 1) as nat) {
                None => None,
                Some((es, k)) => Some((JsonV::Arr(es), k)),
            }
        } else if s[j] == '{' {
            match sp_members(s, j + 1, true, (fuel - 1) as nat) {
                None => None,
                Some((ms, k)) => Some((JsonV::Obj(ms), k)),
            }
        } else {
            match sp_number_end(s, j) {
                None => None,
                Some(k) => Some((JsonV::Num(s.subrange(j, k)), k)),
            }
        }
    }
}

/// Parses the elements of an array after its `[` (or after a comma,
/// with `first` false); yields them and the position after the `]`.
pub open spec fn sp_elements(s: Seq<char>, i: int, first: bool, fuel: nat) -> Option<(
    Seq<JsonV>,
    int,
)>
    recommends 0 <= i <= s.len(),
    decreases fuel,
{
    if fuel == 0 {
        None
    } else {
        let j = sp_ws(s, i);
        if first && j < s.len() && s[j] == ']' {
            Some((Seq::empty(), j + 1))
        } else {
            match sp_value(s, i, (fuel - 1) as nat) {
                None => None,
                Some((v, k)) => {
                    let k2 = sp_ws(s, k);
                    if k2 < s.len() && s[k2] == ']' {
                        Some((seq![v], k2 + 1))
                    } else if k2 < s.len() && s[k2] == ',' {
                        match sp_elements(s, k2 + 1, false, (fuel - 1) as nat) {
                            None => None,
                            Some((es, j2)) => Some((seq![v] + es, j2)),
                        }
                    } else {
                        None
                    }
                },
            }
        }
    }
}

/// Parses the members of an object after its `{` (or after a comma,
/// with `first` false); yields them and the position after the `}`.
pub open spec fn sp_members(s: Seq<char>, i: int, first: bool, fuel: nat) -> Option<(
    Seq<(Seq<char>, JsonV)>,
    int,
)>
    recommends 0 <= i <= s.len(),
    decreases fuel,
{
    if fuel == 0 {
        None
    } else {
        let j = sp_ws(s, i);
        if first && j < s.len() && s[j] == '}' {
            Some((Seq::empty(), j + 1))
        } else if j < s.len() && s[j] == '"' {
            match sp_string_body(s, j + 1) {
                None => None,
                Some((key, k)) => {
                    let k2 = sp_ws(s, k);
                    if k2 < s.len() && s[k2] == ':' {
                        match sp_value(s, k2 + 1, (fuel - 1) as nat) {
                            None => None,
                            Some((v, k3)) => {
                                let k4 = sp_ws(s, k3);
                                if k4 < s.len() && s[k4] == '}' {
                                    Some((seq![(key, v)], k4 + 1))
                                } else if k4 < s.len() && s[k4] == ',' {
                                    match sp_members(s, k4 + 1, false, (fuel - 1) as nat) {
                                        None => None,
                                        Some((ms, j2)) => Some((seq![(key, v)] + ms, j2)),
                                    }
                                } else {
                                    None
                                }
                            },
                        }
                    } else {
                        None
                    }
                },
            }
        } else {
            None
        }
    }
}

/// A document longer than this is not accepted.
pub const MAX_JSON_LEN: usize = 100000000;

/// The whole-document parse: one value, possibly surrounded by
/// whitespace, filling the entire text.
pub open spec fn sp_parse_json(s: Seq<char>) -> Option<JsonV> {
    if s.len() > 100000000 {
        None
    } else {
        match sp_value(s, 0, (2 * s.len() + 2) as nat) {
            None => None,
            Some((v, j)) => if sp_ws(s, j) == s.len() {
                Some(v)
            } else {
                None
            },
        }
    }
}

pub proof fn lemma_sp_value_bounds(s: Seq<char>, i: int, fuel: nat)
    requires
        0 <= i <= s.len(),
    ensures
        match sp_value(s, i, fuel) {
            None => true,
            Some((v, j)) => i < j <= s.len(),
        },
    decreases fuel,
{
    if fuel > 0 {
        let j = sp_ws(s, i);
        lemma_sp_ws(s, i);
        if j < s.len() {
            if s[j] == '"' {
                lemma_sp_string_body(s, j + 1);
            } else if s[j] == '[' {
                lemma_sp_elements_bounds(s, j + 1, true, (fuel - 1) as nat);
            } else if s[j] == '{' {
                lemma_sp_members_bounds(s, j + 1, true, (fuel - 1) as nat);
            } else if s[j] == 'n' || s[j] == 't' || s[j] == 'f' {
            } else {
                lemma_sp_number_end(s, j);
            }
        }
    }
}

pub proof fn lemma_sp_elements_bounds(s: Seq<char>, i: int, first: bool, fuel: nat)
    requires
        0 <= i <= s.len(),
    ensures
        match sp_elements(s, i, first, fuel) {
            None => true,
            Some((es, j)) => i < j <= s.len(),
        },
    decreases fuel,
{
    if fuel > 0 {
        lemma_sp_ws(s, i);
        lemma_sp_value_bounds(s, i, (fuel - 1) as nat);
        match sp_value(s, i, (fuel - 1) as nat) {
            None => {},
            Some((v, k)) => {
                lemma_sp_ws(s, k);
                let k2 = sp_ws(s, k);
                if k2 < s.len() && s[k2] == ',' {
                    lemma_sp_elements_bounds(s, k2 + 1, false, (fuel - 1) as nat);
                }
            },
        }
    }
}

pub proof fn lemma_sp_members_bounds(s: Seq<char>, i: int, first: bool, fuel: nat)
    requires
        0 <= i <= s.len(),
    ensures
        match sp_members(s, i, first, fuel) {
            None => true,
            Some((ms, j)) => i < j <= s.len(),
        },
    decreases fuel,
{
    if fuel > 0 {
        lemma_sp_ws(s, i);
        let j = sp_ws(s, i);
        if j < s.len() && s[j] == '"' {
            lemma_sp_string_body(s, j + 1);
            match sp_string_body(s, j + 1) {
                None => {},
                Some((key, k)) => {
                    lemma_sp_ws(s, k);
                    let k2 = sp_ws(s, k);
                    if k2 < s.len() && s[k2] == ':' {
                        lemma_sp_value_bounds(s, k2 + 1, (fuel - 1) as nat);
                        match sp_value(s, k2 + 1, (fuel - 1) as nat) {
                            None => {},
                            Some((v, k3)) => {
                                lemma_sp_ws(s, k3);
                                let k4 = sp_ws(s, k3);
                                if k4 < s.len() && s[k4] == ',' {
                                    lemma_sp_members_bounds(s, k4 + 1, false, (fuel - 1) as nat);
                                }
                            },
                        }
                    }
                },
            }
        }
    }
}

// ---------- executable parser ----------

/// Relies on `char::from_u32`: a code point converts exactly when it
/// is not a surrogate and does not exceed the highest code point, and
/// the resulting character carries that code point.
pub assume_specification[ char::from_u32 ](i: u32) -> (r: Option<char>)
    ensures
        (r is Some) <==> (i < 0xD800 || (0xE000 <= i && i <= 0x10FFFF)),
        r matches Some(c) ==> c as u32 == i,
;

fn x_is_ws(c: char) -> (b: bool)
    ensures
        b == is_ws(c),
{
    c == ' ' || c == '\t' || c == '\n' || c == '\r'
}

pub(crate) fn x_is_dec_digit(c: char) -> (b: bool)
    ensures
        b == is_dec_digit(c),
{
    c == '0' || c == '1' || c == '2' || c == '3' || c == '4'
    || c == '5' || c == '6' || c == '7' || c == '8' || c == '9'
}

fn x_is_hex(c: char) -> (b: bool)
    ensures
        b == is_hex_digit(c),
{
    let u = c as u32;
    (48 <= u && u <= 57) || (97 <= u && u <= 102) || (65 <= u && u <= 70)
}

fn x_hex_val(c: char) -> (r: u32)
    requires
        is_hex_digit(c),
    ensures
        r as int == hex_val(c),
        r <= 15,
{
    let u = c as u32;
    if u <= 57 { u - 48 } else if u >= 97 { u - 87 } else { u - 55 }
}

fn x_esc(e: char) -> (r: Option<char>)
    ensures
        r == esc_char(e),
{
    if e == '"' { Some('"') }
    else if e == '\\' { Some('\\') }
    else if e == '/' { Some('/') }
    else if e == 'b' { Some('\u{0008}') }
    else if e == 'f' { Some('\u{000C}') }
    else if e == 'n' { Some('\n') }
    else if e == 'r' { Some('\r') }
    else if e == 't' { Some('\t') }
    else { None }
}

fn p_ws(s: &Vec<char>, i: usize) -> (r: usize)
    requires
        i <= s@.len(),
    ensures
        r as int == sp_ws(s@, i as int),
        i <= r <= s@.len(),
    decreases s@.len() - i,
{
    if i < s.len() {
        if x_is_ws(s[i]) {
            return p_ws(s, i + 1);
        }
    }
    i
}

pub(crate) fn p_digits_end(s: &Vec<char>, i: usize) -> (r: usize)
    requires
        i <= s@.len(),
    ensures
        r as int == sp_digits_end(s@, i as int),
        i <= r <= s@.len(),
    decreases s@.len() - i,
{
    if i < s.len() {
        if x_is_dec_digit(s[i]) {
            return p_digits_end(s, i + 1);
        }
    }
    i
}

/// Reads the four hexadecimal digits at `i` as a code point.
fn p_hex4(s: &Vec<char>, i: usize) -> (r: Option<u32>)
    requires
        i <= s@.len(),
    ensures
        match r {
            None => !hex4_ok(s@, i as int),
            Some(u) => hex4_ok(s@, i as int) && u as int == hex4(s@, i as int) && u <= 0xFFFF,
        },
{
    if s.len() < 4 || i > s.len() - 4 {
        return None;
    }
    if !(x_is_hex(s[i]) && x_is_hex(s[i + 1]) && x_is_hex(s[i + 2]) && x_is_hex(s[i + 3])) {
        return None;
    }
    let u = x_hex_val(s[i]) * 4096 + x_hex_val(s[i + 1]) * 256 + x_hex_val(s[i + 2]) * 16
        + x_hex_val(s[i + 3]);
    Some(u)
}

fn p_string_body(s: &Vec<char>, i: usize) -> (r: Option<(Vec<char>, usize)>)
    requires
        i <= s@.len(),
    ensures
        ({
            let sp = sp_string_body(s@, i as int);
            match r {
                None => sp is None,
                Some((t, j)) => sp == Some((t@, j as int)) && i < j <= s@.len(),
            }
        }),
    decreases s@.len() - i,
{
    proof {
        lemma_sp_string_body(s@, i as int);
    }
    if i >= s.len() {
        return None;
    }
    let c = s[i];
    if c == '"' {
        let t: Vec<char> = Vec::new();
        proof {
            assert(t@ =~= Seq::<char>::empty());
        }
        Some((t, i + 1))
    } else if c == '\\' {
        if s.len() - i < 2 {
            return None;
        }
        let e = s[i + 1];
        if e == 'u' {
            match p_hex4(s, i + 2) {
                None => None,
                Some(u) => {
                    if 0xD800 <= u && u < 0xDC00 {
                        if s.len() - i < 12 {
                            return None;
                        }
                        if !(s[i + 6] == '\\' && s[i + 7] == 'u') {
                            return None;
                        }
                        match p_hex4(s, i + 8) {
                            None => None,
                            Some(l) => {
                                if !(0xDC00 <= l && l < 0xE000) {
                                    return None;
                                }
                                let cp: u32 = 0x10000 + (u - 0xD800) * 0x400 + (l - 0xDC00);
                                match char::from_u32(cp) {
                                    None => {
                                        proof {
                                            assert(false);
                                        }
                                        None
                                    },
                                    Some(ch) => {
                                        proof {
                                            lemma_char_of_code(ch, cp);
                                            assert(ch == char_of(cp));
                                        }
                                        match p_string_body(s, i + 12) {
                                            None => None,
                                            Some((t, j)) => {
                                                let ghost t0 = t@;
                                                let mut t = t;
                                                t.insert(0, ch);
                                                proof {
                                                    assert(t@ =~= seq![ch] + t0);
                                                }
                                                Some((t, j))
                                            },
                                        }
                                    },
                                }
                            },
                        }
                    } else if 0xDC00 <= u && u < 0xE000 {
                        None
                    } else {
                        match char::from_u32(u) {
                            None => {
                                proof {
                                    assert(false);
                                }
                                None
                            },
                            Some(ch) => {
                                proof {
                                    lemma_char_of_code(ch, u);
                                    assert(ch == char_of(u));
                                }
                                match p_string_body(s, i + 6) {
                                    None => None,
                                    Some((t, j)) => {
                                        let ghost t0 = t@;
                                        let mut t = t;
                                        t.insert(0, ch);
                                        proof {
                                            assert(t@ =~= seq![ch] + t0);
                                        }
                                        Some((t, j))
                                    },
                                }
                            },
                        }
                    }
                },
            }
        } else {
            match x_esc(e) {
                None => None,
                Some(ec) => match p_string_body(s, i + 2) {
                    None => None,
                    Some((t, j)) => {
                        let ghost t0 = t@;
                        let mut t = t;
                        t.insert(0, ec);
                        proof {
                            assert(t@ =~= seq![ec] + t0);
                        }
                        Some((t, j))
                    },
                },
            }
        }
    } else if (c as u32) < 0x20 {
        None
    } else {
        match p_string_body(s, i + 1) {
            None => None,
            Some((t, j)) => {
                let ghost t0 = t@;
                let mut t = t;
                t.insert(0, c);
                proof {
                    assert(t@ =~= seq![c] + t0);
                }
                Some((t, j))
            },
        }
    }
}

fn p_number_end(s: &Vec<char>, i: usize) -> (r: Option<usize>)
    requires
        i <= s@.len(),
    ensures
        match r {
            None => sp_number_end(s@, i as int) is None,
            Some(j) => sp_number_end(s@, i as int) == Some(j as int) && i < j <= s@.len(),
        },
{
    proof {
        lemma_sp_number_end(s@, i as int);
    }
    let j0: usize = if i < s.len() && s[i] == '-' { i + 1 } else { i };
    if !(j0 < s.len() && x_is_dec_digit(s[j0])) {
        return None;
    }
    let j1: usize = if s[j0] == '0' { j0 + 1 } else { p_digits_end(s, j0) };
    let j2: usize;
    if j1 < s.len() && s[j1] == '.' {
        if j1 + 1 < s.len() && x_is_dec_digit(s[j1 + 1]) {
            j2 = p_digits_end(s, j1 + 1);
        } else {
            return None;
        }
    } else {
        j2 = j1;
    }
    if j2 < s.len() && (s[j2] == 'e' || s[j2] == 'E') {
        let j3: usize = if j2 + 1 < s.len() && (s[j2 + 1] == '+' || s[j2 + 1] == '-') {
            j2 + 2
        } else {
            j2 + 1
        };
        if j3 < s.len() && x_is_dec_digit(s[j3]) {
            Some(p_digits_end(s, j3))
        } else {
            None
        }
    } else {
        Some(j2)
    }
}

/// Copies the characters of `s` between `from` and `to`.
pub fn copy_range(s: &Vec<char>, from: usize, to: usize) -> (r: Vec<char>)
    requires
        from <= to <= s@.len(),
    ensures
        r@ == s@.subrange(from as int, to as int),
{
    let mut r: Vec<char> = Vec::new();
    let mut k: usize = from;
    while k < to
        invariant
            from <= k <= to <= s@.len(),
            r@ == s@.subrange(from as int, k as int),
        decreases to - k,
    {
        r.push(s[k]);
        proof {
            assert(s@.subrange(from as int, k + 1 as int) =~= s@.subrange(
                from as int,
                k as int,
            ).push(s@[k as int]));
        }
        k += 1;
    }
    r
}

pub proof fn lemma_jv_of_elems_index(s: Seq<Json>)
    ensures
        jv_of_elems(s).len() == s.len(),
        forall|i: int| 0 <= i < s.len() ==> jv_of_elems(s)[i] == s[i].jv(),
    decreases s.len(),
{
    if s.len() > 0 {
        lemma_jv_of_elems_index(s.subrange(0, s.len() - 1));
    }
}

pub proof fn lemma_jv_of_members_index(s: Seq<(Vec<char>, Json)>)
    ensures
        jv_of_members(s).len() == s.len(),
        forall|i: int| 0 <= i < s.len() ==> jv_of_members(s)[i] == (s[i].0@, s[i].1.jv()),
    decreases s.len(),
{
    if s.len() > 0 {
        lemma_jv_of_members_index(s.subrange(0, s.len() - 1));
    }
}

fn p_value(s: &Vec<char>, i: usize, fuel: u64) -> (r: Option<(Json, usize)>)
    requires
        i <= s@.len(),
    ensures
        ({
            let sp = sp_value(s@, i as int, fuel as nat);
            match r {
                None => sp is None,
                Some((v, j)) => sp == Some((v.jv(), j as int)) && i < j <= s@.len(),
            }
        }),
    decreases fuel,
{
    proof {
        lemma_sp_value_bounds(s@, i as int, fuel as nat);
    }
    if fuel == 0 {
        return None;
    }
    let j = p_ws(s, i);
    if j >= s.len() {
        return None;
    }
    let c = s[j];
    if c == 'n' {
        if s.len() - j >= 4 && s[j + 1] == 'u' && s[j + 2] == 'l' && s[j + 3] == 'l' {
            Some((Json::Null, j + 4))
        } else {
            None
        }
    } else if c == 't' {
        if s.len() - j >= 4 && s[j + 1] == 'r' && s[j + 2] == 'u' && s[j + 3] == 'e' {
            Some((Json::Bool(true), j + 4))
        } else {
            None
        }
    } else if c == 'f' {
        if s.len() - j >= 5 && s[j + 1] == 'a' && s[j + 2] == 'l' && s[j + 3] == 's' && s[j + 4]
            == 'e' {
            Some((Json::Bool(false), j + 5))
        } else {
            None
        }
    } else if c == '"' {
        match p_string_body(s, j + 1) {
            None => None,
            Some((t, k)) => Some((Json::Str(t), k)),
        }
    } else if c == '[' {
        match p_elements(s, j + 1, true, fuel - 1) {
            None => None,
            Some((es, k)) => Some((Json::Arr(es), k)),
        }
    } else if c == '{' {
        match p_members(s, j + 1, true, fuel - 1) {
            None => None,
            Some((ms, k)) => Some((Json::Obj(ms), k)),
        }
    } else {
        match p_number_end(s, j) {
            None => None,
            Some(k) => Some((Json::Num(copy_range(s, j, k)), k)),
        }
    }
}

fn p_elements(s: &Vec<char>, i: usize, first: bool, fuel: u64) -> (r: Option<(Vec<Json>, usize)>)
    requires
        i <= s@.len(),
    ensures
        ({
            let sp = sp_elements(s@, i as int, first, fuel as nat);
            match r {
                None => sp is None,
                Some((es, j)) => sp == Some((jv_of_elems(es@), j as int)) && i < j <= s@.len(),
            }
        }),
    decreases fuel,
{
    if fuel == 0 {
        return None;
    }
    let j = p_ws(s, i);
    if first && j < s.len() && s[j] == ']' {
        let es: Vec<Json> = Vec::new();
        proof {
            assert(jv_of_elems(es@) =~= Seq::<JsonV>::empty());
        }
        return Some((es, j + 1));
    }
    match p_value(s, i, fuel - 1) {
        None => None,
        Some((v, k)) => {
            let k2 = p_ws(s, k);
            if k2 < s.len() && s[k2] == ']' {
                let ghost vv = v.jv();
                let mut es: Vec<Json> = Vec::new();
                es.push(v);
                proof {
                    lemma_jv_of_elems_index(es@);
                    assert(jv_of_elems(es@) =~= seq![vv]);
                }
                Some((es, k2 + 1))
            } else if k2 < s.len() && s[k2] == ',' {
                match p_elements(s, k2 + 1, false, fuel - 1) {
                    None => None,
                    Some((es2, j2)) => {
                        let ghost rest = es2@;
                        let ghost vv = v.jv();
                        let mut es2 = es2;
                        es2.insert(0, v);
                        proof {
                            lemma_jv_of_elems_index(es2@);
                            lemma_jv_of_elems_index(rest);
                            assert(jv_of_elems(es2@) =~= seq![vv] + jv_of_elems(rest));
                        }
                        Some((es2, j2))
                    },
                }
            } else {
                None
            }
        },
    }
}

fn p_members(s: &Vec<char>, i: usize, first: bool, fuel: u64) -> (r: Option<(
    Vec<(Vec<char>, Json)>,
    usize,
)>)
    requires
        i <= s@.len(),
    ensures
        ({
            let sp = sp_members(s@, i as int, first, fuel as nat);
            match r {
                None => sp is None,
                Some((ms, j)) => sp == Some((jv_of_members(ms@), j as int)) && i < j <= s@.len(),
            }
        }),
    decreases fuel,
{
    if fuel == 0 {
        return None;
    }
    let j = p_ws(s, i);
    if first && j < s.len() && s[j] == '}' {
        let ms: Vec<(Vec<char>, Json)> = Vec::new();
        proof {
            assert(jv_of_members(ms@) =~= Seq::<(Seq<char>, JsonV)>::empty());
        }
        return Some((ms, j + 1));
    }
    if !(j < s.len() && s[j] == '"') {
        return None;
    }
    match p_string_body(s, j + 1) {
        None => None,
        Some((key, k)) => {
            let k2 = p_ws(s, k);
            if !(k2 < s.len() && s[k2] == ':') {
                return None;
            }
            match p_value(s, k2 + 1, fuel - 1) {
                None => None,
                Some((v, k3)) => {
                    let k4 = p_ws(s, k3);
                    if k4 < s.len() && s[k4] == '}' {
                        let ghost kv = (key@, v.jv());
                        let mut ms: Vec<(Vec<char>, Json)> = Vec::new();
                        ms.push((key, v));
                        proof {
                            lemma_jv_of_members_index(ms@);
                            assert(jv_of_members(ms@) =~= seq![kv]);
                        }
                        Some((ms, k4 + 1))
                    } else if k4 < s.len() && s[k4] == ',' {
                        match p_members(s, k4 + 1, false, fuel - 1) {
                            None => None,
                            Some((ms2, j2)) => {
                                let ghost rest = ms2@;
                                let ghost kv = (key@, v.jv());
                                let mut ms2 = ms2;
                                ms2.insert(0, (key, v));
                                proof {
                                    lemma_jv_of_members_index(ms2@);
                                    lemma_jv_of_members_index(rest);
                                    assert(jv_of_members(ms2@) =~= seq![kv] + jv_of_members(
                                        rest,
                                    ));
                                }
                                Some((ms2, j2))
                            },
                        }
                    } else {
                        None
                    }
                },
            }
        },
    }
}

/// Parses a whole JSON document.
pub fn parse_json(s: &Vec<char>) -> (r: Option<Json>)
    ensures
        match r {
            None => sp_parse_json(s@) is None,
            Some(v) => sp_parse_json(s@) == Some(v.jv()),
        },
{
    if s.len() > MAX_JSON_LEN {
        return None;
    }
    let fuel: u64 = 2 * (s.len() as u64) + 2;
    match p_value(s, 0, fuel) {
        None => None,
        Some((v, j)) => {
            let j2 = p_ws(s, j);
            if j2 == s.len() {
                Some(v)
            } else {
                None
            }
        },
    }
}

// ---------- serializer ----------

pub open spec fn hexdig_char(d: nat) -> char {
    if d == 0 { '0' } else if d == 1 { '1' } else if d == 2 { '2' } else if d == 3 { '3' }
    else if d == 4 { '4' } else if d == 5 { '5' } else if d == 6 { '6' } else if d == 7 { '7' }
    else if d == 8 { '8' } else if d == 9 { '9' } else if d == 10 { 'a' } else if d == 11 { 'b' }
    else if d == 12 { 'c' } else if d == 13 { 'd' } else if d == 14 { 'e' } else { 'f' }
}

/// How one character is written inside a string literal: quote,
/// backslash and the named control characters get a letter escape,
/// other control characters a `\u00..` escape, everything else stands
/// as itself.
pub open spec fn sp_esc(c: char) -> Seq<char> {
    if c == '"' { seq!['\\', '"'] }
    else if c == '\\' { seq!['\\', '\\'] }
    else if c == '\u{0008}' { seq!['\\', 'b'] }
    else if c == '\u{000C}' { seq!['\\', 'f'] }
    else if c == '\n' { seq!['\\', 'n'] }
    else if c == '\r' { seq!['\\', 'r'] }
    else if c == '\t' { seq!['\\', 't'] }
    else if (c as u32) < 0x20 {
        seq!['\\', 'u', '0', '0', hexdig_char((c as u32 / 16) as nat), hexdig_char((c as u32 % 16) as nat)]
    } else {
        seq![c]
    }
}

/// The text of a string body from position `k` on, escaped.
pub open spec fn sp_str_text(t: Seq<char>, k: int) -> Seq<char>
    decreases t.len() - k when 0 <= k <= t.len()
{
    if k >= t.len() { Seq::empty() } else { sp_esc(t[k]) + sp_str_text(t, k + 1) }
}

/// The serialized text of a value: compact, no added whitespace,
/// members and elements in their held order, numbers exactly as their
/// kept token.
pub open spec fn sp_ser(v: JsonV) -> Seq<char>
    decreases v, 0int,
{
    match v {
        JsonV::Null => seq!['n', 'u', 'l', 'l'],
        JsonV::Bool(b) => if b { seq!['t', 'r', 'u', 'e'] } else { seq!['f', 'a', 'l', 's', 'e'] },
        JsonV::Num(l) => l,
        JsonV::Str(t) => seq!['"'] + sp_str_text(t, 0) + seq!['"'],
        JsonV::Arr(es) => seq!['['] + sp_ser_elems(es, 0) + seq![']'],
        JsonV::Obj(ms) => seq!['{'] + sp_ser_members(ms, 0) + seq!['}'],
    }
}

pub open spec fn sp_ser_elems(es: Seq<JsonV>, k: int) -> Seq<char>
    decreases es, es.len() - k when 0 <= k <= es.len()
{
    if k >= es.len() {
        Seq::empty()
    } else if k == es.len() - 1 {
        sp_ser(es[k])
    } else {
        sp_ser(es[k]) + seq![','] + sp_ser_elems(es, k + 1)
    }
}

pub open spec fn sp_ser_members(ms: Seq<(Seq<char>, JsonV)>, k: int) -> Seq<char>
    decreases ms, ms.len() - k when 0 <= k <= ms.len()
{
    if k >= ms.len() {
        Seq::empty()
    } else if k == ms.len() - 1 {
        sp_ser_member(ms[k])
    } else {
        sp_ser_member(ms[k]) + seq![','] + sp_ser_members(ms, k + 1)
    }
}

pub open spec fn sp_ser_member(m: (Seq<char>, JsonV)) -> Seq<char>
    decreases m, 0int,
{
    seq!['"'] + sp_str_text(m.0, 0) + seq!['"', ':'] + sp_ser(m.1)
}

fn hexdig_exec(d: u32) -> (c: char)
    requires
        d < 16,
    ensures
        c == hexdig_char(d as nat),
{
    if d == 0 { '0' } else if d == 1 { '1' } else if d == 2 { '2' } else if d == 3 { '3' }
    else if d == 4 { '4' } else if d == 5 { '5' } else if d == 6 { '6' } else if d == 7 { '7' }
    else if d == 8 { '8' } else if d == 9 { '9' } else if d == 10 { 'a' } else if d == 11 { 'b' }
    else if d == 12 { 'c' } else if d == 13 { 'd' } else if d == 14 { 'e' } else { 'f' }
}

fn ser_esc(out: &mut String, c: char)
    ensures
        final(out)@ == old(out)@ + sp_esc(c),
{
    if c == '"' {
        push_char(out, '\\');
        push_char(out, '"');
    } else if c == '\\' {
        push_char(out, '\\');
        push_char(out, '\\');
    } else if c == '\u{0008}' {
        push_char(out, '\\');
        push_char(out, 'b');
    } else if c == '\u{000C}' {
        push_char(out, '\\');
        push_char(out, 'f');
    } else if c == '\n' {
        push_char(out, '\\');
        push_char(out, 'n');
    } else if c == '\r' {
        push_char(out, '\\');
        push_char(out, 'r');
    } else if c == '\t' {
        push_char(out, '\\');
        push_char(out, 't');
    } else if (c as u32) < 0x20 {
        push_char(out, '\\');
        push_char(out, 'u');
        push_char(out, '0');
        push_char(out, '0');
        push_char(out, hexdig_exec((c as u32) / 16));
        push_char(out, hexdig_exec((c as u32) % 16));
    } else {
        push_char(out, c);
    }
    proof {
        assert(final(out)@ =~= old(out)@ + sp_esc(c));
    }
}

fn ser_str_text(out: &mut String, t: &Vec<char>, k: usize)
    requires
        k <= t@.len(),
    ensures
        final(out)@ == old(out)@ + sp_str_text(t@, k as int),
    decreases t@.len() - k,
{
    if k < t.len() {
        ser_esc(out, t[k]);
        ser_str_text(out, t, k + 1);
        proof {
            assert(final(out)@ =~= old(out)@ + sp_str_text(t@, k as int));
        }
    } else {
        proof {
            assert(old(out)@ + sp_str_text(t@, k as int) =~= old(out)@);
        }
    }
}

fn ser_chars(out: &mut String, t: &Vec<char>)
    ensures
        final(out)@ == old(out)@ + t@,
{
    let mut k: usize = 0;
    while k < t.len()
        invariant
            k <= t@.len(),
            out@ == old(out)@ + t@.subrange(0, k as int),
        decreases t@.len() - k,
    {
        push_char(out, t[k]);
        proof {
            assert(old(out)@ + t@.subrange(0, k + 1 as int) =~= (old(out)@ + t@.subrange(
                0,
                k as int,
            )).push(t@[k as int]));
        }
        k += 1;
    }
    proof {
        assert(t@.subrange(0, t@.len() as int) =~= t@);
    }
}

fn ser_json_into(out: &mut String, v: &Json)
    ensures
        final(out)@ == old(out)@ + sp_ser(v.jv()),
    decreases *v, 1int,
{
    proof {
        reveal_strlit("null");
        reveal_strlit("true");
        reveal_strlit("false");
    }
    match v {
        Json::Null => {
            out.append("null");
            proof {
                assert(final(out)@ =~= old(out)@ + sp_ser(v.jv()));
            }
        },
        Json::Bool(b) => {
            if *b {
                out.append("true");
            } else {
                out.append("false");
            }
            proof {
                assert(final(out)@ =~= old(out)@ + sp_ser(v.jv()));
            }
        },
        Json::Num(l) => {
            ser_chars(out, l);
        },
        Json::Str(t) => {
            push_char(out, '"');
            ser_str_text(out, t, 0);
            push_char(out, '"');
            proof {
                assert(final(out)@ =~= old(out)@ + sp_ser(v.jv()));
            }
        },
        Json::Arr(es) => {
            proof {
                assert(decreases_to!(*v => *es));
                assert(decreases_to!(*es => es@));
            }
            push_char(out, '[');
            ser_elems(out, es, 0);
            push_char(out, ']');
            proof {
                assert(final(out)@ =~= old(out)@ + sp_ser(v.jv()));
            }
        },
        Json::Obj(ms) => {
            proof {
                assert(decreases_to!(*v => *ms));
                assert(decreases_to!(*ms => ms@));
            }
            push_char(out, '{');
            ser_members(out, ms, 0);
            push_char(out, '}');
            proof {
                assert(final(out)@ =~= old(out)@ + sp_ser(v.jv()));
            }
        },
    }
}

fn ser_elems(out: &mut String, es: &Vec<Json>, k: usize)
    requires
        k <= es@.len(),
    ensures
        final(out)@ == old(out)@ + sp_ser_elems(jv_of_elems(es@), k as int),
    decreases es@, es@.len() - k,
{
    proof {
        lemma_jv_of_elems_index(es@);
    }
    if k < es.len() {
        proof {
            assert(decreases_to!(es@ => es@[k as int]));
        }
        ser_json_into(out, &es[k]);
        if k + 1 < es.len() {
            push_char(out, ',');
            ser_elems(out, es, k + 1);
            proof {
                assert(final(out)@ =~= old(out)@ + sp_ser_elems(jv_of_elems(es@), k as int));
            }
        } else {
            proof {
                assert(final(out)@ =~= old(out)@ + sp_ser_elems(jv_of_elems(es@), k as int));
            }
        }
    } else {
        proof {
            assert(old(out)@ + sp_ser_elems(jv_of_elems(es@), k as int) =~= old(out)@);
        }
    }
}

fn ser_member(out: &mut String, m: &(Vec<char>, Json))
    ensures
        final(out)@ == old(out)@ + sp_ser_member((m.0@, m.1.jv())),
    decreases *m, 0int,
{
    proof {
        assert(decreases_to!(*m => m.1));
    }
    push_char(out, '"');
    ser_str_text(out, &m.0, 0);
    push_char(out, '"');
    push_char(out, ':');
    ser_json_into(out, &m.1);
    proof {
        assert(final(out)@ =~= old(out)@ + sp_ser_member((m.0@, m.1.jv())));
    }
}

fn ser_members(out: &mut String, ms: &Vec<(Vec<char>, Json)>, k: usize)
    requires
        k <= ms@.len(),
    ensures
        final(out)@ == old(out)@ + sp_ser_members(jv_of_members(ms@), k as int),
    decreases ms@, ms@.len() - k,
{
    proof {
        lemma_jv_of_members_index(ms@);
    }
    if k < ms.len() {
        proof {
            assert(decreases_to!(ms@ => ms@[k as int]));
        }
        ser_member(out, &ms[k]);
        if k + 1 < ms.len() {
            push_char(out, ',');
            ser_members(out, ms, k + 1);
            proof {
                assert(final(out)@ =~= old(out)@ + sp_ser_members(jv_of_members(ms@), k as int));
            }
        } else {
            proof {
                assert(final(out)@ =~= old(out)@ + sp_ser_members(jv_of_members(ms@), k as int));
            }
        }
    } else {
        proof {
            assert(old(out)@ + sp_ser_members(jv_of_members(ms@), k as int) =~= old(out)@);
        }
    }
}

/// Serializes a value: compact text, members and elements in order,
/// numbers exactly as their kept token.
pub fn json_to_string(v: &Json) -> (r: String)
    ensures
        r@ == sp_ser(v.jv()),
{
    let mut out = String::new();
    ser_json_into(&mut out, v);
    proof {
        assert(Seq::<char>::empty() + sp_ser(v.jv()) =~= sp_ser(v.jv()));
    }
    out
}

// ---------- lookup ----------

/// Compares the characters of `a` with those of `s`.
pub fn chars_eq_str(a: &Vec<char>, s: &str) -> (r: bool)
    ensures
        r == (a@ == s@),
{
    let bs = crate::strutil::str_to_chars(s);
    if a.len() != bs.len() {
        return false;
    }
    let mut k: usize = 0;
    while k < a.len()
        invariant
            a@.len() == bs@.len(),
            bs@ == s@,
            k <= a@.len(),
            forall|t: int| 0 <= t < k ==> a@[t] == bs@[t],
        decreases a@.len() - k,
    {
        if a[k] != bs[k] {
            return false;
        }
        k += 1;
    }
    proof {
        assert(a@ =~= s@);
    }
    true
}

/// Fetches the member of an object value under `key` (the last
/// binding of the key counts); `None` on any other kind of value and
/// on a missing key.
pub fn get_member<'a>(v: &'a Json, key: &str) -> (r: Option<&'a Json>)
    ensures
        match r {
            None => jv_get(v.jv(), key@) is None,
            Some(w) => jv_get(v.jv(), key@) == Some(w.jv()),
        },
{
    match v {
        Json::Obj(ms) => {
            proof {
                lemma_jv_of_members_index(ms@);
            }
            let ghost full = jv_of_members(ms@);
            proof {
                assert(full.subrange(0, full.len() as int) =~= full);
            }
            let mut k: usize = ms.len();
            while k > 0
                invariant
                    k <= ms@.len(),
                    full == jv_of_members(ms@),
                    v.jv() == JsonV::Obj(full),
                    full.len() == ms@.len(),
                    forall|t: int| 0 <= t < ms@.len() ==> full[t] == (ms@[t].0@, ms@[t].1.jv()),
                    obj_get(full, key@) == obj_get(full.subrange(0, k as int), key@),
                decreases k,
            {
                k = k - 1;
                if chars_eq_str(&ms[k].0, key) {
                    proof {
                        assert(full.subrange(0, k + 1 as int).last() == full[k as int]);
                        assert(obj_get(full.subrange(0, k + 1 as int), key@) == Some(
                            full[k as int].1,
                        ));
                        assert(v.jv() == JsonV::Obj(full));
                        assert(full[k as int].1 == ms@[k as int].1.jv());
                        assert(jv_get(v.jv(), key@) == Some(ms@[k as int].1.jv()));
                    }
                    return Some(&ms[k].1);
                }
                proof {
                    assert(full.subrange(0, k + 1 as int).last() == full[k as int]);
                    assert(full.subrange(0, k + 1 as int).drop_last() =~= full.subrange(
                        0,
                        k as int,
                    ));
                }
            }
            proof {
                assert(full.subrange(0, 0) =~= Seq::<(Seq<char>, JsonV)>::empty());
            }
            None
        },
        _ => None,
    }
}

} // verus!
