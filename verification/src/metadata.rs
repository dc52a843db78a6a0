//! The image-metadata document.
//!
//! The metadata lookup answers with a JSON array of objects, each of which
//! must carry a `url` member whose value is the image's address. This module
//! reads that document directly from its bytes: one JSON array of objects,
//! whose member values may be strings, numbers, booleans, `null`, or nested
//! arrays and objects (walked and left behind), with the full escape set in
//! strings, `\uXXXX` and surrogate pairs included. A document outside that
//! shape is rejected, which the pipeline reports as invalid metadata.

use vstd::prelude::*;

verus! {

/// JSON insignificant whitespace: space, tab, line feed, carriage return.
pub open spec fn is_ws_byte(b: u8) -> bool {
    b == 32 || b == 9 || b == 10 || b == 13
}

/// An ASCII decimal digit.
pub open spec fn is_digit_byte(b: u8) -> bool {
    48 <= b <= 57
}

/// An ASCII hexadecimal digit.
pub open spec fn is_hex_byte(b: u8) -> bool {
    48 <= b <= 57 || 97 <= b <= 102 || 65 <= b <= 70
}

/// The value of a hexadecimal digit.
pub open spec fn hex_val(b: u8) -> nat {
    if 48 <= b <= 57 {
        (b - 48) as nat
    } else if 97 <= b <= 102 {
        (b - 87) as nat
    } else if 65 <= b <= 70 {
        (b - 55) as nat
    } else {
        0
    }
}

/// True when the four bytes at `i` are hexadecimal digits.
pub open spec fn hex4_at(s: Seq<u8>, i: int) -> bool {
    &&& 0 <= i
    &&& i + 4 <= s.len()
    &&& is_hex_byte(s[i])
    &&& is_hex_byte(s[i + 1])
    &&& is_hex_byte(s[i + 2])
    &&& is_hex_byte(s[i + 3])
}

/// The code unit spelled by the four hexadecimal digits at `i`.
pub open spec fn hex4_val(s: Seq<u8>, i: int) -> nat {
    hex_val(s[i]) * 4096 + hex_val(s[i + 1]) * 256 + hex_val(s[i + 2]) * 16 + hex_val(s[i + 3])
}

/// The escapes that stand for a single byte: `\"`, `\\`, `\/`, `\b`, `\f`,
/// `\n`, `\r` and `\t`.
pub open spec fn is_simple_escape(b: u8) -> bool {
    b == 34 || b == 92 || b == 47 || b == 98 || b == 102 || b == 110 || b == 114 || b == 116
}

/// The byte a single-byte escape stands for.
pub open spec fn escape_byte(b: u8) -> u8 {
    if b == 98 {
        8
    } else if b == 102 {
        12
    } else if b == 110 {
        10
    } else if b == 114 {
        13
    } else if b == 116 {
        9
    } else {
        b
    }
}

/// The UTF-8 encoding of the code point `c`.
pub open spec fn utf8_bytes(c: nat) -> Seq<u8> {
    if c < 0x80 {
        seq![c as u8]
    } else if c < 0x800 {
        seq![(192 + c / 64) as u8, (128 + c % 64) as u8]
    } else if c < 0x10000 {
        seq![(224 + c / 4096) as u8, (128 + (c / 64) % 64) as u8, (128 + c % 64) as u8]
    } else {
        seq![
            (240 + c / 262144) as u8,
            (128 + (c / 4096) % 64) as u8,
            (128 + (c / 64) % 64) as u8,
            (128 + c % 64) as u8,
        ]
    }
}

/// The first index at or after `i` holding no whitespace.
pub open spec fn ws_end(s: Seq<u8>, i: int) -> int
    decreases s.len() - i,
{
    if 0 <= i < s.len() && is_ws_byte(s[i]) {
        ws_end(s, i + 1)
    } else {
        i
    }
}

proof fn lemma_ws_end_bounds(s: Seq<u8>, i: int)
    requires
        0 <= i <= s.len(),
    ensures
        i <= ws_end(s, i) <= s.len(),
    decreases s.len() - i,
{
    if i < s.len() && is_ws_byte(s[i]) {
        lemma_ws_end_bounds(s, i + 1);
    }
}

/// Skips whitespace, returning the first index at or after `i` holding none.
fn skip_ws(s: &[u8], i: usize) -> (r: usize)
    requires
        i <= s@.len(),
    ensures
        r == ws_end(s@, i as int),
        i <= r <= s@.len(),
    decreases s@.len() - i,
{
    if i < s.len() {
        let b = s[i];
        if b == 32 || b == 9 || b == 10 || b == 13 {
            return skip_ws(s, i + 1);
        }
    }
    i
}

/// Reads the rest of a string whose opening quote stands just before `i`,
/// unescaping as it goes: the accumulated content so far is `acc`. A `\u`
/// escape becomes the UTF-8 bytes of its code point, a high surrogate must
/// be followed by a low one, and a lone surrogate is rejected. Yields the
/// full content and the index just past the closing quote, or nothing if the
/// string never closes or an escape is malformed.
pub open spec fn str_rest(s: Seq<u8>, i: int, acc: Seq<u8>) -> Option<(Seq<u8>, int)>
    decreases s.len() - i,
{
    if !(0 <= i < s.len()) {
        None
    } else if s[i] == 34 {
        Some((acc, i + 1))
    } else if s[i] == 92 {
        if i + 1 < s.len() && is_simple_escape(s[i + 1]) {
            str_rest(s, i + 2, acc.push(escape_byte(s[i + 1])))
        } else if i + 1 < s.len() && s[i + 1] == 117 && hex4_at(s, i + 2) {
            let c = hex4_val(s, i + 2);
            if 0xD800 <= c < 0xDC00 {
                if i + 8 < s.len() && s[i + 6] == 92 && s[i + 7] == 117 && hex4_at(s, i + 8) {
                    let c2 = hex4_val(s, i + 8);
                    if 0xDC00 <= c2 < 0xE000 {
                        str_rest(
                            s,
                            i + 12,
                            acc + utf8_bytes((0x10000 + (c - 0xD800) * 0x400 + (c2 - 0xDC00)) as nat),
                        )
                    } else {
                        None
                    }
                } else {
                    None
                }
            } else if 0xDC00 <= c < 0xE000 {
                None
            } else {
                str_rest(s, i + 6, acc + utf8_bytes(c))
            }
        } else {
            None
        }
    } else {
        str_rest(s, i + 1, acc.push(s[i]))
    }
}

proof fn lemma_str_rest_bounds(s: Seq<u8>, i: int, acc: Seq<u8>)
    requires
        0 <= i,
    ensures
        str_rest(s, i, acc) matches Some(p) ==> i < p.1 <= s.len(),
    decreases s.len() - i,
{
    if 0 <= i < s.len() {
        if s[i] == 34 {
        } else if s[i] == 92 {
            if i + 1 < s.len() && is_simple_escape(s[i + 1]) {
                lemma_str_rest_bounds(s, i + 2, acc.push(escape_byte(s[i + 1])));
            } else if i + 1 < s.len() && s[i + 1] == 117 && hex4_at(s, i + 2) {
                let c = hex4_val(s, i + 2);
                if 0xD800 <= c < 0xDC00 {
                    if i + 8 < s.len() && s[i + 6] == 92 && s[i + 7] == 117 && hex4_at(s, i + 8) {
                        let c2 = hex4_val(s, i + 8);
                        if 0xDC00 <= c2 < 0xE000 {
                            lemma_str_rest_bounds(
                                s,
                                i + 12,
                                acc + utf8_bytes((0x10000 + (c - 0xD800) * 0x400 + (c2 - 0xDC00)) as nat),
                            );
                        }
                    }
                } else if !(0xDC00 <= c < 0xE000) {
                    lemma_str_rest_bounds(s, i + 6, acc + utf8_bytes(c));
                }
            }
        } else {
            lemma_str_rest_bounds(s, i + 1, acc.push(s[i]));
        }
    }
}

/// Decides whether `b` is a hexadecimal digit.
fn is_hex_x(b: u8) -> (r: bool)
    ensures
        r == is_hex_byte(b),
{
    (48 <= b && b <= 57) || (97 <= b && b <= 102) || (65 <= b && b <= 70)
}

/// The value of a hexadecimal digit.
fn hex_val_x(b: u8) -> (r: u8)
    ensures
        r as nat == hex_val(b),
{
    if 48 <= b && b <= 57 {
        b - 48
    } else if 97 <= b && b <= 102 {
        b - 87
    } else if 65 <= b && b <= 70 {
        b - 55
    } else {
        0
    }
}

/// Decides whether the four bytes at `i` are hexadecimal digits.
fn hex4_at_x(s: &[u8], i: usize) -> (r: bool)
    requires
        i <= s@.len(),
    ensures
        r == hex4_at(s@, i as int),
{
    s.len() - i >= 4 && is_hex_x(s[i]) && is_hex_x(s[i + 1]) && is_hex_x(s[i + 2]) && is_hex_x(
        s[i + 3],
    )
}

/// The code unit spelled by the four hexadecimal digits at `i`.
fn hex4_val_x(s: &[u8], i: usize) -> (r: u32)
    requires
        hex4_at(s@, i as int),
    ensures
        r as nat == hex4_val(s@, i as int),
        r < 0x10000,
{
    (hex_val_x(s[i]) as u32) * 4096 + (hex_val_x(s[i + 1]) as u32) * 256 + (hex_val_x(
        s[i + 2],
    ) as u32) * 16 + (hex_val_x(s[i + 3]) as u32)
}

/// Appends the UTF-8 encoding of the code point `c`.
fn with_utf8(acc: Vec<u8>, c: u32) -> (r: Vec<u8>)
    requires
        c < 0x110000,
    ensures
        r@ == acc@ + utf8_bytes(c as nat),
{
    let mut a = acc;
    if c < 0x80 {
        a.push(c as u8);
    } else if c < 0x800 {
        a.push((192 + c / 64) as u8);
        a.push((128 + c % 64) as u8);
    } else if c < 0x10000 {
        a.push((224 + c / 4096) as u8);
        a.push((128 + (c / 64) % 64) as u8);
        a.push((128 + c % 64) as u8);
    } else {
        a.push((240 + c / 262144) as u8);
        a.push((128 + (c / 4096) % 64) as u8);
        a.push((128 + (c / 64) % 64) as u8);
        a.push((128 + c % 64) as u8);
    }
    proof {
        assert(a@ =~= acc@ + utf8_bytes(c as nat));
    }
    a
}

/// Reads the rest of a string, as `str_rest` describes.
fn scan_string_rest(s: &[u8], i: usize, acc: Vec<u8>) -> (r: Option<(Vec<u8>, usize)>)
    requires
        i <= s@.len(),
    ensures
        match r {
            Some(p) => str_rest(s@, i as int, acc@) matches Some(q) && p.0@ == q.0 && p.1 as int
                == q.1 && i < p.1 <= s@.len(),
            None => str_rest(s@, i as int, acc@) is None,
        },
    decreases s@.len() - i,
{
    if i >= s.len() {
        return None;
    }
    let b = s[i];
    if b == 34 {
        Some((acc, i + 1))
    } else if b == 92 {
        if i + 1 >= s.len() {
            return None;
        }
        let e = s[i + 1];
        if e == 34 || e == 92 || e == 47 {
            let mut a = acc;
            a.push(e);
            scan_string_rest(s, i + 2, a)
        } else if e == 98 || e == 102 || e == 110 || e == 114 || e == 116 {
            let mut a = acc;
            a.push(letter_escape_target(e));
            scan_string_rest(s, i + 2, a)
        } else if e == 117 {
            if !hex4_at_x(s, i + 2) {
                return None;
            }
            let c = hex4_val_x(s, i + 2);
            if 0xD800 <= c && c < 0xDC00 {
                if s.len() - i > 8 && s[i + 6] == 92 && s[i + 7] == 117 && hex4_at_x(s, i + 8) {
                    let c2 = hex4_val_x(s, i + 8);
                    if 0xDC00 <= c2 && c2 < 0xE000 {
                        let a = with_utf8(acc, 0x10000 + (c - 0xD800) * 0x400 + (c2 - 0xDC00));
                        scan_string_rest(s, i + 12, a)
                    } else {
                        None
                    }
                } else {
                    None
                }
            } else if 0xDC00 <= c && c < 0xE000 {
                None
            } else {
                let a = with_utf8(acc, c);
                scan_string_rest(s, i + 6, a)
            }
        } else {
            None
        }
    } else {
        let mut a = acc;
        a.push(b);
        scan_string_rest(s, i + 1, a)
    }
}

/// The byte a letter escape stands for.
fn letter_escape_target(e: u8) -> (r: u8)
    ensures
        r == escape_byte(e),
{
    if e == 98 {
        8
    } else if e == 102 {
        12
    } else if e == 110 {
        10
    } else if e == 114 {
        13
    } else if e == 116 {
        9
    } else {
        e
    }
}

/// The first index at or after `i` holding no decimal digit.
pub open spec fn digits_end(s: Seq<u8>, i: int) -> int
    decreases s.len() - i,
{
    if 0 <= i < s.len() && is_digit_byte(s[i]) {
        digits_end(s, i + 1)
    } else {
        i
    }
}

proof fn lemma_digits_end_bounds(s: Seq<u8>, i: int)
    requires
        0 <= i <= s.len(),
    ensures
        i <= digits_end(s, i) <= s.len(),
    decreases s.len() - i,
{
    if i < s.len() && is_digit_byte(s[i]) {
        lemma_digits_end_bounds(s, i + 1);
    }
}

/// Skips decimal digits, returning the first index at or after `i` holding
/// none.
fn skip_digits(s: &[u8], i: usize) -> (r: usize)
    requires
        i <= s@.len(),
    ensures
        r == digits_end(s@, i as int),
        i <= r <= s@.len(),
    decreases s@.len() - i,
{
    if i < s.len() {
        let b = s[i];
        if 48 <= b && b <= 57 {
            return skip_digits(s, i + 1);
        }
    }
    i
}

/// The index just past a number's integer part starting at `i`: a single
/// `0`, or a nonzero digit followed by more digits.
pub open spec fn int_end(s: Seq<u8>, i: int) -> Option<int> {
    if 0 <= i < s.len() && is_digit_byte(s[i]) {
        if s[i] == 48 {
            Some(i + 1)
        } else {
            Some(digits_end(s, i))
        }
    } else {
        None
    }
}

/// The index just past a number's fraction part at `i`, if one starts there:
/// a point and at least one digit.
pub open spec fn frac_end(s: Seq<u8>, i: int) -> Option<int> {
    if 0 <= i < s.len() && s[i] == 46 {
        if i + 1 < s.len() && is_digit_byte(s[i + 1]) {
            Some(digits_end(s, i + 1))
        } else {
            None
        }
    } else {
        Some(i)
    }
}

/// The index just past a number's exponent part at `i`, if one starts there:
/// an exponent marker, an optional sign and at least one digit.
pub open spec fn exp_end(s: Seq<u8>, i: int) -> Option<int> {
    if 0 <= i < s.len() && (s[i] == 101 || s[i] == 69) {
        let a = if i + 1 < s.len() && (s[i + 1] == 43 || s[i + 1] == 45) {
            i + 2
        } else {
            i + 1
        };
        if a < s.len() && is_digit_byte(s[a]) {
            Some(digits_end(s, a))
        } else {
            None
        }
    } else {
        Some(i)
    }
}

/// The index just past the number starting exactly at `i`, by the JSON
/// number grammar: an optional minus, an integer part, an optional fraction
/// and an optional exponent.
pub open spec fn number_end(s: Seq<u8>, i: int) -> Option<int> {
    let a = if 0 <= i < s.len() && s[i] == 45 {
        i + 1
    } else {
        i
    };
    match int_end(s, a) {
        None => None,
        Some(b) => match frac_end(s, b) {
            None => None,
            Some(c) => exp_end(s, c),
        },
    }
}

proof fn lemma_number_end_bounds(s: Seq<u8>, i: int)
    requires
        0 <= i,
    ensures
        number_end(s, i) matches Some(p) ==> i < p <= s.len(),
{
    let a = if 0 <= i < s.len() && s[i] == 45 {
        i + 1
    } else {
        i
    };
    if 0 <= a < s.len() && is_digit_byte(s[a]) {
        lemma_digits_end_bounds(s, a);
        if a < s.len() && is_digit_byte(s[a]) && s[a] != 48 {
            lemma_digits_end_bounds(s, a + 1);
        }
        match int_end(s, a) {
            None => {},
            Some(b) => {
                if 0 <= b < s.len() && s[b] == 46 && b + 1 < s.len() && is_digit_byte(s[b + 1]) {
                    lemma_digits_end_bounds(s, b + 1);
                }
                match frac_end(s, b) {
                    None => {},
                    Some(c) => {
                        if 0 <= c < s.len() && (s[c] == 101 || s[c] == 69) {
                            let a2 = if c + 1 < s.len() && (s[c + 1] == 43 || s[c + 1] == 45) {
                                c + 2
                            } else {
                                c + 1
                            };
                            if a2 < s.len() && is_digit_byte(s[a2]) {
                                lemma_digits_end_bounds(s, a2);
                            }
                        }
                    },
                }
            },
        }
    }
}

/// Reads one number, as `number_end` describes.
fn scan_number(s: &[u8], i: usize) -> (r: Option<usize>)
    requires
        i <= s@.len(),
    ensures
        match r {
            Some(j) => number_end(s@, i as int) matches Some(q) && j as int == q && i < j
                <= s@.len(),
            None => number_end(s@, i as int) is None,
        },
{
    let a = if i < s.len() && s[i] == 45 {
        i + 1
    } else {
        i
    };
    if !(a < s.len() && 48 <= s[a] && s[a] <= 57) {
        return None;
    }
    let b = if s[a] == 48 {
        a + 1
    } else {
        proof {
            lemma_digits_end_bounds(s@, a as int + 1);
        }
        skip_digits(s, a)
    };
    let c = if b < s.len() && s[b] == 46 {
        if b + 1 < s.len() && 48 <= s[b + 1] && s[b + 1] <= 57 {
            proof {
                lemma_digits_end_bounds(s@, b as int + 2);
            }
            skip_digits(s, b + 1)
        } else {
            return None;
        }
    } else {
        b
    };
    if c < s.len() && (s[c] == 101 || s[c] == 69) {
        let a2 = if c + 1 < s.len() && (s[c + 1] == 43 || s[c + 1] == 45) {
            c + 2
        } else {
            c + 1
        };
        if a2 < s.len() && 48 <= s[a2] && s[a2] <= 57 {
            Some(skip_digits(s, a2))
        } else {
            None
        }
    } else {
        Some(c)
    }
}

/// The bytes at `i` spell the literal word `true`.
pub open spec fn is_true_at(s: Seq<u8>, i: int) -> bool {
    &&& 0 <= i
    &&& i + 4 <= s.len()
    &&& s[i] == 116
    &&& s[i + 1] == 114
    &&& s[i + 2] == 117
    &&& s[i + 3] == 101
}

/// The bytes at `i` spell the literal word `false`.
pub open spec fn is_false_at(s: Seq<u8>, i: int) -> bool {
    &&& 0 <= i
    &&& i + 5 <= s.len()
    &&& s[i] == 102
    &&& s[i + 1] == 97
    &&& s[i + 2] == 108
    &&& s[i + 3] == 115
    &&& s[i + 4] == 101
}

/// The bytes at `i` spell the literal word `null`.
pub open spec fn is_null_at(s: Seq<u8>, i: int) -> bool {
    &&& 0 <= i
    &&& i + 4 <= s.len()
    &&& s[i] == 110
    &&& s[i + 1] == 117
    &&& s[i + 2] == 108
    &&& s[i + 3] == 108
}

/// What the walk of a nested value expects next.
#[derive(Clone, Copy, PartialEq, Eq, Structural)]
pub enum SkipState {
    /// A value.
    Value,
    /// A value, or the bracket closing an empty array.
    ValueOrClose,
    /// A comma and then more, or the brace or bracket closing the innermost
    /// open object or array; with nothing open, the value is complete.
    AfterValue,
    /// A member key, or the brace closing an empty object.
    KeyOrClose,
    /// A member key.
    Key,
    /// The colon after a member key.
    Colon,
}

/// Orders the states that consume no byte before the states they hand over
/// to, so that the walk's measure decreases at every step.
pub open spec fn state_rank(state: SkipState) -> int {
    match state {
        SkipState::ValueOrClose => 1,
        SkipState::KeyOrClose => 1,
        _ => 0,
    }
}

/// Walks one whole nested value starting at `i`, checking the JSON grammar
/// token by token and keeping nothing of the content. `stack` holds the
/// brackets still open — `true` an object, `false` an array — and `state`
/// what comes next; a value's walk starts with an empty stack in the `Value`
/// state and yields the index just past the value.
pub open spec fn skip_json(s: Seq<u8>, i: int, stack: Seq<bool>, state: SkipState) -> Option<int>
    decreases s.len() - i, state_rank(state),
    via skip_json_decreases
{
    if state == SkipState::AfterValue && stack.len() == 0 {
        Some(i)
    } else {
        let j = ws_end(s, i);
        if !(0 <= j < s.len()) {
            None
        } else {
            let b = s[j];
            match state {
                SkipState::Value => {
                    if b == 34 {
                        match str_rest(s, j + 1, Seq::empty()) {
                            Some(p) => skip_json(s, p.1, stack, SkipState::AfterValue),
                            None => None,
                        }
                    } else if b == 45 || is_digit_byte(b) {
                        match number_end(s, j) {
                            Some(e) => skip_json(s, e, stack, SkipState::AfterValue),
                            None => None,
                        }
                    } else if is_true_at(s, j) {
                        skip_json(s, j + 4, stack, SkipState::AfterValue)
                    } else if is_false_at(s, j) {
                        skip_json(s, j + 5, stack, SkipState::AfterValue)
                    } else if is_null_at(s, j) {
                        skip_json(s, j + 4, stack, SkipState::AfterValue)
                    } else if b == 123 {
                        skip_json(s, j + 1, stack.push(true), SkipState::KeyOrClose)
                    } else if b == 91 {
                        skip_json(s, j + 1, stack.push(false), SkipState::ValueOrClose)
                    } else {
                        None
                    }
                },
                SkipState::ValueOrClose => {
                    if b == 93 && stack.len() > 0 && stack.last() == false {
                        skip_json(s, j + 1, stack.drop_last(), SkipState::AfterValue)
                    } else {
                        skip_json(s, j, stack, SkipState::Value)
                    }
                },
                SkipState::AfterValue => {
                    if stack.len() == 0 {
                        None
                    } else if b == 44 {
                        if stack.last() == true {
                            skip_json(s, j + 1, stack, SkipState::Key)
                        } else {
                            skip_json(s, j + 1, stack, SkipState::Value)
                        }
                    } else if b == 125 && stack.last() == true {
                        skip_json(s, j + 1, stack.drop_last(), SkipState::AfterValue)
                    } else if b == 93 && stack.last() == false {
                        skip_json(s, j + 1, stack.drop_last(), SkipState::AfterValue)
                    } else {
                        None
                    }
                },
                SkipState::KeyOrClose => {
                    if b == 125 && stack.len() > 0 && stack.last() == true {
                        skip_json(s, j + 1, stack.drop_last(), SkipState::AfterValue)
                    } else {
                        skip_json(s, j, stack, SkipState::Key)
                    }
                },
                SkipState::Key => {
                    if b == 34 {
                        match str_rest(s, j + 1, Seq::empty()) {
                            Some(p) => skip_json(s, p.1, stack, SkipState::Colon),
                            None => None,
                        }
                    } else {
                        None
                    }
                },
                SkipState::Colon => {
                    if b == 58 {
                        skip_json(s, j + 1, stack, SkipState::Value)
                    } else {
                        None
                    }
                },
            }
        }
    }
}

#[via_fn]
proof fn skip_json_decreases(s: Seq<u8>, i: int, stack: Seq<bool>, state: SkipState) {
    let j = ws_end(s, i);
    if 0 <= i <= s.len() {
        lemma_ws_end_bounds(s, i);
    }
    if 0 <= j < s.len() {
        lemma_str_rest_bounds(s, j + 1, Seq::empty());
        lemma_number_end_bounds(s, j);
    }
}

proof fn lemma_skip_value_bounds(s: Seq<u8>, i: int, stack: Seq<bool>)
    requires
        0 <= i <= s.len(),
    ensures
        skip_json(s, i, stack, SkipState::Value) matches Some(q) ==> i <= q <= s.len(),
    decreases s.len() - i, 0int,
{
    lemma_ws_end_bounds(s, i);
    let j = ws_end(s, i);
    if 0 <= j < s.len() {
        lemma_str_rest_bounds(s, j + 1, Seq::empty());
        lemma_number_end_bounds(s, j);
        let b = s[j];
        if b == 34 {
            match str_rest(s, j + 1, Seq::empty()) {
                Some(p) => {
                    lemma_skip_after_value_bounds(s, p.1, stack);
                },
                None => {},
            }
        } else if b == 45 || is_digit_byte(b) {
            match number_end(s, j) {
                Some(e) => {
                    lemma_skip_after_value_bounds(s, e, stack);
                },
                None => {},
            }
        } else if is_true_at(s, j) {
            lemma_skip_after_value_bounds(s, j + 4, stack);
        } else if is_false_at(s, j) {
            lemma_skip_after_value_bounds(s, j + 5, stack);
        } else if is_null_at(s, j) {
            lemma_skip_after_value_bounds(s, j + 4, stack);
        } else if b == 123 {
            lemma_skip_key_or_close_bounds(s, j + 1, stack.push(true));
        } else if b == 91 {
            lemma_skip_value_or_close_bounds(s, j + 1, stack.push(false));
        }
    }
}

proof fn lemma_skip_value_or_close_bounds(s: Seq<u8>, i: int, stack: Seq<bool>)
    requires
        0 <= i <= s.len(),
    ensures
        skip_json(s, i, stack, SkipState::ValueOrClose) matches Some(q) ==> i <= q <= s.len(),
    decreases s.len() - i, 1int,
{
    lemma_ws_end_bounds(s, i);
    let j = ws_end(s, i);
    if 0 <= j < s.len() {
        if s[j] == 93 && stack.len() > 0 && stack.last() == false {
            lemma_skip_after_value_bounds(s, j + 1, stack.drop_last());
        } else {
            lemma_skip_value_bounds(s, j, stack);
        }
    }
}

proof fn lemma_skip_after_value_bounds(s: Seq<u8>, i: int, stack: Seq<bool>)
    requires
        0 <= i <= s.len(),
    ensures
        skip_json(s, i, stack, SkipState::AfterValue) matches Some(q) ==> i <= q <= s.len(),
    decreases s.len() - i, 0int,
{
    if stack.len() != 0 {
        lemma_ws_end_bounds(s, i);
        let j = ws_end(s, i);
        if 0 <= j < s.len() {
            let b = s[j];
            if b == 44 {
                if stack.last() == true {
                    lemma_skip_key_bounds(s, j + 1, stack);
                } else {
                    lemma_skip_value_bounds(s, j + 1, stack);
                }
            } else if b == 125 && stack.last() == true {
                lemma_skip_after_value_bounds(s, j + 1, stack.drop_last());
            } else if b == 93 && stack.last() == false {
                lemma_skip_after_value_bounds(s, j + 1, stack.drop_last());
            }
        }
    }
}

proof fn lemma_skip_key_or_close_bounds(s: Seq<u8>, i: int, stack: Seq<bool>)
    requires
        0 <= i <= s.len(),
    ensures
        skip_json(s, i, stack, SkipState::KeyOrClose) matches Some(q) ==> i <= q <= s.len(),
    decreases s.len() - i, 1int,
{
    lemma_ws_end_bounds(s, i);
    let j = ws_end(s, i);
    if 0 <= j < s.len() {
        if s[j] == 125 && stack.len() > 0 && stack.last() == true {
            lemma_skip_after_value_bounds(s, j + 1, stack.drop_last());
        } else {
            lemma_skip_key_bounds(s, j, stack);
        }
    }
}

proof fn lemma_skip_key_bounds(s: Seq<u8>, i: int, stack: Seq<bool>)
    requires
        0 <= i <= s.len(),
    ensures
        skip_json(s, i, stack, SkipState::Key) matches Some(q) ==> i <= q <= s.len(),
    decreases s.len() - i, 0int,
{
    lemma_ws_end_bounds(s, i);
    let j = ws_end(s, i);
    if 0 <= j < s.len() {
        if s[j] == 34 {
            lemma_str_rest_bounds(s, j + 1, Seq::empty());
            match str_rest(s, j + 1, Seq::empty()) {
                Some(p) => {
                    lemma_skip_colon_bounds(s, p.1, stack);
                },
                None => {},
            }
        }
    }
}

proof fn lemma_skip_colon_bounds(s: Seq<u8>, i: int, stack: Seq<bool>)
    requires
        0 <= i <= s.len(),
    ensures
        skip_json(s, i, stack, SkipState::Colon) matches Some(q) ==> i <= q <= s.len(),
    decreases s.len() - i, 0int,
{
    lemma_ws_end_bounds(s, i);
    let j = ws_end(s, i);
    if 0 <= j < s.len() {
        if s[j] == 58 {
            lemma_skip_value_bounds(s, j + 1, stack);
        }
    }
}

/// Walks one whole nested value, as `skip_json` describes.
fn skip_json_x(s: &[u8], i: usize, stack: Vec<bool>, state: SkipState) -> (r: Option<usize>)
    requires
        i <= s@.len(),
    ensures
        match r {
            Some(j) => skip_json(s@, i as int, stack@, state) matches Some(q) && j as int == q && i
                <= j <= s@.len(),
            None => skip_json(s@, i as int, stack@, state) is None,
        },
    decreases s@.len() - i, state_rank(state),
{
    if state == SkipState::AfterValue && stack.len() == 0 {
        return Some(i);
    }
    let j = skip_ws(s, i);
    if j >= s.len() {
        return None;
    }
    let b = s[j];
    match state {
        SkipState::Value => {
            if b == 34 {
                match scan_string_rest(s, j + 1, Vec::new()) {
                    Some(p) => skip_json_x(s, p.1, stack, SkipState::AfterValue),
                    None => None,
                }
            } else if b == 45 || (48 <= b && b <= 57) {
                match scan_number(s, j) {
                    Some(e) => skip_json_x(s, e, stack, SkipState::AfterValue),
                    None => None,
                }
            } else if b == 116 && s.len() - j >= 4 && s[j + 1] == 114 && s[j + 2] == 117 && s[j
                + 3] == 101 {
                skip_json_x(s, j + 4, stack, SkipState::AfterValue)
            } else if b == 102 && s.len() - j >= 5 && s[j + 1] == 97 && s[j + 2] == 108 && s[j + 3]
                == 115 && s[j + 4] == 101 {
                skip_json_x(s, j + 5, stack, SkipState::AfterValue)
            } else if b == 110 && s.len() - j >= 4 && s[j + 1] == 117 && s[j + 2] == 108 && s[j
                + 3] == 108 {
                skip_json_x(s, j + 4, stack, SkipState::AfterValue)
            } else if b == 123 {
                let mut st = stack;
                st.push(true);
                skip_json_x(s, j + 1, st, SkipState::KeyOrClose)
            } else if b == 91 {
                let mut st = stack;
                st.push(false);
                skip_json_x(s, j + 1, st, SkipState::ValueOrClose)
            } else {
                None
            }
        },
        SkipState::ValueOrClose => {
            if b == 93 && stack.len() > 0 && stack[stack.len() - 1] == false {
                let mut st = stack;
                st.pop();
                skip_json_x(s, j + 1, st, SkipState::AfterValue)
            } else {
                skip_json_x(s, j, stack, SkipState::Value)
            }
        },
        SkipState::AfterValue => {
            if stack.len() == 0 {
                None
            } else if b == 44 {
                if stack[stack.len() - 1] == true {
                    skip_json_x(s, j + 1, stack, SkipState::Key)
                } else {
                    skip_json_x(s, j + 1, stack, SkipState::Value)
                }
            } else if b == 125 && stack[stack.len() - 1] == true {
                let mut st = stack;
                st.pop();
                skip_json_x(s, j + 1, st, SkipState::AfterValue)
            } else if b == 93 && stack[stack.len() - 1] == false {
                let mut st = stack;
                st.pop();
                skip_json_x(s, j + 1, st, SkipState::AfterValue)
            } else {
                None
            }
        },
        SkipState::KeyOrClose => {
            if b == 125 && stack.len() > 0 && stack[stack.len() - 1] == true {
                let mut st = stack;
                st.pop();
                skip_json_x(s, j + 1, st, SkipState::AfterValue)
            } else {
                skip_json_x(s, j, stack, SkipState::Key)
            }
        },
        SkipState::Key => {
            if b == 34 {
                match scan_string_rest(s, j + 1, Vec::new()) {
                    Some(p) => skip_json_x(s, p.1, stack, SkipState::Colon),
                    None => None,
                }
            } else {
                None
            }
        },
        SkipState::Colon => {
            if b == 58 {
                skip_json_x(s, j + 1, stack, SkipState::Value)
            } else {
                None
            }
        },
    }
}

/// Reads one member value starting exactly at `i`: a string (whose content
/// is yielded), or a number, boolean, `null`, object or array (whose content
/// is not). Yields the index just past the value.
pub open spec fn parse_value(s: Seq<u8>, i: int) -> Option<(Option<Seq<u8>>, int)> {
    if !(0 <= i < s.len()) {
        None
    } else if s[i] == 34 {
        match str_rest(s, i + 1, Seq::empty()) {
            Some(p) => Some((Some(p.0), p.1)),
            None => None,
        }
    } else if s[i] == 45 || is_digit_byte(s[i]) {
        match number_end(s, i) {
            Some(e) => Some((None, e)),
            None => None,
        }
    } else if is_true_at(s, i) {
        Some((None, i + 4))
    } else if is_false_at(s, i) {
        Some((None, i + 5))
    } else if is_null_at(s, i) {
        Some((None, i + 4))
    } else if s[i] == 123 {
        match skip_json(s, i + 1, seq![true], SkipState::KeyOrClose) {
            Some(e) => Some((None, e)),
            None => None,
        }
    } else if s[i] == 91 {
        match skip_json(s, i + 1, seq![false], SkipState::ValueOrClose) {
            Some(e) => Some((None, e)),
            None => None,
        }
    } else {
        None
    }
}

proof fn lemma_parse_value_bounds(s: Seq<u8>, i: int)
    ensures
        parse_value(s, i) matches Some(p) ==> i < p.1 <= s.len(),
{
    if 0 <= i < s.len() {
        if s[i] == 34 {
            lemma_str_rest_bounds(s, i + 1, Seq::empty());
        } else if s[i] == 45 || is_digit_byte(s[i]) {
            lemma_number_end_bounds(s, i);
        } else if !(is_true_at(s, i) || is_false_at(s, i) || is_null_at(s, i)) {
            if s[i] == 123 {
                lemma_skip_key_or_close_bounds(s, i + 1, seq![true]);
            } else if s[i] == 91 {
                lemma_skip_value_or_close_bounds(s, i + 1, seq![false]);
            }
        }
    }
}

/// The view of an optional byte vector.
pub open spec fn opt_bytes_view(v: Option<Vec<u8>>) -> Option<Seq<u8>> {
    match v {
        Some(b) => Some(b@),
        None => None,
    }
}

/// Reads one member value, as `parse_value` describes.
fn scan_value(s: &[u8], i: usize) -> (r: Option<(Option<Vec<u8>>, usize)>)
    requires
        i <= s@.len(),
    ensures
        match r {
            Some(p) => parse_value(s@, i as int) matches Some(q) && opt_bytes_view(p.0) == q.0
                && p.1 as int == q.1 && i < p.1 <= s@.len(),
            None => parse_value(s@, i as int) is None,
        },
{
    if i >= s.len() {
        return None;
    }
    let b = s[i];
    if b == 34 {
        match scan_string_rest(s, i + 1, Vec::new()) {
            Some(p) => Some((Some(p.0), p.1)),
            None => None,
        }
    } else if b == 45 || (48 <= b && b <= 57) {
        match scan_number(s, i) {
            Some(e) => Some((None, e)),
            None => None,
        }
    } else if b == 116 {
        if s.len() - i >= 4 && s[i + 1] == 114 && s[i + 2] == 117 && s[i + 3] == 101 {
            Some((None, i + 4))
        } else {
            None
        }
    } else if b == 102 {
        if s.len() - i >= 5 && s[i + 1] == 97 && s[i + 2] == 108 && s[i + 3] == 115 && s[i + 4]
            == 101 {
            Some((None, i + 5))
        } else {
            None
        }
    } else if b == 110 {
        if s.len() - i >= 4 && s[i + 1] == 117 && s[i + 2] == 108 && s[i + 3] == 108 {
            Some((None, i + 4))
        } else {
            None
        }
    } else if b == 123 {
        let mut st: Vec<bool> = Vec::new();
        st.push(true);
        proof {
            assert(st@ =~= seq![true]);
        }
        match skip_json_x(s, i + 1, st, SkipState::KeyOrClose) {
            Some(e) => Some((None, e)),
            None => None,
        }
    } else if b == 91 {
        let mut st: Vec<bool> = Vec::new();
        st.push(false);
        proof {
            assert(st@ =~= seq![false]);
        }
        match skip_json_x(s, i + 1, st, SkipState::ValueOrClose) {
            Some(e) => Some((None, e)),
            None => None,
        }
    } else {
        None
    }
}

/// Reads one object member starting exactly at `i`: a string key, a colon,
/// and a value, with whitespace between. Yields the key, the value's content
/// where the value is a string, and the index just past the member.
pub open spec fn parse_member(s: Seq<u8>, i: int) -> Option<(Seq<u8>, Option<Seq<u8>>, int)> {
    if !(0 <= i < s.len() && s[i] == 34) {
        None
    } else {
        match str_rest(s, i + 1, Seq::empty()) {
            None => None,
            Some(kp) => {
                let j = ws_end(s, kp.1);
                if j < s.len() && s[j] == 58 {
                    match parse_value(s, ws_end(s, j + 1)) {
                        None => None,
                        Some(vp) => Some((kp.0, vp.0, vp.1)),
                    }
                } else {
                    None
                }
            },
        }
    }
}

proof fn lemma_parse_member_bounds(s: Seq<u8>, i: int)
    ensures
        parse_member(s, i) matches Some(p) ==> i < p.2 <= s.len(),
{
    if 0 <= i < s.len() && s[i] == 34 {
        lemma_str_rest_bounds(s, i + 1, Seq::empty());
        match str_rest(s, i + 1, Seq::empty()) {
            Some(kp) => {
                lemma_ws_end_bounds(s, kp.1);
                let j = ws_end(s, kp.1);
                if j < s.len() && s[j] == 58 {
                    lemma_ws_end_bounds(s, j + 1);
                    lemma_parse_value_bounds(s, ws_end(s, j + 1));
                }
            },
            None => {},
        }
    }
}

/// Reads one object member, as `parse_member` describes.
fn scan_member(s: &[u8], i: usize) -> (r: Option<(Vec<u8>, Option<Vec<u8>>, usize)>)
    requires
        i <= s@.len(),
    ensures
        match r {
            Some(p) => parse_member(s@, i as int) matches Some(q) && p.0@ == q.0 && opt_bytes_view(
                p.1,
            ) == q.1 && p.2 as int == q.2 && i < p.2 <= s@.len(),
            None => parse_member(s@, i as int) is None,
        },
{
    if i >= s.len() {
        return None;
    }
    if s[i] != 34 {
        return None;
    }
    let kp = match scan_string_rest(s, i + 1, Vec::new()) {
        Some(kp) => kp,
        None => {
            return None;
        },
    };
    let j = skip_ws(s, kp.1);
    if j < s.len() && s[j] == 58 {
        let m = skip_ws(s, j + 1);
        match scan_value(s, m) {
            Some(vp) => Some((kp.0, vp.0, vp.1)),
            None => None,
        }
    } else {
        None
    }
}

/// The member key that carries an image's address.
pub open spec fn url_key() -> Seq<u8> {
    seq![117u8, 114u8, 108u8]
}

/// Folds one parsed member into the object's image address: the first `url`
/// member whose value is a string wins.
pub open spec fn url_from(key: Seq<u8>, val: Option<Seq<u8>>, cur: Option<Seq<u8>>) -> Option<
    Seq<u8>,
> {
    if cur is Some {
        cur
    } else if key == url_key() && val is Some {
        val
    } else {
        None
    }
}

/// Reads the members after the first one — `(ws ',' ws member)* ws '}'` —
/// folding each into the object's image address, with `cur` what the members
/// so far gave. Yields the address and the index just past the brace.
pub open spec fn object_rest(s: Seq<u8>, i: int, cur: Option<Seq<u8>>) -> Option<
    (Option<Seq<u8>>, int),
>
    decreases s.len() - i,
    via object_rest_decreases
{
    let j = ws_end(s, i);
    if j < s.len() && s[j] == 125 {
        Some((cur, j + 1))
    } else if j < s.len() && s[j] == 44 {
        let k = ws_end(s, j + 1);
        match parse_member(s, k) {
            None => None,
            Some(mp) => object_rest(s, mp.2, url_from(mp.0, mp.1, cur)),
        }
    } else {
        None
    }
}

#[via_fn]
proof fn object_rest_decreases(s: Seq<u8>, i: int, cur: Option<Seq<u8>>) {
    let j = ws_end(s, i);
    if 0 <= i <= s.len() {
        lemma_ws_end_bounds(s, i);
    }
    if j < s.len() && s[j] == 44 {
        if 0 <= j + 1 <= s.len() {
            lemma_ws_end_bounds(s, j + 1);
        }
        lemma_parse_member_bounds(s, ws_end(s, j + 1));
    }
}

proof fn lemma_object_rest_bounds(s: Seq<u8>, i: int, cur: Option<Seq<u8>>)
    requires
        0 <= i,
    ensures
        object_rest(s, i, cur) matches Some(p) ==> i < p.1 <= s.len(),
    decreases s.len() - i,
{
    if i <= s.len() {
        lemma_ws_end_bounds(s, i);
        let j = ws_end(s, i);
        if j < s.len() && s[j] == 44 {
            lemma_ws_end_bounds(s, j + 1);
            let k = ws_end(s, j + 1);
            lemma_parse_member_bounds(s, k);
            match parse_member(s, k) {
                Some(mp) => {
                    lemma_object_rest_bounds(s, mp.2, url_from(mp.0, mp.1, cur));
                },
                None => {},
            }
        }
    }
}

/// Reads one object starting exactly at `i`, yielding its image address —
/// the first `url` member whose value is a string — and the index just past
/// the closing brace.
pub open spec fn parse_object(s: Seq<u8>, i: int) -> Option<(Option<Seq<u8>>, int)> {
    if !(0 <= i < s.len() && s[i] == 123) {
        None
    } else {
        let j = ws_end(s, i + 1);
        if j < s.len() && s[j] == 125 {
            Some((None, j + 1))
        } else {
            match parse_member(s, j) {
                None => None,
                Some(mp) => object_rest(s, mp.2, url_from(mp.0, mp.1, None)),
            }
        }
    }
}

proof fn lemma_parse_object_bounds(s: Seq<u8>, i: int)
    ensures
        parse_object(s, i) matches Some(p) ==> i < p.1 <= s.len(),
{
    if 0 <= i < s.len() && s[i] == 123 {
        lemma_ws_end_bounds(s, i + 1);
        let j = ws_end(s, i + 1);
        if !(j < s.len() && s[j] == 125) {
            lemma_parse_member_bounds(s, j);
            match parse_member(s, j) {
                Some(mp) => {
                    lemma_object_rest_bounds(s, mp.2, url_from(mp.0, mp.1, None));
                },
                None => {},
            }
        }
    }
}

/// Decides whether `key` is the `url` member key.
fn is_url_key(key: &Vec<u8>) -> (r: bool)
    ensures
        r == (key@ == url_key()),
{
    if key.len() == 3 && key[0] == 117 && key[1] == 114 && key[2] == 108 {
        proof {
            assert(key@ =~= url_key());
        }
        true
    } else {
        proof {
            if key@ == url_key() {
                assert(key@.len() == 3);
                assert(key@[0] == 117 && key@[1] == 114 && key@[2] == 108);
            }
        }
        false
    }
}

/// Folds one member into the object's image address, as `url_from` describes.
fn fold_url(key: &Vec<u8>, val: Option<Vec<u8>>, cur: Option<Vec<u8>>) -> (r: Option<Vec<u8>>)
    ensures
        opt_bytes_view(r) == url_from(key@, opt_bytes_view(val), opt_bytes_view(cur)),
{
    if cur.is_some() {
        cur
    } else if is_url_key(key) && val.is_some() {
        val
    } else {
        None
    }
}

/// Reads the members after the first one, as `object_rest` describes.
fn scan_object_rest(s: &[u8], i: usize, cur: Option<Vec<u8>>) -> (r: Option<
    (Option<Vec<u8>>, usize),
>)
    requires
        i <= s@.len(),
    ensures
        match r {
            Some(p) => object_rest(s@, i as int, opt_bytes_view(cur)) matches Some(q)
                && opt_bytes_view(p.0) == q.0 && p.1 as int == q.1 && i < p.1 <= s@.len(),
            None => object_rest(s@, i as int, opt_bytes_view(cur)) is None,
        },
    decreases s@.len() - i,
{
    let j = skip_ws(s, i);
    if j < s.len() && s[j] == 125 {
        return Some((cur, j + 1));
    }
    if j < s.len() && s[j] == 44 {
        let k = skip_ws(s, j + 1);
        match scan_member(s, k) {
            None => None,
            Some(mp) => {
                let next = fold_url(&mp.0, mp.1, cur);
                scan_object_rest(s, mp.2, next)
            },
        }
    } else {
        None
    }
}

/// Reads one object, as `parse_object` describes.
fn scan_object(s: &[u8], i: usize) -> (r: Option<(Option<Vec<u8>>, usize)>)
    requires
        i <= s@.len(),
    ensures
        match r {
            Some(p) => parse_object(s@, i as int) matches Some(q) && opt_bytes_view(p.0) == q.0
                && p.1 as int == q.1 && i < p.1 <= s@.len(),
            None => parse_object(s@, i as int) is None,
        },
{
    if i >= s.len() {
        return None;
    }
    if s[i] != 123 {
        return None;
    }
    let j = skip_ws(s, i + 1);
    if j < s.len() && s[j] == 125 {
        return Some((None, j + 1));
    }
    match scan_member(s, j) {
        None => None,
        Some(mp) => {
            let first = fold_url(&mp.0, mp.1, None);
            scan_object_rest(s, mp.2, first)
        },
    }
}

/// Appends one object's image address to the list gathered so far; an object
/// without an address spoils the whole list, since every object must carry
/// one.
pub open spec fn push_url(acc: Option<Seq<Seq<u8>>>, u: Option<Seq<u8>>) -> Option<Seq<Seq<u8>>> {
    match (acc, u) {
        (Some(a), Some(x)) => Some(a.push(x)),
        _ => None,
    }
}

/// The view of a list of byte vectors.
pub open spec fn urls_view(v: Vec<Vec<u8>>) -> Seq<Seq<u8>> {
    Seq::new(v@.len(), |k: int| v@[k]@)
}

/// The view of an optional list of byte vectors.
pub open spec fn opt_urls_view(v: Option<Vec<Vec<u8>>>) -> Option<Seq<Seq<u8>>> {
    match v {
        Some(us) => Some(urls_view(us)),
        None => None,
    }
}

/// Appends one object's image address, as `push_url` describes.
fn push_url_x(acc: Option<Vec<Vec<u8>>>, u: Option<Vec<u8>>) -> (r: Option<Vec<Vec<u8>>>)
    ensures
        opt_urls_view(r) == push_url(opt_urls_view(acc), opt_bytes_view(u)),
{
    match (acc, u) {
        (Some(a), Some(x)) => {
            let mut a2 = a;
            a2.push(x);
            proof {
                assert(urls_view(a2) =~= urls_view(a).push(x@));
            }
            Some(a2)
        },
        _ => None,
    }
}

/// Reads the objects after the first one — `(ws ',' ws object)* ws ']'` —
/// appending each object's image address, with `acc` what the objects so far
/// gave. Yields the addresses and the index just past the bracket.
pub open spec fn array_rest(s: Seq<u8>, i: int, acc: Option<Seq<Seq<u8>>>) -> Option<
    (Option<Seq<Seq<u8>>>, int),
>
    decreases s.len() - i,
    via array_rest_decreases
{
    let j = ws_end(s, i);
    if j < s.len() && s[j] == 93 {
        Some((acc, j + 1))
    } else if j < s.len() && s[j] == 44 {
        let k = ws_end(s, j + 1);
        match parse_object(s, k) {
            None => None,
            Some(op) => array_rest(s, op.1, push_url(acc, op.0)),
        }
    } else {
        None
    }
}

#[via_fn]
proof fn array_rest_decreases(s: Seq<u8>, i: int, acc: Option<Seq<Seq<u8>>>) {
    let j = ws_end(s, i);
    if 0 <= i <= s.len() {
        lemma_ws_end_bounds(s, i);
    }
    if j < s.len() && s[j] == 44 {
        if 0 <= j + 1 <= s.len() {
            lemma_ws_end_bounds(s, j + 1);
        }
        lemma_parse_object_bounds(s, ws_end(s, j + 1));
    }
}

/// Reads the whole array starting exactly at `i`, yielding each object's
/// image address in order and the index just past the closing bracket.
pub open spec fn parse_array(s: Seq<u8>, i: int) -> Option<(Option<Seq<Seq<u8>>>, int)> {
    if !(0 <= i < s.len() && s[i] == 91) {
        None
    } else {
        let j = ws_end(s, i + 1);
        if j < s.len() && s[j] == 93 {
            Some((Some(Seq::empty()), j + 1))
        } else {
            match parse_object(s, j) {
                None => None,
                Some(op) => array_rest(s, op.1, push_url(Some(Seq::empty()), op.0)),
            }
        }
    }
}

/// Reads the objects after the first one, as `array_rest` describes.
fn scan_array_rest(s: &[u8], i: usize, acc: Option<Vec<Vec<u8>>>) -> (r: Option<
    (Option<Vec<Vec<u8>>>, usize),
>)
    requires
        i <= s@.len(),
    ensures
        match r {
            Some(p) => array_rest(s@, i as int, opt_urls_view(acc)) matches Some(q)
                && opt_urls_view(p.0) == q.0 && p.1 as int == q.1 && i < p.1 <= s@.len(),
            None => array_rest(s@, i as int, opt_urls_view(acc)) is None,
        },
    decreases s@.len() - i,
{
    let j = skip_ws(s, i);
    if j < s.len() && s[j] == 93 {
        return Some((acc, j + 1));
    }
    if j < s.len() && s[j] == 44 {
        let k = skip_ws(s, j + 1);
        match scan_object(s, k) {
            None => None,
            Some(op) => {
                let acc2 = push_url_x(acc, op.0);
                scan_array_rest(s, op.1, acc2)
            },
        }
    } else {
        None
    }
}

/// Reads the whole array, as `parse_array` describes.
fn scan_array(s: &[u8], i: usize) -> (r: Option<(Option<Vec<Vec<u8>>>, usize)>)
    requires
        i <= s@.len(),
    ensures
        match r {
            Some(p) => parse_array(s@, i as int) matches Some(q) && opt_urls_view(p.0) == q.0
                && p.1 as int == q.1 && i < p.1 <= s@.len(),
            None => parse_array(s@, i as int) is None,
        },
{
    if i >= s.len() {
        return None;
    }
    if s[i] != 91 {
        return None;
    }
    let j = skip_ws(s, i + 1);
    if j < s.len() && s[j] == 93 {
        let empty: Vec<Vec<u8>> = Vec::new();
        proof {
            assert(urls_view(empty) =~= Seq::<Seq<u8>>::empty());
        }
        return Some((Some(empty), j + 1));
    }
    match scan_object(s, j) {
        None => None,
        Some(op) => {
            let start: Vec<Vec<u8>> = Vec::new();
            proof {
                assert(urls_view(start) =~= Seq::<Seq<u8>>::empty());
            }
            let acc = push_url_x(Some(start), op.0);
            scan_array_rest(s, op.1, acc)
        },
    }
}

/// The image addresses carried by a metadata document: one whole array of
/// objects with nothing but whitespace around it, each object contributing
/// the value of its `url` member, in the array's order. `None` where the
/// bytes do not spell such a document or an object carries no `url` string.
pub open spec fn metadata_urls(s: Seq<u8>) -> Option<Seq<Seq<u8>>> {
    match parse_array(s, ws_end(s, 0)) {
        None => None,
        Some(ap) => {
            if ws_end(s, ap.1) == s.len() {
                ap.0
            } else {
                None
            }
        },
    }
}

/// Reads a metadata document, returning each object's image address in
/// order, as `metadata_urls` describes.
pub fn parse_metadata(s: &[u8]) -> (r: Option<Vec<Vec<u8>>>)
    ensures
        match r {
            Some(us) => metadata_urls(s@) matches Some(qs) && urls_view(us) == qs,
            None => metadata_urls(s@) is None,
        },
{
    let i = skip_ws(s, 0);
    match scan_array(s, i) {
        None => None,
        Some(ap) => {
            let j = skip_ws(s, ap.1);
            if j == s.len() {
                ap.0
            } else {
                None
            }
        },
    }
}

} // verus!
