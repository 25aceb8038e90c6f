//! The grammar of the wire text, written as functions on character
//! sequences.
//!
//! Frames are JSON documents. Each function here takes the whole text and a
//! position and says where the construct that starts at that position ends
//! (and, for strings, what it denotes), or `None` if no such construct starts
//! there. Positions are plain integers; a position outside the text is never
//! the start of anything.
//!
//! Nesting of arrays and objects is bounded by [`MAX_DEPTH`]; text that nests
//! deeper is not part of the language.

use vstd::prelude::*;
use crate::text::occurs_at;

verus! {

/// How many arrays and objects may be open at once, the document's own
/// object included.
pub const MAX_DEPTH: usize = 127;

/// Whether the character `c` stands at position `i` of `s`.
pub open spec fn is_at(s: Seq<char>, i: int, c: char) -> bool {
    0 <= i < s.len() && s[i] == c
}

pub open spec fn is_ws(c: char) -> bool {
    c == ' ' || c == '\n' || c == '\r' || c == '\t'
}

/// The first position at or after `i` that does not hold whitespace.
pub open spec fn skip_ws(s: Seq<char>, i: int) -> int
    decreases s.len() - i,
{
    if 0 <= i < s.len() && is_ws(s[i]) {
        skip_ws(s, i + 1)
    } else {
        i
    }
}

pub open spec fn is_digit(c: char) -> bool {
    '0' <= c <= '9'
}

pub open spec fn digit_at(s: Seq<char>, i: int) -> bool {
    0 <= i < s.len() && is_digit(s[i])
}

/// The first position at or after `i` that does not hold a decimal digit.
pub open spec fn digits_end(s: Seq<char>, i: int) -> int
    decreases s.len() - i,
{
    if digit_at(s, i) {
        digits_end(s, i + 1)
    } else {
        i
    }
}

/// The value of a hexadecimal digit of either case.
pub open spec fn hex_value(c: char) -> Option<int> {
    if '0' <= c <= '9' {
        Some(c as int - '0' as int)
    } else if 'a' <= c <= 'f' {
        Some(c as int - 'a' as int + 10)
    } else if 'A' <= c <= 'F' {
        Some(c as int - 'A' as int + 10)
    } else {
        None
    }
}

/// The number written by the four hexadecimal digits at `i`.
pub open spec fn hex4_at(s: Seq<char>, i: int) -> Option<int> {
    if 0 <= i && i + 4 <= s.len() && hex_value(s[i]) is Some && hex_value(s[i + 1]) is Some
        && hex_value(s[i + 2]) is Some && hex_value(s[i + 3]) is Some {
        Some(
            ((hex_value(s[i])->0 * 16 + hex_value(s[i + 1])->0) * 16 + hex_value(s[i + 2])->0)
                * 16 + hex_value(s[i + 3])->0,
        )
    } else {
        None
    }
}

pub open spec fn is_high_surrogate(n: int) -> bool {
    0xD800 <= n < 0xDC00
}

pub open spec fn is_low_surrogate(n: int) -> bool {
    0xDC00 <= n < 0xE000
}

/// The code point that a surrogate pair stands for.
pub open spec fn pair_value(high: int, low: int) -> int {
    0x10000 + (high - 0xD800) * 0x400 + (low - 0xDC00)
}

/// What follows `\u`: four hexadecimal digits that name a character, or a
/// high surrogate followed by `\u` and a low surrogate, which together name
/// one. A surrogate on its own names nothing.
pub open spec fn unicode_escape_at(s: Seq<char>, i: int) -> Option<(char, int)> {
    match hex4_at(s, i) {
        None => None,
        Some(first) => {
            if is_high_surrogate(first) {
                if is_at(s, i + 4, '\\') && is_at(s, i + 5, 'u') {
                    match hex4_at(s, i + 6) {
                        None => None,
                        Some(second) => {
                            if is_low_surrogate(second) {
                                Some((pair_value(first, second) as char, i + 10))
                            } else {
                                None
                            }
                        },
                    }
                } else {
                    None
                }
            } else if is_low_surrogate(first) {
                None
            } else {
                Some((first as char, i + 4))
            }
        },
    }
}

/// What follows a backslash inside a string: the character the escape
/// denotes and the position after the escape.
pub open spec fn escape_at(s: Seq<char>, i: int) -> Option<(char, int)> {
    if !(0 <= i < s.len()) {
        None
    } else if s[i] == '"' {
        Some(('"', i + 1))
    } else if s[i] == '\\' {
        Some(('\\', i + 1))
    } else if s[i] == '/' {
        Some(('/', i + 1))
    } else if s[i] == 'b' {
        Some(('\u{8}', i + 1))
    } else if s[i] == 'f' {
        Some(('\u{c}', i + 1))
    } else if s[i] == 'n' {
        Some(('\n', i + 1))
    } else if s[i] == 'r' {
        Some(('\r', i + 1))
    } else if s[i] == 't' {
        Some(('\t', i + 1))
    } else if s[i] == 'u' {
        unicode_escape_at(s, i + 1)
    } else {
        None
    }
}

/// Control characters may not stand unescaped inside a string.
pub open spec fn is_control(c: char) -> bool {
    c < ' '
}

/// `text` and `end` of a parse, with `head` put in front of the text.
pub open spec fn with_prefix<A>(head: Seq<A>, rest: Option<(Seq<A>, int)>) -> Option<
    (Seq<A>, int),
> {
    match rest {
        None => None,
        Some((tail, end)) => Some((head + tail, end)),
    }
}

/// The body of a string: `i` is the position after the opening quote. Gives
/// the characters the string denotes and the position after the closing
/// quote.
pub open spec fn string_at(s: Seq<char>, i: int) -> Option<(Seq<char>, int)>
    decreases s.len() - i,
{
    if !(0 <= i < s.len()) {
        None
    } else if s[i] == '"' {
        Some((Seq::empty(), i + 1))
    } else if s[i] == '\\' {
        match escape_at(s, i + 1) {
            None => None,
            Some((c, next)) => with_prefix(seq![c], string_at(s, next)),
        }
    } else if is_control(s[i]) {
        None
    } else {
        with_prefix(seq![s[i]], string_at(s, i + 1))
    }
}

/// Where the string whose body starts at `i` ends.
pub open spec fn string_end(s: Seq<char>, i: int) -> Option<int> {
    match string_at(s, i) {
        None => None,
        Some((_, end)) => Some(end),
    }
}

/// The optional fraction of a number: a point and at least one digit.
pub open spec fn fraction_end(s: Seq<char>, i: int) -> Option<int> {
    if is_at(s, i, '.') {
        if digit_at(s, i + 1) {
            Some(digits_end(s, i + 1))
        } else {
            None
        }
    } else {
        Some(i)
    }
}

/// The optional exponent of a number: `e` or `E`, an optional sign and at
/// least one digit.
pub open spec fn exponent_end(s: Seq<char>, i: int) -> Option<int> {
    if is_at(s, i, 'e') || is_at(s, i, 'E') {
        let digits = if is_at(s, i + 1, '+') || is_at(s, i + 1, '-') {
            i + 2
        } else {
            i + 1
        };
        if digit_at(s, digits) {
            Some(digits_end(s, digits))
        } else {
            None
        }
    } else {
        Some(i)
    }
}

/// Where the number that starts at `i` ends. The integer part is a single
/// `0` or a run of digits that does not begin with `0`.
pub open spec fn number_end(s: Seq<char>, i: int) -> Option<int> {
    let int_part = if is_at(s, i, '-') {
        i + 1
    } else {
        i
    };
    if !digit_at(s, int_part) {
        None
    } else {
        let after_int = if s[int_part] == '0' {
            int_part + 1
        } else {
            digits_end(s, int_part)
        };
        match fraction_end(s, after_int) {
            None => None,
            Some(after_fraction) => exponent_end(s, after_fraction),
        }
    }
}

pub open spec fn lit_true() -> Seq<char> {
    seq!['t', 'r', 'u', 'e']
}

pub open spec fn lit_false() -> Seq<char> {
    seq!['f', 'a', 'l', 's', 'e']
}

pub open spec fn lit_null() -> Seq<char> {
    seq!['n', 'u', 'l', 'l']
}

/// Where the value that starts at `i` ends, if no more than `depth` arrays
/// and objects are open at once inside it.
pub open spec fn value_end(s: Seq<char>, i: int, depth: nat) -> Option<int>
    decreases depth, s.len() - i, 0nat,
{
    if !(0 <= i < s.len()) {
        None
    } else if s[i] == '"' {
        string_end(s, i + 1)
    } else if s[i] == '[' {
        let first = skip_ws(s, i + 1);
        if depth == 0 {
            None
        } else if is_at(s, first, ']') {
            Some(first + 1)
        } else {
            elements_end(s, first, (depth - 1) as nat)
        }
    } else if s[i] == '{' {
        let first = skip_ws(s, i + 1);
        if depth == 0 {
            None
        } else if is_at(s, first, '}') {
            Some(first + 1)
        } else {
            members_end(s, first, (depth - 1) as nat)
        }
    } else if s[i] == 't' {
        if occurs_at(s, i, lit_true()) {
            Some(i + 4)
        } else {
            None
        }
    } else if s[i] == 'f' {
        if occurs_at(s, i, lit_false()) {
            Some(i + 5)
        } else {
            None
        }
    } else if s[i] == 'n' {
        if occurs_at(s, i, lit_null()) {
            Some(i + 4)
        } else {
            None
        }
    } else {
        number_end(s, i)
    }
}

/// The elements of an array from the one that starts at `i`: values
/// separated by commas, up to and including the closing bracket.
///
/// The test `i < end` only serves the definition's own recursion: a value is
/// never empty (see [`lemma_value_end_bounds`]).
pub open spec fn elements_end(s: Seq<char>, i: int, depth: nat) -> Option<int>
    decreases depth, s.len() - i, 1nat,
{
    if !(0 <= i < s.len()) {
        None
    } else {
        match value_end(s, i, depth) {
            None => None,
            Some(end) => {
                let next = skip_ws(s, end);
                if !(i < end) {
                    None
                } else if is_at(s, next, ']') {
                    Some(next + 1)
                } else if is_at(s, next, ',') {
                    proof {
                        lemma_skip_ws_bounds(s, end);
                        lemma_skip_ws_bounds(s, next + 1);
                    }
                    elements_end(s, skip_ws(s, next + 1), depth)
                } else {
                    None
                }
            },
        }
    }
}

/// The members of an object from the one whose key starts at `i`: pairs of a
/// string and a value with a colon between them, separated by commas, up to
/// and including the closing brace.
///
/// The test `value < end` only serves the definition's own recursion.
pub open spec fn members_end(s: Seq<char>, i: int, depth: nat) -> Option<int>
    decreases depth, s.len() - i, 1nat,
{
    if !is_at(s, i, '"') {
        None
    } else {
        match string_end(s, i + 1) {
            None => None,
            Some(key_end) => {
                let colon = skip_ws(s, key_end);
                let value = skip_ws(s, colon + 1);
                if !is_at(s, colon, ':') {
                    None
                } else {
                    proof {
                        lemma_string_at_bounds(s, i + 1);
                        lemma_skip_ws_bounds(s, key_end);
                        lemma_skip_ws_bounds(s, colon + 1);
                    }
                    match value_end(s, value, depth) {
                        None => None,
                        Some(end) => {
                            let next = skip_ws(s, end);
                            if !(value < end) {
                                None
                            } else if is_at(s, next, '}') {
                                Some(next + 1)
                            } else if is_at(s, next, ',') {
                                proof {
                                    lemma_skip_ws_bounds(s, end);
                                    lemma_skip_ws_bounds(s, next + 1);
                                }
                                members_end(s, skip_ws(s, next + 1), depth)
                            } else {
                                None
                            }
                        },
                    }
                }
            },
        }
    }
}

/// Whitespace is skipped forwards and never past the end of the text.
pub proof fn lemma_skip_ws_bounds(s: Seq<char>, i: int)
    ensures
        i <= skip_ws(s, i),
        i <= s.len() ==> skip_ws(s, i) <= s.len(),
        0 <= skip_ws(s, i) < s.len() ==> !is_ws(s[skip_ws(s, i)]),
    decreases s.len() - i,
{
    if 0 <= i < s.len() && is_ws(s[i]) {
        lemma_skip_ws_bounds(s, i + 1);
    }
}

/// A run of digits ends at or after its start and inside the text.
pub proof fn lemma_digits_end_bounds(s: Seq<char>, i: int)
    ensures
        i <= digits_end(s, i),
        i <= s.len() ==> digits_end(s, i) <= s.len(),
        digit_at(s, i) ==> i < digits_end(s, i),
    decreases s.len() - i,
{
    if digit_at(s, i) {
        lemma_digits_end_bounds(s, i + 1);
    }
}

/// A string ends after its start and inside the text.
pub proof fn lemma_string_at_bounds(s: Seq<char>, i: int)
    ensures
        string_at(s, i) matches Some((_, end)) ==> i < end <= s.len(),
    decreases s.len() - i,
{
    if 0 <= i < s.len() && s[i] != '"' {
        if s[i] == '\\' {
            match escape_at(s, i + 1) {
                None => {},
                Some((_, next)) => {
                    lemma_string_at_bounds(s, next);
                },
            }
        } else if !is_control(s[i]) {
            lemma_string_at_bounds(s, i + 1);
        }
    }
}

/// A number ends after its start and inside the text.
pub proof fn lemma_number_end_bounds(s: Seq<char>, i: int)
    ensures
        number_end(s, i) matches Some(end) ==> i < end <= s.len(),
{
    let int_part = if is_at(s, i, '-') {
        i + 1
    } else {
        i
    };
    if digit_at(s, int_part) {
        lemma_digits_end_bounds(s, int_part);
        let after_int = if s[int_part] == '0' {
            int_part + 1
        } else {
            digits_end(s, int_part)
        };
        lemma_digits_end_bounds(s, after_int + 1);
        match fraction_end(s, after_int) {
            None => {},
            Some(after_fraction) => {
                lemma_digits_end_bounds(s, after_fraction + 1);
                lemma_digits_end_bounds(s, after_fraction + 2);
            },
        }
    }
}

/// A value ends after its start and inside the text.
pub proof fn lemma_value_end_bounds(s: Seq<char>, i: int, depth: nat)
    ensures
        value_end(s, i, depth) matches Some(end) ==> i < end <= s.len(),
    decreases depth, s.len() - i, 0nat,
{
    if 0 <= i < s.len() {
        if s[i] == '"' {
            lemma_string_at_bounds(s, i + 1);
        } else if s[i] == '[' {
            let first = skip_ws(s, i + 1);
            lemma_skip_ws_bounds(s, i + 1);
            if depth > 0 && !is_at(s, first, ']') {
                lemma_elements_end_bounds(s, first, (depth - 1) as nat);
            }
        } else if s[i] == '{' {
            let first = skip_ws(s, i + 1);
            lemma_skip_ws_bounds(s, i + 1);
            if depth > 0 && !is_at(s, first, '}') {
                lemma_members_end_bounds(s, first, (depth - 1) as nat);
            }
        } else if s[i] == 't' || s[i] == 'f' || s[i] == 'n' {
        } else {
            lemma_number_end_bounds(s, i);
        }
    }
}

/// The rest of an array ends after the position it is read from.
pub proof fn lemma_elements_end_bounds(s: Seq<char>, i: int, depth: nat)
    ensures
        elements_end(s, i, depth) matches Some(end) ==> i < end <= s.len(),
    decreases depth, s.len() - i, 1nat,
{
    if 0 <= i < s.len() {
        match value_end(s, i, depth) {
            None => {},
            Some(end) => {
                lemma_value_end_bounds(s, i, depth);
                let next = skip_ws(s, end);
                lemma_skip_ws_bounds(s, end);
                if i < end && is_at(s, next, ',') {
                    lemma_skip_ws_bounds(s, next + 1);
                    lemma_elements_end_bounds(s, skip_ws(s, next + 1), depth);
                }
            },
        }
    }
}

/// The rest of an object ends after the position it is read from.
pub proof fn lemma_members_end_bounds(s: Seq<char>, i: int, depth: nat)
    ensures
        members_end(s, i, depth) matches Some(end) ==> i < end <= s.len(),
    decreases depth, s.len() - i, 1nat,
{
    if is_at(s, i, '"') {
        match string_end(s, i + 1) {
            None => {},
            Some(key_end) => {
                lemma_string_at_bounds(s, i + 1);
                let colon = skip_ws(s, key_end);
                let value = skip_ws(s, colon + 1);
                lemma_skip_ws_bounds(s, key_end);
                lemma_skip_ws_bounds(s, colon + 1);
                if is_at(s, colon, ':') {
                    match value_end(s, value, depth) {
                        None => {},
                        Some(end) => {
                            lemma_value_end_bounds(s, value, depth);
                            let next = skip_ws(s, end);
                            lemma_skip_ws_bounds(s, end);
                            if value < end && is_at(s, next, ',') {
                                lemma_skip_ws_bounds(s, next + 1);
                                lemma_members_end_bounds(s, skip_ws(s, next + 1), depth);
                            }
                        },
                    }
                }
            },
        }
    }
}

} // verus!
