//! Scanning wire text: the executable counterparts of the grammar.
//!
//! Every function here takes the text as a slice of characters and a
//! position, and returns exactly what the grammar function of the same
//! construct gives for the slice's view.

use vstd::prelude::*;
use crate::grammar::{
    digits_end, elements_end, escape_at, exponent_end, fraction_end, hex4_at, hex_value,
    is_control, is_digit, is_ws, lemma_digits_end_bounds, lit_false, members_end, number_end, skip_ws,
    string_at, string_end, unicode_escape_at, value_end, with_prefix,
};
use crate::text::{occurs_at, push_char};

verus! {

/// A position result, as the grammar states it.
pub open spec fn as_end(r: Option<usize>) -> Option<int> {
    match r {
        None => None,
        Some(end) => Some(end as int),
    }
}

/// A string result, as the grammar states it.
pub open spec fn as_text(r: Option<(String, usize)>) -> Option<(Seq<char>, int)> {
    match r {
        None => None,
        Some((text, end)) => Some((text@, end as int)),
    }
}

/// A character result, as the grammar states it.
pub open spec fn as_char(r: Option<(char, usize)>) -> Option<(char, int)> {
    match r {
        None => None,
        Some((c, end)) => Some((c, end as int)),
    }
}

pub fn whitespace(c: char) -> (b: bool)
    ensures
        b == is_ws(c),
{
    c == ' ' || c == '\n' || c == '\r' || c == '\t'
}

pub fn skip_whitespace(s: &[char], i: usize) -> (end: usize)
    ensures
        end == skip_ws(s@, i as int),
        i <= end,
        i <= s.len() ==> end <= s.len(),
{
    let mut k = i;
    while k < s.len() && whitespace(s[k])
        invariant
            i <= k,
            i <= s.len() ==> k <= s.len(),
            skip_ws(s@, i as int) == skip_ws(s@, k as int),
        decreases s.len() - k,
    {
        k += 1;
    }
    k
}

pub fn control(c: char) -> (b: bool)
    ensures
        b == is_control(c),
{
    ' ' > c
}

pub fn digit(c: char) -> (b: bool)
    ensures
        b == is_digit(c),
{
    '0' <= c && c <= '9'
}

pub fn find_digits_end(s: &[char], i: usize) -> (end: usize)
    ensures
        end == digits_end(s@, i as int),
        i <= end,
        i <= s.len() ==> end <= s.len(),
{
    let mut k = i;
    while k < s.len() && digit(s[k])
        invariant
            i <= k,
            i <= s.len() ==> k <= s.len(),
            digits_end(s@, i as int) == digits_end(s@, k as int),
        decreases s.len() - k,
    {
        k += 1;
    }
    k
}

pub fn hex_digit_value(c: char) -> (r: Option<u32>)
    ensures
        match r {
            None => hex_value(c) is None,
            Some(v) => hex_value(c) == Some(v as int) && v < 16,
        },
{
    if '0' <= c && c <= '9' {
        Some(c as u32 - '0' as u32)
    } else if 'a' <= c && c <= 'f' {
        Some(c as u32 - 'a' as u32 + 10)
    } else if 'A' <= c && c <= 'F' {
        Some(c as u32 - 'A' as u32 + 10)
    } else {
        None
    }
}

pub fn read_hex4(s: &[char], i: usize) -> (r: Option<u32>)
    ensures
        match r {
            None => hex4_at(s@, i as int) is None,
            Some(v) => hex4_at(s@, i as int) == Some(v as int) && v < 0x10000 && i + 4 <= s.len(),
        },
{
    if i > s.len() || s.len() - i < 4 {
        return None;
    }
    let a = match hex_digit_value(s[i]) {
        Some(v) => v,
        None => { return None; },
    };
    let b = match hex_digit_value(s[i + 1]) {
        Some(v) => v,
        None => { return None; },
    };
    let c = match hex_digit_value(s[i + 2]) {
        Some(v) => v,
        None => { return None; },
    };
    let d = match hex_digit_value(s[i + 3]) {
        Some(v) => v,
        None => { return None; },
    };
    Some(((a * 16 + b) * 16 + c) * 16 + d)
}

pub fn read_unicode_escape(s: &[char], i: usize) -> (r: Option<(char, usize)>)
    ensures
        as_char(r) == unicode_escape_at(s@, i as int),
        r matches Some((_, end)) ==> i < end <= s.len(),
{
    let first = match read_hex4(s, i) {
        Some(v) => v,
        None => { return None; },
    };
    if 0xD800 <= first && first < 0xDC00 {
        if s.len() - i < 6 || s[i + 4] != '\\' || s[i + 5] != 'u' {
            return None;
        }
        let second = match read_hex4(s, i + 6) {
            Some(v) => v,
            None => { return None; },
        };
        if !(0xDC00 <= second && second < 0xE000) {
            return None;
        }
        let code: u32 = 0x10000 + (first - 0xD800) * 0x400 + (second - 0xDC00);
        match char::from_u32(code) {
            Some(c) => Some((c, i + 10)),
            None => None,
        }
    } else if 0xDC00 <= first && first < 0xE000 {
        None
    } else {
        match char::from_u32(first) {
            Some(c) => Some((c, i + 4)),
            None => None,
        }
    }
}

pub fn read_escape(s: &[char], i: usize) -> (r: Option<(char, usize)>)
    ensures
        as_char(r) == escape_at(s@, i as int),
        r matches Some((_, end)) ==> i < end <= s.len(),
{
    if i >= s.len() {
        return None;
    }
    let c = s[i];
    if c == '"' {
        Some(('"', i + 1))
    } else if c == '\\' {
        Some(('\\', i + 1))
    } else if c == '/' {
        Some(('/', i + 1))
    } else if c == 'b' {
        Some(('\u{8}', i + 1))
    } else if c == 'f' {
        Some(('\u{c}', i + 1))
    } else if c == 'n' {
        Some(('\n', i + 1))
    } else if c == 'r' {
        Some(('\r', i + 1))
    } else if c == 't' {
        Some(('\t', i + 1))
    } else if c == 'u' {
        read_unicode_escape(s, i + 1)
    } else {
        None
    }
}

/// Reads the string whose body starts at `start`.
pub fn read_string(s: &[char], start: usize) -> (r: Option<(String, usize)>)
    ensures
        as_text(r) == string_at(s@, start as int),
        r matches Some((_, end)) ==> start < end <= s.len(),
{
    let mut text = String::new();
    let mut i = start;
    loop
        invariant
            start <= i,
            string_at(s@, start as int) == with_prefix(text@, string_at(s@, i as int)),
        decreases s.len() - i,
    {
        if i >= s.len() {
            return None;
        }
        let c = s[i];
        if c == '"' {
            assert(text@ + Seq::<char>::empty() == text@);
            return Some((text, i + 1));
        } else if c == '\\' {
            match read_escape(s, i + 1) {
                None => { return None; },
                Some((e, next)) => {
                    assert forall|rest: Seq<char>| text@ + (seq![e] + rest) == text@.push(e) + rest by {
                        assert(text@ + (seq![e] + rest) =~= text@.push(e) + rest);
                    }
                    push_char(&mut text, e);
                    i = next;
                },
            }
        } else if control(c) {
            return None;
        } else {
            assert forall|rest: Seq<char>| text@ + (seq![c] + rest) == text@.push(c) + rest by {
                assert(text@ + (seq![c] + rest) =~= text@.push(c) + rest);
            }
            push_char(&mut text, c);
            i += 1;
        }
    }
}

/// Finds where the string whose body starts at `start` ends, without keeping
/// its text.
pub fn find_string_end(s: &[char], start: usize) -> (r: Option<usize>)
    ensures
        as_end(r) == string_end(s@, start as int),
        r matches Some(end) ==> start < end <= s.len(),
{
    let mut i = start;
    loop
        invariant
            start <= i,
            string_end(s@, start as int) == string_end(s@, i as int),
        decreases s.len() - i,
    {
        if i >= s.len() {
            return None;
        }
        let c = s[i];
        if c == '"' {
            return Some(i + 1);
        } else if c == '\\' {
            match read_escape(s, i + 1) {
                None => { return None; },
                Some((_, next)) => {
                    i = next;
                },
            }
        } else if control(c) {
            return None;
        } else {
            i += 1;
        }
    }
}

pub fn find_fraction_end(s: &[char], i: usize) -> (r: Option<usize>)
    ensures
        as_end(r) == fraction_end(s@, i as int),
        r matches Some(end) ==> i <= end && (i <= s.len() ==> end <= s.len()),
{
    if i < s.len() && s[i] == '.' {
        if i + 1 < s.len() && digit(s[i + 1]) {
            Some(find_digits_end(s, i + 1))
        } else {
            None
        }
    } else {
        Some(i)
    }
}

pub fn find_exponent_end(s: &[char], i: usize) -> (r: Option<usize>)
    ensures
        as_end(r) == exponent_end(s@, i as int),
        r matches Some(end) ==> i <= end && (i <= s.len() ==> end <= s.len()),
{
    if i < s.len() && (s[i] == 'e' || s[i] == 'E') {
        let digits = if i + 1 < s.len() && (s[i + 1] == '+' || s[i + 1] == '-') {
            i + 2
        } else {
            i + 1
        };
        if digits < s.len() && digit(s[digits]) {
            Some(find_digits_end(s, digits))
        } else {
            None
        }
    } else {
        Some(i)
    }
}

pub fn find_number_end(s: &[char], i: usize) -> (r: Option<usize>)
    ensures
        as_end(r) == number_end(s@, i as int),
        r matches Some(end) ==> i < end <= s.len(),
{
    if i >= s.len() {
        return None;
    }
    let int_part = if s[i] == '-' {
        i + 1
    } else {
        i
    };
    if !(int_part < s.len() && digit(s[int_part])) {
        return None;
    }
    let after_int = if s[int_part] == '0' {
        int_part + 1
    } else {
        find_digits_end(s, int_part)
    };
    proof {
        lemma_digits_end_bounds(s@, int_part as int);
    }
    match find_fraction_end(s, after_int) {
        None => None,
        Some(after_fraction) => find_exponent_end(s, after_fraction),
    }
}

/// Whether the four characters `a b c d` stand at `i`.
fn four_at(s: &[char], i: usize, a: char, b: char, c: char, d: char) -> (r: bool)
    ensures
        r == occurs_at(s@, i as int, seq![a, b, c, d]),
{
    if i <= s.len() && s.len() - i >= 4 {
        let r = s[i] == a && s[i + 1] == b && s[i + 2] == c && s[i + 3] == d;
        proof {
            let sub = s@.subrange(i as int, i + 4);
            let lit = seq![a, b, c, d];
            if r {
                assert(sub =~= lit);
            } else {
                assert(sub[0] == s@[i as int] && lit[0] == a);
                assert(sub[1] == s@[i + 1] && lit[1] == b);
                assert(sub[2] == s@[i + 2] && lit[2] == c);
                assert(sub[3] == s@[i + 3] && lit[3] == d);
            }
        }
        r
    } else {
        false
    }
}

/// Finds where the value that starts at `i` ends.
pub fn find_value_end(s: &[char], i: usize, depth: usize) -> (r: Option<usize>)
    ensures
        as_end(r) == value_end(s@, i as int, depth as nat),
        r matches Some(end) ==> i < end <= s.len(),
    decreases depth, s.len() - i, 0nat,
{
    if i >= s.len() {
        return None;
    }
    let c = s[i];
    if c == '"' {
        find_string_end(s, i + 1)
    } else if c == '[' {
        let first = skip_whitespace(s, i + 1);
        if depth == 0 {
            None
        } else if first < s.len() && s[first] == ']' {
            Some(first + 1)
        } else {
            find_elements_end(s, first, depth - 1)
        }
    } else if c == '{' {
        let first = skip_whitespace(s, i + 1);
        if depth == 0 {
            None
        } else if first < s.len() && s[first] == '}' {
            Some(first + 1)
        } else {
            find_members_end(s, first, depth - 1)
        }
    } else if c == 't' {
        if four_at(s, i, 't', 'r', 'u', 'e') {
            Some(i + 4)
        } else {
            None
        }
    } else if c == 'f' {
        if s.len() - i >= 5 && four_at(s, i + 1, 'a', 'l', 's', 'e') {
            proof {
                assert(s@.subrange(i as int, i + 5) =~= seq!['f'] + s@.subrange(i + 1, i + 5));
                assert(lit_false() =~= seq!['f'] + seq!['a', 'l', 's', 'e']);
            }
            Some(i + 5)
        } else {
            proof {
                if occurs_at(s@, i as int, lit_false()) {
                    assert(s@.subrange(i + 1, i + 5) =~= s@.subrange(i as int, i + 5).subrange(
                        1,
                        5,
                    ));
                    assert(lit_false().subrange(1, 5) =~= seq!['a', 'l', 's', 'e']);
                }
            }
            None
        }
    } else if c == 'n' {
        if four_at(s, i, 'n', 'u', 'l', 'l') {
            Some(i + 4)
        } else {
            None
        }
    } else {
        find_number_end(s, i)
    }
}

/// Finds where the array ends whose next element starts at `start`.
pub fn find_elements_end(s: &[char], start: usize, depth: usize) -> (r: Option<usize>)
    ensures
        as_end(r) == elements_end(s@, start as int, depth as nat),
        r matches Some(end) ==> start < end <= s.len(),
    decreases depth, s.len() - start, 1nat,
{
    if start >= s.len() {
        return None;
    }
    let end = match find_value_end(s, start, depth) {
        None => { return None; },
        Some(end) => end,
    };
    let next = skip_whitespace(s, end);
    if next >= s.len() {
        None
    } else if s[next] == ']' {
        Some(next + 1)
    } else if s[next] == ',' {
        let following = skip_whitespace(s, next + 1);
        find_elements_end(s, following, depth)
    } else {
        None
    }
}

/// Finds where the object ends whose next member starts at `start`.
pub fn find_members_end(s: &[char], start: usize, depth: usize) -> (r: Option<usize>)
    ensures
        as_end(r) == members_end(s@, start as int, depth as nat),
        r matches Some(end) ==> start < end <= s.len(),
    decreases depth, s.len() - start, 1nat,
{
    if start >= s.len() || s[start] != '"' {
        return None;
    }
    let key_end = match find_string_end(s, start + 1) {
        None => { return None; },
        Some(end) => end,
    };
    let colon = skip_whitespace(s, key_end);
    if colon >= s.len() || s[colon] != ':' {
        return None;
    }
    let value = skip_whitespace(s, colon + 1);
    let end = match find_value_end(s, value, depth) {
        None => { return None; },
        Some(end) => end,
    };
    let next = skip_whitespace(s, end);
    if next >= s.len() {
        None
    } else if s[next] == '}' {
        Some(next + 1)
    } else if s[next] == ',' {
        let following = skip_whitespace(s, next + 1);
        find_members_end(s, following, depth)
    } else {
        None
    }
}

} // verus!
