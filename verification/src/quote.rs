//! Writing strings into wire text, and the proof that what is written reads
//! back.
//!
//! A string is written between double quotes. The quote, the backslash and
//! the control characters are escaped, the common control characters by
//! their short escapes and the others as `\u00` and two lower-case
//! hexadecimal digits; every other character is written as it is.

use vstd::prelude::*;
use crate::document::{string_array_at, strings_at, texts};
use crate::grammar::{
    escape_at, hex4_at, hex_value, is_at, is_control, skip_ws, string_at, unicode_escape_at,
    with_prefix,
};
use crate::text::push_char;

verus! {

/// The lower-case hexadecimal digit for a number below sixteen.
pub open spec fn hex_digit(n: int) -> char {
    if n < 10 {
        ('0' as int + n) as char
    } else {
        ('a' as int + (n - 10)) as char
    }
}

/// How one character is written inside a string.
pub open spec fn escape_of(c: char) -> Seq<char> {
    if c == '"' {
        seq!['\\', '"']
    } else if c == '\\' {
        seq!['\\', '\\']
    } else if c == '\u{8}' {
        seq!['\\', 'b']
    } else if c == '\u{c}' {
        seq!['\\', 'f']
    } else if c == '\n' {
        seq!['\\', 'n']
    } else if c == '\r' {
        seq!['\\', 'r']
    } else if c == '\t' {
        seq!['\\', 't']
    } else if is_control(c) {
        seq!['\\', 'u', '0', '0', hex_digit(c as int / 16), hex_digit(c as int % 16)]
    } else {
        seq![c]
    }
}

/// How the characters of a string are written, without the quotes.
pub open spec fn escaped(s: Seq<char>) -> Seq<char>
    decreases s.len(),
{
    if s.len() == 0 {
        Seq::empty()
    } else {
        escaped(s.drop_last()) + escape_of(s.last())
    }
}

/// How a string is written.
pub open spec fn quoted(s: Seq<char>) -> Seq<char> {
    seq!['"'] + escaped(s) + seq!['"']
}

/// How the strings of an array are written, from the first string to the
/// closing bracket: the strings with commas between them.
pub open spec fn listed(items: Seq<Seq<char>>) -> Seq<char>
    decreases items.len(),
{
    if items.len() == 0 {
        Seq::empty()
    } else if items.len() == 1 {
        quoted(items[0])
    } else {
        listed(items.drop_last()) + seq![','] + quoted(items.last())
    }
}

/// How an array of strings is written.
pub open spec fn bracketed(items: Seq<Seq<char>>) -> Seq<char> {
    seq!['['] + listed(items) + seq![']']
}

fn hex_digit_of(n: u8) -> (c: char)
    requires
        n < 16,
    ensures
        c == hex_digit(n as int),
{
    if n < 10 {
        ('0' as u8 + n) as char
    } else {
        ('a' as u8 + (n - 10)) as char
    }
}

/// Appends to `out` the way `c` is written inside a string.
pub fn push_escaped(out: &mut String, c: char)
    ensures
        final(out)@ == old(out)@ + escape_of(c),
{
    let ghost before = out@;
    if c == '"' {
        push_char(out, '\\');
        push_char(out, '"');
    } else if c == '\\' {
        push_char(out, '\\');
        push_char(out, '\\');
    } else if c == '\u{8}' {
        push_char(out, '\\');
        push_char(out, 'b');
    } else if c == '\u{c}' {
        push_char(out, '\\');
        push_char(out, 'f');
    } else if c == '\n' {
        push_char(out, '\\');
        push_char(out, 'n');
    } else if c == '\r' {
        push_char(out, '\\');
        push_char(out, 'r');
    } else if c == '\t' {
        push_char(out, '\\');
        push_char(out, 't');
    } else if ' ' > c {
        let code = c as u8;
        push_char(out, '\\');
        push_char(out, 'u');
        push_char(out, '0');
        push_char(out, '0');
        push_char(out, hex_digit_of(code / 16));
        push_char(out, hex_digit_of(code % 16));
    } else {
        push_char(out, c);
    }
    assert(out@ =~= before + escape_of(c));
}

/// Appends to `out` the string `text` as it is written on the wire.
pub fn push_quoted(out: &mut String, text: &str)
    ensures
        final(out)@ == old(out)@ + quoted(text@),
{
    let ghost before = out@;
    push_char(out, '"');
    assert(escaped(text@.take(0)) =~= Seq::<char>::empty());
    for c in it: text.chars()
        invariant
            it.seq() == text@,
            out@ == before.push('"') + escaped(text@.take(it.index() as int)),
    {
        proof {
            let k = it.index() as int;
            assert(text@.take(k + 1).drop_last() =~= text@.take(k));
            assert(before.push('"') + (escaped(text@.take(k)) + escape_of(c)) =~= before.push('"')
                + escaped(text@.take(k)) + escape_of(c));
        }
        push_escaped(out, c);
    }
    push_char(out, '"');
    proof {
        assert(text@.take(text@.len() as int) =~= text@);
        assert(out@ =~= before + quoted(text@));
    }
}

/// Appends to `out` the array of the strings `items` as it is written on
/// the wire.
pub fn push_bracketed(out: &mut String, items: &Vec<String>)
    ensures
        final(out)@ == old(out)@ + bracketed(texts(items@)),
{
    let ghost before = out@;
    let ghost all = texts(items@);
    push_char(out, '[');
    let mut i: usize = 0;
    assert(listed(all.take(0)) =~= Seq::<char>::empty());
    while i < items.len()
        invariant
            i <= items.len(),
            all == texts(items@),
            out@ == before.push('[') + listed(all.take(i as int)),
        decreases items.len() - i,
    {
        proof {
            let k = i as int;
            assert(all.take(k + 1).drop_last() =~= all.take(k));
            assert(all.take(k + 1).last() == items@[k]@);
            if k == 0 {
                assert(all.take(1)[0] == items@[0]@);
            }
        }
        if i > 0 {
            push_char(out, ',');
        }
        push_quoted(out, items[i].as_str());
        proof {
            let k = i as int;
            assert(out@ =~= before.push('[') + listed(all.take(k + 1)));
        }
        i += 1;
    }
    push_char(out, ']');
    proof {
        assert(all.take(items.len() as int) =~= all);
        assert(out@ =~= before + bracketed(all));
    }
}

/// What is written for the first character of a string comes first.
pub proof fn lemma_escaped_front(c: char, rest: Seq<char>)
    ensures
        escaped(seq![c] + rest) == escape_of(c) + escaped(rest),
    decreases rest.len(),
{
    let whole = seq![c] + rest;
    if rest.len() == 0 {
        assert(whole.drop_last() =~= Seq::<char>::empty());
        assert(escaped(whole.drop_last()) =~= Seq::<char>::empty());
        assert(escaped(whole) =~= escape_of(c) + escaped(rest));
    } else {
        lemma_escaped_front(c, rest.drop_last());
        assert(whole.drop_last() =~= seq![c] + rest.drop_last());
        assert(whole.last() == rest.last());
        assert(escaped(whole) =~= escape_of(c) + escaped(rest));
    }
}

/// A hexadecimal digit that was written reads back as its number.
pub proof fn lemma_hex_digit_value(n: int)
    requires
        0 <= n < 16,
    ensures
        hex_value(hex_digit(n)) == Some(n),
{
}

/// One written character reads back as itself: where the text at `i` is what
/// is written for `c`, and the string goes on behind it, the string read at
/// `i` is `c` and then what is read behind it.
pub proof fn lemma_escape_reads_back(s: Seq<char>, i: int, c: char)
    requires
        0 <= i,
        i + escape_of(c).len() < s.len(),
        s.subrange(i, i + escape_of(c).len()) == escape_of(c),
    ensures
        string_at(s, i) == with_prefix(seq![c], string_at(s, i + escape_of(c).len())),
{
    let e = escape_of(c);
    let sub = s.subrange(i, i + e.len());
    assert(sub[0] == s[i]);
    if e.len() >= 2 {
        assert(sub[1] == s[i + 1]);
    }
    if c == '"' || c == '\\' || c == '\u{8}' || c == '\u{c}' || c == '\n' || c == '\r' || c
        == '\t' {
        assert(escape_at(s, i + 1) == Some((c, i + 2)));
    } else if is_control(c) {
        assert(sub[2] == s[i + 2]);
        assert(sub[3] == s[i + 3]);
        assert(sub[4] == s[i + 4]);
        assert(sub[5] == s[i + 5]);
        let n = c as int;
        lemma_hex_digit_value(n / 16);
        lemma_hex_digit_value(n % 16);
        assert(hex_value('0') == Some(0int));
        assert(hex4_at(s, i + 2) == Some(n));
        assert(unicode_escape_at(s, i + 2) == Some((c, i + 6)));
        assert(escape_at(s, i + 1) == Some((c, i + 6)));
    } else {
    }
}

/// A written string reads back: where the text from `i` is what is written
/// for `t`, followed by a quote, the string read at `i` is `t`.
pub proof fn lemma_string_reads_back(s: Seq<char>, i: int, t: Seq<char>)
    requires
        0 <= i,
        i + escaped(t).len() < s.len(),
        s.subrange(i, i + escaped(t).len()) == escaped(t),
        s[i + escaped(t).len()] == '"',
    ensures
        string_at(s, i) == Some((t, i + escaped(t).len() + 1)),
    decreases t.len(),
{
    if t.len() == 0 {
        assert(escaped(t) =~= Seq::<char>::empty());
    } else {
        let c = t[0];
        let rest = t.drop_first();
        assert(t =~= seq![c] + rest);
        lemma_escaped_front(c, rest);
        let e = escape_of(c);
        let n = escaped(t).len() as int;
        let m = e.len() as int;
        assert(n == m + escaped(rest).len());
        assert(s.subrange(i, i + m) =~= s.subrange(i, i + n).subrange(0, m));
        assert(escaped(t).subrange(0, m) =~= e);
        assert(s.subrange(i + m, i + n) =~= s.subrange(i, i + n).subrange(m, n));
        assert(escaped(t).subrange(m, n) =~= escaped(rest));
        lemma_escape_reads_back(s, i, c);
        lemma_string_reads_back(s, i + m, rest);
        assert(seq![c] + rest =~= t);
    }
}

/// A quoted string reads back: where `quoted(t)` stands at `i`, the string
/// whose body starts behind the opening quote is `t` and ends where the
/// quoted text ends.
pub proof fn lemma_quoted_reads_back(s: Seq<char>, i: int, t: Seq<char>)
    requires
        0 <= i,
        i + quoted(t).len() <= s.len(),
        s.subrange(i, i + quoted(t).len()) == quoted(t),
    ensures
        is_at(s, i, '"'),
        string_at(s, i + 1) == Some((t, i + quoted(t).len())),
{
    let q = quoted(t);
    let n = escaped(t).len() as int;
    let sub = s.subrange(i, i + q.len());
    assert(q.len() == n + 2);
    assert(sub[0] == s[i]);
    assert(q[0] == '"');
    assert(sub[n + 1] == s[i + n + 1]);
    assert(q[n + 1] == '"');
    assert(s.subrange(i + 1, i + 1 + n) =~= sub.subrange(1, n + 1));
    assert(q.subrange(1, n + 1) =~= escaped(t));
    lemma_string_reads_back(s, i + 1, t);
}

/// What is written for the first string of a list comes first.
pub proof fn lemma_listed_front(first: Seq<char>, rest: Seq<Seq<char>>)
    ensures
        listed(seq![first] + rest) == if rest.len() == 0 {
            quoted(first)
        } else {
            quoted(first) + seq![','] + listed(rest)
        },
    decreases rest.len(),
{
    let whole = seq![first] + rest;
    if rest.len() == 0 {
        assert(whole.len() == 1 && whole[0] == first);
    } else if rest.len() == 1 {
        let one = seq![first];
        assert(whole.drop_last() =~= one);
        assert(one.len() == 1 && one[0] == first);
        assert(listed(one) == quoted(first));
        assert(whole.last() == rest[0]);
        assert(listed(rest) == quoted(rest[0]));
        assert(whole.len() == 2);
        assert(listed(whole) == listed(one) + seq![','] + quoted(rest[0]));
    } else {
        lemma_listed_front(first, rest.drop_last());
        assert(whole.drop_last() =~= seq![first] + rest.drop_last());
        assert(whole.last() == rest.last());
        assert(whole.len() >= 3);
        assert(listed(whole) == listed(whole.drop_last()) + seq![','] + quoted(rest.last()));
        assert(listed(rest) == listed(rest.drop_last()) + seq![','] + quoted(rest.last()));
        assert(listed(whole) =~= quoted(first) + seq![','] + listed(rest));
    }
}

/// A written list of strings reads back: where the text from `i` is what is
/// written for `items`, followed by a closing bracket, the strings read at
/// `i` are `items`.
pub proof fn lemma_listed_reads_back(s: Seq<char>, i: int, items: Seq<Seq<char>>)
    requires
        0 <= i,
        items.len() > 0,
        i + listed(items).len() < s.len(),
        s.subrange(i, i + listed(items).len()) == listed(items),
        s[i + listed(items).len()] == ']',
    ensures
        strings_at(s, i) == Some((items, i + listed(items).len() + 1)),
    decreases items.len(),
{
    let first = items[0];
    let rest = items.drop_first();
    assert(items =~= seq![first] + rest);
    lemma_listed_front(first, rest);
    let q = quoted(first);
    let n = listed(items).len() as int;
    let m = q.len() as int;
    assert(s.subrange(i, i + m) =~= s.subrange(i, i + n).subrange(0, m));
    assert(listed(items).subrange(0, m) =~= q);
    lemma_quoted_reads_back(s, i, first);
    let end = i + m;
    if rest.len() == 0 {
        assert(skip_ws(s, end) == end);
        assert(seq![first] =~= items);
    } else {
        let l = listed(rest);
        assert(n == m + 1 + l.len());
        assert(s.subrange(i, i + n)[m] == s[end]);
        assert(listed(items)[m] == ',');
        assert(skip_ws(s, end) == end);
        assert(s.subrange(end + 1, i + n) =~= s.subrange(i, i + n).subrange(m + 1, n));
        assert(listed(items).subrange(m + 1, n) =~= l);
        lemma_listed_front(rest[0], rest.drop_first());
        assert(rest =~= seq![rest[0]] + rest.drop_first());
        assert(l[0] == '"');
        assert(s.subrange(end + 1, i + n)[0] == s[end + 1]);
        assert(skip_ws(s, end + 1) == end + 1);
        lemma_listed_reads_back(s, end + 1, rest);
        assert(seq![first] + rest =~= items);
    }
}

/// A written array of strings reads back: where `bracketed(items)` stands
/// at `i`, the array of strings read at `i` is `items` and ends where the
/// written text ends.
pub proof fn lemma_bracketed_reads_back(s: Seq<char>, i: int, items: Seq<Seq<char>>)
    requires
        0 <= i,
        i + bracketed(items).len() <= s.len(),
        s.subrange(i, i + bracketed(items).len()) == bracketed(items),
    ensures
        string_array_at(s, i) == Some((items, i + bracketed(items).len())),
{
    let b = bracketed(items);
    let n = listed(items).len() as int;
    let sub = s.subrange(i, i + b.len());
    assert(b.len() == n + 2);
    assert(sub[0] == s[i]);
    assert(b[0] == '[');
    assert(sub[n + 1] == s[i + n + 1]);
    assert(b[n + 1] == ']');
    if items.len() == 0 {
        assert(skip_ws(s, i + 1) == i + 1);
        assert(items =~= Seq::<Seq<char>>::empty());
    } else {
        assert(s.subrange(i + 1, i + 1 + n) =~= sub.subrange(1, n + 1));
        assert(b.subrange(1, n + 1) =~= listed(items));
        lemma_listed_front(items[0], items.drop_first());
        assert(items =~= seq![items[0]] + items.drop_first());
        assert(listed(items)[0] == '"');
        assert(sub[1] == s[i + 1]);
        assert(b[1] == listed(items)[0]);
        assert(skip_ws(s, i + 1) == i + 1);
        lemma_listed_reads_back(s, i + 1, items);
    }
}

} // verus!
