//! How a list of members is written as a document, and the proof that the
//! written document reads back as the same list.
//!
//! The written form is the compact one: no whitespace, members in the order
//! of the list, separated by commas.

use vstd::prelude::*;
use crate::document::{
    document, field_at, lemma_string_array_is_value, members_at, texts, FieldModel, MemberModel,
};
use crate::grammar::{is_at, lit_null, skip_ws, string_at, MAX_DEPTH};
use crate::quote::{
    bracketed, lemma_bracketed_reads_back, lemma_quoted_reads_back, push_bracketed, push_quoted,
    quoted,
};
use crate::text::{occurs_at, push_char};

verus! {

/// Whether a value has a written form: everything but the values that the
/// scanner did not look into.
pub open spec fn writable(field: FieldModel) -> bool {
    !(field is Other)
}

/// How a value is written.
pub open spec fn written_field(field: FieldModel) -> Seq<char> {
    match field {
        FieldModel::Str(text) => quoted(text),
        FieldModel::StrArray(items) => bracketed(items),
        _ => lit_null(),
    }
}

/// How a member is written: the key, a colon, the value.
pub open spec fn written_member(member: MemberModel) -> Seq<char> {
    quoted(member.key) + seq![':'] + written_field(member.value)
}

/// How the members of an object are written, without the braces.
pub open spec fn written_members(members: Seq<MemberModel>) -> Seq<char>
    decreases members.len(),
{
    if members.len() == 0 {
        Seq::empty()
    } else if members.len() == 1 {
        written_member(members[0])
    } else {
        written_member(members[0]) + seq![','] + written_members(members.drop_first())
    }
}

/// How a document with the given members is written.
pub open spec fn written_document(members: Seq<MemberModel>) -> Seq<char> {
    seq!['{'] + written_members(members) + seq!['}']
}

/// The value of a member that holds a string or nothing.
pub open spec fn string_field(text: Option<Seq<char>>) -> FieldModel {
    match text {
        None => FieldModel::Null,
        Some(text) => FieldModel::Str(text),
    }
}

/// The value of a member that holds an array of strings or nothing.
pub open spec fn strings_field(items: Option<Seq<Seq<char>>>) -> FieldModel {
    match items {
        None => FieldModel::Null,
        Some(items) => FieldModel::StrArray(items),
    }
}

/// An optional string, as the contracts speak of it.
pub open spec fn text_of(value: Option<String>) -> Option<Seq<char>> {
    match value {
        None => None,
        Some(text) => Some(text@),
    }
}

/// An optional list of strings, as the contracts speak of it.
pub open spec fn texts_of(value: Option<Vec<String>>) -> Option<Seq<Seq<char>>> {
    match value {
        None => None,
        Some(items) => Some(texts(items@)),
    }
}

/// Appends `null` to `out`.
pub fn push_null(out: &mut String)
    ensures
        final(out)@ == old(out)@ + lit_null(),
{
    let ghost before = out@;
    push_char(out, 'n');
    push_char(out, 'u');
    push_char(out, 'l');
    push_char(out, 'l');
    assert(out@ =~= before + lit_null());
}

/// Appends to `out` a member that holds a string or nothing.
pub fn push_string_member(out: &mut String, key: &str, value: &Option<String>)
    ensures
        final(out)@ == old(out)@ + written_member(
            MemberModel { key: key@, value: string_field(text_of(*value)) },
        ),
{
    let ghost before = out@;
    push_quoted(out, key);
    push_char(out, ':');
    match value {
        None => push_null(out),
        Some(text) => push_quoted(out, text.as_str()),
    }
    assert(out@ =~= before + written_member(
        MemberModel { key: key@, value: string_field(text_of(*value)) },
    ));
}

/// Appends to `out` a member that holds an array of strings or nothing.
pub fn push_strings_member(out: &mut String, key: &str, value: &Option<Vec<String>>)
    ensures
        final(out)@ == old(out)@ + written_member(
            MemberModel { key: key@, value: strings_field(texts_of(*value)) },
        ),
{
    let ghost before = out@;
    push_quoted(out, key);
    push_char(out, ':');
    match value {
        None => push_null(out),
        Some(items) => push_bracketed(out, items),
    }
    assert(out@ =~= before + written_member(
        MemberModel { key: key@, value: strings_field(texts_of(*value)) },
    ));
}

/// The written form of a document with three members, spelled out.
pub proof fn lemma_written_three(a: MemberModel, b: MemberModel, c: MemberModel)
    ensures
        written_document(seq![a, b, c]) == Seq::<char>::empty().push('{') + written_member(a)
            + seq![','] + written_member(b) + seq![','] + written_member(c) + seq!['}'],
        written_document(seq![a, b, c]) == (Seq::<char>::empty().push('{') + written_member(
            a,
        )).push(',') + written_member(b) + seq![','] + written_member(c) + seq!['}'],
        written_document(seq![a, b, c]) == (((Seq::<char>::empty().push('{') + written_member(
            a,
        )).push(',') + written_member(b)).push(',') + written_member(c)).push('}'),
{
    let all = seq![a, b, c];
    let tail = all.drop_first();
    assert(tail =~= seq![b, c]);
    assert(tail.drop_first() =~= seq![c]);
    assert(written_members(tail.drop_first()) == written_member(c));
    assert(written_members(tail) == written_member(b) + seq![','] + written_member(c));
    assert(written_members(all) == written_member(a) + seq![','] + written_members(tail));
    let spelled = Seq::<char>::empty().push('{') + written_member(a) + seq![','] + written_member(
        b,
    ) + seq![','] + written_member(c) + seq!['}'];
    assert(written_document(all) =~= spelled);
    assert((Seq::<char>::empty().push('{') + written_member(a)).push(',') + written_member(b)
        + seq![','] + written_member(c) + seq!['}'] =~= spelled);
    assert((((Seq::<char>::empty().push('{') + written_member(a)).push(',') + written_member(
        b,
    )).push(',') + written_member(c)).push('}') =~= spelled);
}

/// A written value starts with a character that opens a value.
pub proof fn lemma_written_field_starts(field: FieldModel)
    ensures
        written_field(field).len() > 0,
        written_field(field)[0] == '"' || written_field(field)[0] == '[' || written_field(
            field,
        )[0] == 'n',
{
}

/// A written value reads back: where `written_field(field)` stands at `i`,
/// the value read at `i` is `field` and ends where the written text ends.
pub proof fn lemma_field_reads_back(s: Seq<char>, i: int, field: FieldModel, depth: nat)
    requires
        0 <= i,
        depth > 0,
        writable(field),
        i + written_field(field).len() <= s.len(),
        s.subrange(i, i + written_field(field).len()) == written_field(field),
    ensures
        field_at(s, i, depth) == Some((field, i + written_field(field).len())),
{
    let w = written_field(field);
    let sub = s.subrange(i, i + w.len());
    assert(sub[0] == s[i]);
    match field {
        FieldModel::Str(text) => {
            lemma_quoted_reads_back(s, i, text);
        },
        FieldModel::StrArray(items) => {
            lemma_bracketed_reads_back(s, i, items);
            lemma_string_array_is_value(s, i, depth);
        },
        _ => {
            assert(occurs_at(s, i, lit_null()));
        },
    }
}

/// A written member reads back: where `written_member(member)` stands at
/// `i`, the key read at `i` is the member's key, a colon follows it, and the
/// value read behind the colon is the member's value.
pub proof fn lemma_member_reads_back(s: Seq<char>, i: int, member: MemberModel, depth: nat)
    requires
        0 <= i,
        depth > 0,
        writable(member.value),
        i + written_member(member).len() <= s.len(),
        s.subrange(i, i + written_member(member).len()) == written_member(member),
    ensures
        is_at(s, i, '"'),
        string_at(s, i + 1) == Some((member.key, i + quoted(member.key).len())),
        is_at(s, i + quoted(member.key).len(), ':'),
        skip_ws(s, i + quoted(member.key).len()) == i + quoted(member.key).len(),
        skip_ws(s, i + quoted(member.key).len() + 1) == i + quoted(member.key).len() + 1,
        field_at(s, i + quoted(member.key).len() + 1, depth) == Some(
            (member.value, i + written_member(member).len()),
        ),
{
    let w = written_member(member);
    let q = quoted(member.key);
    let f = written_field(member.value);
    let n = w.len() as int;
    let m = q.len() as int;
    let sub = s.subrange(i, i + n);
    assert(n == m + 1 + f.len());
    assert(s.subrange(i, i + m) =~= sub.subrange(0, m));
    assert(w.subrange(0, m) =~= q);
    lemma_quoted_reads_back(s, i, member.key);
    assert(sub[m] == s[i + m]);
    assert(w[m] == ':');
    assert(s.subrange(i + m + 1, i + n) =~= sub.subrange(m + 1, n));
    assert(w.subrange(m + 1, n) =~= f);
    lemma_written_field_starts(member.value);
    assert(sub[m + 1] == s[i + m + 1]);
    assert(w[m + 1] == f[0]);
    lemma_field_reads_back(s, i + m + 1, member.value, depth);
}

/// Written members read back: where the text from `i` is what is written
/// for `members`, followed by a closing brace, the members read at `i` are
/// `members`.
pub proof fn lemma_members_read_back(s: Seq<char>, i: int, members: Seq<MemberModel>, depth: nat)
    requires
        0 <= i,
        depth > 0,
        members.len() > 0,
        forall|k: int| 0 <= k < members.len() ==> writable(#[trigger] members[k].value),
        i + written_members(members).len() < s.len(),
        s.subrange(i, i + written_members(members).len()) == written_members(members),
        s[i + written_members(members).len()] == '}',
    ensures
        members_at(s, i, depth) == Some((members, i + written_members(members).len() + 1)),
    decreases members.len(),
{
    let first = members[0];
    let rest = members.drop_first();
    let w = written_members(members);
    let f = written_member(first);
    let n = w.len() as int;
    let m = f.len() as int;
    let sub = s.subrange(i, i + n);
    assert(writable(first.value));
    if rest.len() == 0 {
        assert(w == f);
        lemma_member_reads_back(s, i, first, depth);
        assert(skip_ws(s, i + n) == i + n);
        assert(seq![first] =~= members);
    } else {
        let r = written_members(rest);
        assert(w == f + seq![','] + r);
        assert(n == m + 1 + r.len());
        assert(s.subrange(i, i + m) =~= sub.subrange(0, m));
        assert(w.subrange(0, m) =~= f);
        lemma_member_reads_back(s, i, first, depth);
        assert(sub[m] == s[i + m]);
        assert(w[m] == ',');
        assert(skip_ws(s, i + m) == i + m);
        assert(s.subrange(i + m + 1, i + n) =~= sub.subrange(m + 1, n));
        assert(w.subrange(m + 1, n) =~= r);
        assert forall|k: int| 0 <= k < rest.len() implies writable(#[trigger] rest[k].value) by {
            assert(rest[k] == members[k + 1]);
        }
        assert(r[0] == '"') by {
            let second = written_member(rest[0]);
            assert(second[0] == '"');
            if rest.len() == 1 {
                assert(r == second);
            } else {
                assert(r == second + seq![','] + written_members(rest.drop_first()));
            }
        }
        assert(sub[m + 1] == s[i + m + 1]);
        assert(w[m + 1] == r[0]);
        assert(skip_ws(s, i + m + 1) == i + m + 1);
        lemma_members_read_back(s, i + m + 1, rest, depth);
        assert(seq![first] + rest =~= members);
    }
}

/// A written document reads back as the members it was written from.
pub proof fn lemma_document_reads_back(members: Seq<MemberModel>)
    requires
        forall|k: int| 0 <= k < members.len() ==> writable(#[trigger] members[k].value),
    ensures
        document(written_document(members)) == Some(members),
{
    let s = written_document(members);
    let w = written_members(members);
    let n = w.len() as int;
    assert(s.len() == n + 2);
    assert(s[0] == '{');
    assert(skip_ws(s, 0) == 0);
    assert(s[n + 1] == '}');
    if members.len() == 0 {
        assert(skip_ws(s, 1) == 1);
        assert(skip_ws(s, 2) == 2);
        assert(members =~= Seq::<MemberModel>::empty());
    } else {
        assert(s.subrange(1, 1 + n) =~= w);
        assert(w[0] == '"') by {
            let first = written_member(members[0]);
            assert(first[0] == '"');
            if members.len() == 1 {
                assert(w == first);
            } else {
                assert(w == first + seq![','] + written_members(members.drop_first()));
            }
        }
        assert(s[1] == w[0]);
        assert(skip_ws(s, 1) == 1);
        lemma_members_read_back(s, 1, members, (MAX_DEPTH - 1) as nat);
        assert(skip_ws(s, n + 2) == n + 2);
    }
}

} // verus!
