//! A frame as a list of members: the object at the top of a JSON document,
//! with each member's value told apart only as far as the wire formats of
//! this crate need it.
//!
//! A value is `null`, a string, an array of strings, or something else. The
//! text of the document is checked in full either way: a member whose value
//! is "something else" is still a well-formed value.

use vstd::prelude::*;
use crate::grammar::{
    elements_end, is_at, lemma_skip_ws_bounds, lemma_string_at_bounds, lemma_value_end_bounds,
    skip_ws, string_at, value_end, with_prefix, MAX_DEPTH,
};
use crate::scan::{find_value_end, read_string, skip_whitespace};
use crate::text::chars_of;

verus! {

/// What a member's value is, as far as this crate looks.
pub enum FieldModel {
    Null,
    Str(Seq<char>),
    StrArray(Seq<Seq<char>>),
    Other,
}

/// One member of the document's object.
pub struct MemberModel {
    pub key: Seq<char>,
    pub value: FieldModel,
}

/// The strings of an array from the one whose opening quote is at `i`,
/// separated by commas, up to the closing bracket. `None` where the array
/// holds anything but strings.
pub open spec fn strings_at(s: Seq<char>, i: int) -> Option<(Seq<Seq<char>>, int)>
    decreases s.len() - i,
{
    if !is_at(s, i, '"') {
        None
    } else {
        match string_at(s, i + 1) {
            None => None,
            Some((item, end)) => {
                let next = skip_ws(s, end);
                if is_at(s, next, ']') {
                    Some((seq![item], next + 1))
                } else if is_at(s, next, ',') {
                    proof {
                        lemma_string_at_bounds(s, i + 1);
                        lemma_skip_ws_bounds(s, end);
                        lemma_skip_ws_bounds(s, next + 1);
                    }
                    with_prefix(seq![item], strings_at(s, skip_ws(s, next + 1)))
                } else {
                    None
                }
            },
        }
    }
}

/// The array of strings whose opening bracket is at `i`.
pub open spec fn string_array_at(s: Seq<char>, i: int) -> Option<(Seq<Seq<char>>, int)> {
    let first = skip_ws(s, i + 1);
    if !is_at(s, i, '[') {
        None
    } else if is_at(s, first, ']') {
        Some((Seq::empty(), first + 1))
    } else {
        strings_at(s, first)
    }
}

/// What the value that starts at `i` is.
pub open spec fn field_kind(s: Seq<char>, i: int) -> FieldModel {
    if is_at(s, i, 'n') {
        FieldModel::Null
    } else if is_at(s, i, '"') {
        match string_at(s, i + 1) {
            Some((text, _)) => FieldModel::Str(text),
            None => FieldModel::Other,
        }
    } else {
        match string_array_at(s, i) {
            Some((items, _)) => FieldModel::StrArray(items),
            None => FieldModel::Other,
        }
    }
}

/// The value that starts at `i` and where it ends.
pub open spec fn field_at(s: Seq<char>, i: int, depth: nat) -> Option<(FieldModel, int)> {
    match value_end(s, i, depth) {
        None => None,
        Some(end) => Some((field_kind(s, i), end)),
    }
}

/// The members of the object from the one whose key starts at `i`, up to the
/// closing brace.
pub open spec fn members_at(s: Seq<char>, i: int, depth: nat) -> Option<(Seq<MemberModel>, int)>
    decreases s.len() - i,
{
    if !is_at(s, i, '"') {
        None
    } else {
        match string_at(s, i + 1) {
            None => None,
            Some((key, key_end)) => {
                let colon = skip_ws(s, key_end);
                let value = skip_ws(s, colon + 1);
                if !is_at(s, colon, ':') {
                    None
                } else {
                    match field_at(s, value, depth) {
                        None => None,
                        Some((field, end)) => {
                            let next = skip_ws(s, end);
                            let member = MemberModel { key, value: field };
                            if is_at(s, next, '}') {
                                Some((seq![member], next + 1))
                            } else if is_at(s, next, ',') {
                                proof {
                                    lemma_string_at_bounds(s, i + 1);
                                    lemma_skip_ws_bounds(s, key_end);
                                    lemma_skip_ws_bounds(s, colon + 1);
                                    lemma_value_end_bounds(s, value, depth);
                                    lemma_skip_ws_bounds(s, end);
                                    lemma_skip_ws_bounds(s, next + 1);
                                }
                                with_prefix(
                                    seq![member],
                                    members_at(s, skip_ws(s, next + 1), depth),
                                )
                            } else {
                                None
                            }
                        },
                    }
                }
            },
        }
    }
}

/// The members of the document `s`: an object, with nothing but whitespace
/// before and after it. `None` where `s` is not such a document.
pub open spec fn document(s: Seq<char>) -> Option<Seq<MemberModel>> {
    let open = skip_ws(s, 0);
    let first = skip_ws(s, open + 1);
    let body = if is_at(s, first, '}') {
        Some((Seq::<MemberModel>::empty(), first + 1))
    } else {
        members_at(s, first, (MAX_DEPTH - 1) as nat)
    };
    if !is_at(s, open, '{') {
        None
    } else {
        match body {
            None => None,
            Some((members, end)) => if skip_ws(s, end) == s.len() {
                Some(members)
            } else {
                None
            },
        }
    }
}

/// A run of strings that closes an array is a run of values that closes it.
pub proof fn lemma_strings_are_elements(s: Seq<char>, i: int, depth: nat)
    ensures
        strings_at(s, i) matches Some((_, end)) ==> elements_end(s, i, depth) == Some(end),
    decreases s.len() - i,
{
    if is_at(s, i, '"') {
        match string_at(s, i + 1) {
            None => {},
            Some((_, end)) => {
                lemma_string_at_bounds(s, i + 1);
                let next = skip_ws(s, end);
                lemma_skip_ws_bounds(s, end);
                assert(value_end(s, i, depth) == Some(end));
                if is_at(s, next, ',') && !is_at(s, next, ']') {
                    lemma_skip_ws_bounds(s, next + 1);
                    lemma_strings_are_elements(s, skip_ws(s, next + 1), depth);
                }
            },
        }
    }
}

/// An array of strings is a value, wherever an array may stand.
pub proof fn lemma_string_array_is_value(s: Seq<char>, i: int, depth: nat)
    requires
        depth > 0,
    ensures
        string_array_at(s, i) matches Some((_, end)) ==> value_end(s, i, depth) == Some(end),
{
    lemma_strings_are_elements(s, skip_ws(s, i + 1), (depth - 1) as nat);
}

/// The value of a member as the scanner hands it out.
#[derive(Debug, PartialEq, Eq)]
pub enum Field {
    Null,
    Str(String),
    StrArray(Vec<String>),
    Other,
}

/// One member of a scanned document.
#[derive(Debug, PartialEq, Eq)]
pub struct Member {
    pub key: String,
    pub value: Field,
}

/// The texts of a list of strings.
pub open spec fn texts(v: Seq<String>) -> Seq<Seq<char>> {
    Seq::new(v.len(), |i: int| v[i]@)
}

impl View for Field {
    type V = FieldModel;

    open spec fn view(&self) -> FieldModel {
        match self {
            Field::Null => FieldModel::Null,
            Field::Str(text) => FieldModel::Str(text@),
            Field::StrArray(items) => FieldModel::StrArray(texts(items@)),
            Field::Other => FieldModel::Other,
        }
    }
}

impl View for Member {
    type V = MemberModel;

    open spec fn view(&self) -> MemberModel {
        MemberModel { key: self.key@, value: self.value@ }
    }
}

/// The models of a list of members.
pub open spec fn member_models(v: Seq<Member>) -> Seq<MemberModel> {
    Seq::new(v.len(), |i: int| v[i]@)
}

pub open spec fn as_strings(r: Option<(Vec<String>, usize)>) -> Option<(Seq<Seq<char>>, int)> {
    match r {
        None => None,
        Some((items, end)) => Some((texts(items@), end as int)),
    }
}

pub open spec fn as_field(r: Option<(Field, usize)>) -> Option<(FieldModel, int)> {
    match r {
        None => None,
        Some((field, end)) => Some((field@, end as int)),
    }
}

pub open spec fn as_members(r: Option<(Vec<Member>, usize)>) -> Option<(Seq<MemberModel>, int)> {
    match r {
        None => None,
        Some((members, end)) => Some((member_models(members@), end as int)),
    }
}

pub open spec fn as_document(r: Option<Vec<Member>>) -> Option<Seq<MemberModel>> {
    match r {
        None => None,
        Some(members) => Some(member_models(members@)),
    }
}

/// Reads the strings of an array from the one whose opening quote is at
/// `start`.
pub fn read_strings(s: &[char], start: usize) -> (r: Option<(Vec<String>, usize)>)
    ensures
        as_strings(r) == strings_at(s@, start as int),
        r matches Some((_, end)) ==> start < end <= s.len(),
{
    let mut items: Vec<String> = Vec::new();
    let mut i = start;
    loop
        invariant
            start <= i,
            strings_at(s@, start as int) == with_prefix(texts(items@), strings_at(s@, i as int)),
        decreases s.len() - i,
    {
        if i >= s.len() || s[i] != '"' {
            return None;
        }
        let (item, end) = match read_string(s, i + 1) {
            None => { return None; },
            Some(found) => found,
        };
        let next = skip_whitespace(s, end);
        if next >= s.len() {
            return None;
        }
        proof {
            let before = texts(items@);
            assert(texts(items@.push(item)) =~= before.push(item@));
            assert(before + seq![item@] =~= before.push(item@));
            assert forall|rest: Seq<Seq<char>>| before + (seq![item@] + rest) == before.push(
                item@,
            ) + rest by {
                assert(before + (seq![item@] + rest) =~= before.push(item@) + rest);
            }
        }
        items.push(item);
        if s[next] == ']' {
            return Some((items, next + 1));
        } else if s[next] == ',' {
            i = skip_whitespace(s, next + 1);
        } else {
            return None;
        }
    }
}

/// Reads the array of strings whose opening bracket is at `i`.
pub fn read_string_array(s: &[char], i: usize) -> (r: Option<(Vec<String>, usize)>)
    ensures
        as_strings(r) == string_array_at(s@, i as int),
        r matches Some((_, end)) ==> i < end <= s.len(),
{
    if i >= s.len() || s[i] != '[' {
        return None;
    }
    let first = skip_whitespace(s, i + 1);
    if first < s.len() && s[first] == ']' {
        let items: Vec<String> = Vec::new();
        assert(texts(items@) =~= Seq::<Seq<char>>::empty());
        Some((items, first + 1))
    } else {
        read_strings(s, first)
    }
}

/// Reads the value that starts at `i`.
pub fn read_field(s: &[char], i: usize, depth: usize) -> (r: Option<(Field, usize)>)
    ensures
        as_field(r) == field_at(s@, i as int, depth as nat),
        r matches Some((_, end)) ==> i < end <= s.len(),
{
    if i >= s.len() {
        return None;
    }
    let c = s[i];
    if c == '"' {
        match read_string(s, i + 1) {
            None => None,
            Some((text, end)) => Some((Field::Str(text), end)),
        }
    } else if c == '[' {
        if depth == 0 {
            return None;
        }
        proof {
            lemma_string_array_is_value(s@, i as int, depth as nat);
        }
        match read_string_array(s, i) {
            Some((items, end)) => Some((Field::StrArray(items), end)),
            None => match find_value_end(s, i, depth) {
                None => None,
                Some(end) => Some((Field::Other, end)),
            },
        }
    } else {
        match find_value_end(s, i, depth) {
            None => None,
            Some(end) => if c == 'n' {
                Some((Field::Null, end))
            } else {
                Some((Field::Other, end))
            },
        }
    }
}

/// Reads the members of an object from the one whose key starts at `start`.
pub fn read_members(s: &[char], start: usize, depth: usize) -> (r: Option<(Vec<Member>, usize)>)
    ensures
        as_members(r) == members_at(s@, start as int, depth as nat),
        r matches Some((_, end)) ==> start < end <= s.len(),
{
    let mut members: Vec<Member> = Vec::new();
    let mut i = start;
    loop
        invariant
            start <= i,
            members_at(s@, start as int, depth as nat) == with_prefix(
                member_models(members@),
                members_at(s@, i as int, depth as nat),
            ),
        decreases s.len() - i,
    {
        if i >= s.len() || s[i] != '"' {
            return None;
        }
        let (key, key_end) = match read_string(s, i + 1) {
            None => { return None; },
            Some(found) => found,
        };
        let colon = skip_whitespace(s, key_end);
        if colon >= s.len() || s[colon] != ':' {
            return None;
        }
        let value = skip_whitespace(s, colon + 1);
        let (field, end) = match read_field(s, value, depth) {
            None => { return None; },
            Some(found) => found,
        };
        let next = skip_whitespace(s, end);
        if next >= s.len() {
            return None;
        }
        let member = Member { key, value: field };
        proof {
            let before = member_models(members@);
            assert(member_models(members@.push(member)) =~= before.push(member@));
            assert(before + seq![member@] =~= before.push(member@));
            assert forall|rest: Seq<MemberModel>| before + (seq![member@] + rest) == before.push(
                member@,
            ) + rest by {
                assert(before + (seq![member@] + rest) =~= before.push(member@) + rest);
            }
        }
        members.push(member);
        if s[next] == '}' {
            return Some((members, next + 1));
        } else if s[next] == ',' {
            i = skip_whitespace(s, next + 1);
        } else {
            return None;
        }
    }
}

/// Reads the document `s`.
pub fn read_document(s: &[char]) -> (r: Option<Vec<Member>>)
    ensures
        as_document(r) == document(s@),
{
    let open = skip_whitespace(s, 0);
    if open >= s.len() || s[open] != '{' {
        return None;
    }
    let first = skip_whitespace(s, open + 1);
    let (members, end) = if first < s.len() && s[first] == '}' {
        let members: Vec<Member> = Vec::new();
        assert(member_models(members@) =~= Seq::<MemberModel>::empty());
        (members, first + 1)
    } else {
        match read_members(s, first, MAX_DEPTH - 1) {
            None => { return None; },
            Some(found) => found,
        }
    };
    if skip_whitespace(s, end) == s.len() {
        Some(members)
    } else {
        None
    }
}

/// Reads `text` as a document and gives its members in the order in which
/// they are written, or `None` where `text` is not a well-formed document
/// with an object at its top.
pub fn parse_document(text: &str) -> (r: Option<Vec<Member>>)
    ensures
        as_document(r) == document(text@),
{
    let chars = chars_of(text);
    read_document(chars.as_slice())
}

} // verus!
