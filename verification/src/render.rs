//! How the body of a chat message is to be shown.
//!
//! A body that ends in `.gif` is the address of an image. Any other body is
//! text, in which `:smile:` and `:love:` stand for two emoji. The stored
//! message is never changed: the substitution is made for display only.

use vstd::prelude::*;
use crate::text::{chars_of, matches_at, occurs_at, string_of};

verus! {

/// How a message body is shown, as the contracts speak of it.
pub enum BodyModel {
    Image(Seq<char>),
    Text(Seq<char>),
}

/// How a message body is shown.
#[derive(Debug, PartialEq, Eq)]
pub enum Body {
    /// The body is the address of an image.
    Image(String),
    /// The body is text, with the emoji put in.
    Text(String),
}

impl View for Body {
    type V = BodyModel;

    open spec fn view(&self) -> BodyModel {
        match self {
            Body::Image(address) => BodyModel::Image(address@),
            Body::Text(text) => BodyModel::Text(text@),
        }
    }
}

/// Whether `s` ends in `suffix`.
pub open spec fn ends_with(s: Seq<char>, suffix: Seq<char>) -> bool {
    suffix.len() <= s.len() && occurs_at(s, s.len() - suffix.len(), suffix)
}

/// `s` with every occurrence of `from` replaced by `to`, the occurrences
/// taken from left to right and not overlapping.
pub open spec fn replaced(s: Seq<char>, from: Seq<char>, to: Seq<char>) -> Seq<char>
    decreases s.len(),
{
    if s.len() == 0 {
        Seq::empty()
    } else if from.len() > 0 && occurs_at(s, 0, from) {
        to + replaced(s.skip(from.len() as int), from, to)
    } else {
        seq![s[0]] + replaced(s.drop_first(), from, to)
    }
}

pub open spec fn image_suffix() -> Seq<char> {
    ".gif"@
}

pub open spec fn smile_token() -> Seq<char> {
    ":smile:"@
}

pub open spec fn love_token() -> Seq<char> {
    ":love:"@
}

/// A smiling face with smiling eyes.
pub open spec fn smile_emoji() -> Seq<char> {
    seq!['\u{1F60A}']
}

/// A red heart in its emoji presentation.
pub open spec fn love_emoji() -> Seq<char> {
    seq!['\u{2764}', '\u{FE0F}']
}

/// The text shown for a message body that is text.
pub open spec fn display_text(message: Seq<char>) -> Seq<char> {
    replaced(replaced(message, smile_token(), smile_emoji()), love_token(), love_emoji())
}

/// How the message body `message` is shown.
pub open spec fn body_of(message: Seq<char>) -> BodyModel {
    if ends_with(message, image_suffix()) {
        BodyModel::Image(message)
    } else {
        BodyModel::Text(display_text(message))
    }
}

/// Decides [`ends_with`].
pub fn has_suffix(s: &[char], suffix: &[char]) -> (b: bool)
    ensures
        b == ends_with(s@, suffix@),
{
    if suffix.len() > s.len() {
        false
    } else {
        matches_at(s, s.len() - suffix.len(), suffix)
    }
}

/// Computes [`replaced`]. An empty pattern occurs nowhere: the result is
/// then `s` itself.
pub fn replace_all(s: &[char], from: &[char], to: &[char]) -> (out: Vec<char>)
    ensures
        out@ == replaced(s@, from@, to@),
{
    let mut out: Vec<char> = Vec::new();
    let mut i: usize = 0;
    assert(s@.skip(0) =~= s@);
    assert(out@ + replaced(s@, from@, to@) =~= replaced(s@, from@, to@));
    while i < s.len()
        invariant
            i <= s.len(),
            replaced(s@, from@, to@) == out@ + replaced(s@.skip(i as int), from@, to@),
        decreases s.len() - i,
    {
        let ghost rest = s@.skip(i as int);
        let ghost before = out@;
        if from.len() > 0 && matches_at(s, i, from) {
            proof {
                assert(rest.subrange(0, from.len() as int) =~= s@.subrange(
                    i as int,
                    i + from.len(),
                ));
                assert(occurs_at(rest, 0, from@));
                assert(rest.skip(from.len() as int) =~= s@.skip(i + from.len()));
            }
            let mut k: usize = 0;
            while k < to.len()
                invariant
                    k <= to.len(),
                    out@ == before + to@.take(k as int),
                decreases to.len() - k,
            {
                assert(before + to@.take(k + 1) =~= (before + to@.take(k as int)).push(
                    to@[k as int],
                ));
                out.push(to[k]);
                k += 1;
            }
            proof {
                assert(to@.take(to.len() as int) =~= to@);
                assert(before + (to@ + replaced(rest.skip(from.len() as int), from@, to@)) =~= (
                before + to@) + replaced(rest.skip(from.len() as int), from@, to@));
            }
            i += from.len();
        } else {
            proof {
                if occurs_at(rest, 0, from@) {
                    assert(rest.subrange(0, from.len() as int) =~= s@.subrange(
                        i as int,
                        i + from.len(),
                    ));
                }
                assert(rest[0] == s@[i as int]);
                assert(rest.drop_first() =~= s@.skip(i + 1));
                assert(before + (seq![rest[0]] + replaced(rest.drop_first(), from@, to@)) =~= before.push(
                    rest[0],
                ) + replaced(rest.drop_first(), from@, to@));
            }
            out.push(s[i]);
            i += 1;
        }
    }
    proof {
        assert(s@.skip(s.len() as int).len() == 0);
        assert(out@ + Seq::<char>::empty() =~= out@);
    }
    out
}

/// Says how the message body `message` is shown. For a body that is text the
/// result holds the text with `:smile:` and `:love:` replaced; `message`
/// itself is left as it is.
pub fn render_body(message: &str) -> (body: Body)
    ensures
        body@ == body_of(message@),
{
    let chars = chars_of(message);
    let suffix = chars_of(".gif");
    if has_suffix(chars.as_slice(), suffix.as_slice()) {
        Body::Image(message.to_owned())
    } else {
        let smile_token = chars_of(":smile:");
        let love_token = chars_of(":love:");
        let smile: Vec<char> = vec!['\u{1F60A}'];
        let love: Vec<char> = vec!['\u{2764}', '\u{FE0F}'];
        assert(smile@ =~= smile_emoji());
        assert(love@ =~= love_emoji());
        let first = replace_all(chars.as_slice(), smile_token.as_slice(), smile.as_slice());
        let second = replace_all(first.as_slice(), love_token.as_slice(), love.as_slice());
        Body::Text(string_of(second.as_slice()))
    }
}

} // verus!
