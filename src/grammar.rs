//! The accepted language, stated as spec functions over a character sequence
//! and a position in it. Each reader gives the value read and the position
//! just past it, or the first error met.
use crate::chars::{alphabetic, is_digit, is_white_space};
use crate::value::{ErrorView, Json};
use vstd::prelude::*;

verus! {

/// What a reader gives: a result and the position after it, or an error.
pub type Read<T> = Result<(T, int), ErrorView>;

/// The first position at or after `i` that holds no white space.
pub open spec fn skip_ws(s: Seq<char>, i: int) -> int
    decreases s.len() - i,
{
    if 0 <= i < s.len() && is_white_space(s[i]) {
        skip_ws(s, i + 1)
    } else {
        i
    }
}

pub proof fn lemma_skip_ws_bounds(s: Seq<char>, i: int)
    requires
        0 <= i <= s.len(),
    ensures
        i <= skip_ws(s, i) <= s.len(),
        skip_ws(s, i) < s.len() ==> !is_white_space(s[skip_ws(s, i)]),
        forall|k: int| i <= k < skip_ws(s, i) ==> is_white_space(#[trigger] s[k]),
    decreases s.len() - i,
{
    if i < s.len() && is_white_space(s[i]) {
        lemma_skip_ws_bounds(s, i + 1);
    }
}

/// The first `"` at or after `i`, or the end of the input.
pub open spec fn quote_from(s: Seq<char>, i: int) -> int
    decreases s.len() - i,
{
    if 0 <= i < s.len() && s[i] != '"' {
        quote_from(s, i + 1)
    } else {
        i
    }
}

pub proof fn lemma_quote_from_bounds(s: Seq<char>, i: int)
    requires
        0 <= i <= s.len(),
    ensures
        i <= quote_from(s, i) <= s.len(),
        quote_from(s, i) < s.len() ==> s[quote_from(s, i)] == '"',
        forall|k: int| i <= k < quote_from(s, i) ==> #[trigger] s[k] != '"',
    decreases s.len() - i,
{
    if i < s.len() && s[i] != '"' {
        lemma_quote_from_bounds(s, i + 1);
    }
}

/// One required character.
pub open spec fn expect_at(s: Seq<char>, i: int, c: char) -> Result<(), ErrorView> {
    if i < 0 || i >= s.len() {
        Err(ErrorView::EndOfInput)
    } else if s[i] != c {
        Err(ErrorView::UnexpectedCharacter { expected: c, got: s[i] })
    } else {
        Ok(())
    }
}

/// A string literal: a quote, then everything up to the next quote.
pub open spec fn string_at(s: Seq<char>, i: int) -> Read<Seq<char>> {
    match expect_at(s, i, '"') {
        Err(e) => Err(e),
        Ok(_) => {
            let close = quote_from(s, i + 1);
            if close >= s.len() {
                Err(ErrorView::UnterminatedString)
            } else {
                Ok((s.subrange(i + 1, close), close + 1))
            }
        },
    }
}

/// Where a run of digits and dots that starts at `i` stops, and whether it
/// stopped at a second dot (`dot`: a dot was seen before `i`).
pub open spec fn numeral_end(s: Seq<char>, i: int, dot: bool) -> (int, bool)
    decreases s.len() - i,
{
    if 0 <= i < s.len() && s[i] == '.' {
        if dot {
            (i, true)
        } else {
            numeral_end(s, i + 1, true)
        }
    } else if 0 <= i < s.len() && is_digit(s[i]) {
        numeral_end(s, i + 1, dot)
    } else {
        (i, false)
    }
}

/// A numeral: digits with at most one dot among them.
pub open spec fn number_at(s: Seq<char>, i: int) -> Read<Seq<char>> {
    let (k, second_dot) = numeral_end(s, i, false);
    if second_dot {
        Err(ErrorView::InvalidNumber(s.subrange(i, k + 1)))
    } else if k == i {
        Err(ErrorView::InvalidNumber(Seq::empty()))
    } else {
        Ok((s.subrange(i, k), k))
    }
}

/// The end of the run of alphabetic characters that starts at `i`.
pub open spec fn word_end(s: Seq<char>, i: int) -> int
    decreases s.len() - i,
{
    if 0 <= i < s.len() && alphabetic(s[i]) {
        word_end(s, i + 1)
    } else {
        i
    }
}

pub open spec fn word_null() -> Seq<char> {
    seq!['n', 'u', 'l', 'l']
}

pub open spec fn word_true() -> Seq<char> {
    seq!['t', 'r', 'u', 'e']
}

pub open spec fn word_false() -> Seq<char> {
    seq!['f', 'a', 'l', 's', 'e']
}

/// A bare word: `null`, `true` or `false`.
pub open spec fn word_at(s: Seq<char>, i: int) -> Read<Json> {
    let k = word_end(s, i);
    let w = s.subrange(i, k);
    if w == word_null() {
        Ok((Json::Null, k))
    } else if w == word_true() {
        Ok((Json::Bool(true), k))
    } else if w == word_false() {
        Ok((Json::Bool(false), k))
    } else {
        Err(ErrorView::UnrecognizedLiteral)
    }
}

/// Adds a member, or replaces the value of the first member with that key.
pub open spec fn insert_member(
    members: Seq<(Seq<char>, Json)>,
    key: Seq<char>,
    v: Json,
) -> Seq<(Seq<char>, Json)> {
    if exists|k: int| 0 <= k < members.len() && #[trigger] members[k].0 == key {
        let k = choose|k: int|
            0 <= k < members.len() && #[trigger] members[k].0 == key && forall|j: int|
                0 <= j < k ==> #[trigger] members[j].0 != key;
        members.update(k, (key, v))
    } else {
        members.push((key, v))
    }
}

/// Any value, after white space.
pub open spec fn value_at(s: Seq<char>, i: int) -> Read<Json>
    decreases s.len() - i, 1int,
{
    let j = skip_ws(s, i);
    if j < 0 || j >= s.len() {
        Err(ErrorView::EndOfInput)
    } else {
        proof {
            lemma_skip_ws_bounds(s, i);
        }
        let c = s[j];
        if c == '{' {
            object_at(s, j)
        } else if c == '"' {
            match string_at(s, j) {
                Ok((t, p)) => Ok((Json::Str(t), p)),
                Err(e) => Err(e),
            }
        } else if c == '[' {
            array_at(s, j)
        } else if is_digit(c) {
            match number_at(s, j) {
                Ok((t, p)) => Ok((Json::Number(t), p)),
                Err(e) => Err(e),
            }
        } else if alphabetic(c) {
            word_at(s, j)
        } else {
            Err(ErrorView::UnrecognizedToken)
        }
    }
}

/// An array: `[`, its elements, then white space after the `]`.
pub open spec fn array_at(s: Seq<char>, i: int) -> Read<Json>
    decreases s.len() - i, 0int,
{
    match expect_at(s, i, '[') {
        Err(e) => Err(e),
        Ok(_) => {
            proof {
                lemma_skip_ws_bounds(s, i + 1);
            }
            match array_items(s, skip_ws(s, i + 1), false, Seq::empty()) {
                Ok((items, p)) => Ok((Json::Array(items), skip_ws(s, p))),
                Err(e) => Err(e),
            }
        },
    }
}

/// The rest of an array from `i` (past white space) on, with the elements
/// `acc` read so far; `comma`: the last thing read was a `,`.
pub open spec fn array_items(s: Seq<char>, i: int, comma: bool, acc: Seq<Json>) -> Read<Seq<Json>>
    decreases s.len() - i, 2int,
{
    if i < 0 || i >= s.len() {
        Err(ErrorView::UnterminatedArray)
    } else if s[i] == ']' {
        if comma {
            Err(ErrorView::ExpectedArrayEndOrSeparator)
        } else {
            Ok((acc, i + 1))
        }
    } else {
        match value_at(s, i) {
            Err(e) => Err(e),
            Ok((v, p)) => {
                // readers never move backwards; this keeps the recursion well founded
                if p < i || p > s.len() {
                    Err(ErrorView::UnterminatedArray)
                } else {
                    proof {
                        lemma_skip_ws_bounds(s, p);
                    }
                    let q = skip_ws(s, p);
                    if q >= s.len() {
                        Err(ErrorView::UnterminatedArray)
                    } else if s[q] == ',' {
                        proof {
                            lemma_skip_ws_bounds(s, q + 1);
                        }
                        array_items(s, skip_ws(s, q + 1), true, acc.push(v))
                    } else if s[q] == ']' {
                        Ok((acc.push(v), q + 1))
                    } else {
                        Err(ErrorView::ExpectedArrayEndOrSeparator)
                    }
                }
            },
        }
    }
}

/// An object: `{`, its members, `}`.
pub open spec fn object_at(s: Seq<char>, i: int) -> Read<Json>
    decreases s.len() - i, 0int,
{
    match expect_at(s, i, '{') {
        Err(e) => Err(e),
        Ok(_) => {
            proof {
                lemma_skip_ws_bounds(s, i + 1);
            }
            match object_members(s, skip_ws(s, i + 1), false, Seq::empty()) {
                Ok((members, p)) => Ok((Json::Object(members), p)),
                Err(e) => Err(e),
            }
        },
    }
}

/// The rest of an object from `i` (past white space) on, with the members
/// `acc` read so far; `comma`: the last thing read was a `,`.
pub open spec fn object_members(
    s: Seq<char>,
    i: int,
    comma: bool,
    acc: Seq<(Seq<char>, Json)>,
) -> Read<Seq<(Seq<char>, Json)>>
    decreases s.len() - i, 2int,
{
    if i < 0 || i >= s.len() {
        Err(ErrorView::UnterminatedObject)
    } else if s[i] == '}' {
        if comma {
            Err(ErrorView::ExpectedObjectEndOrSeparator)
        } else {
            Ok((acc, i + 1))
        }
    } else {
        match string_at(s, i) {
            Err(e) => Err(e),
            Ok((key, k)) => {
                proof {
                    lemma_quote_from_bounds(s, i + 1);
                }
                let c = skip_ws(s, k);
                match expect_at(s, c, ':') {
                    Err(e) => Err(e),
                    Ok(_) => {
                        proof {
                            lemma_skip_ws_bounds(s, k);
                            lemma_skip_ws_bounds(s, c + 1);
                        }
                        let start = skip_ws(s, c + 1);
                        match value_at(s, start) {
                            Err(e) => Err(e),
                            Ok((v, p)) => {
                                // readers never move backwards; this keeps the recursion well founded
                                if p < start || p > s.len() {
                                    Err(ErrorView::UnterminatedObject)
                                } else {
                                    proof {
                                        lemma_skip_ws_bounds(s, p);
                                    }
                                    let q = skip_ws(s, p);
                                    let members = insert_member(acc, key, v);
                                    if q >= s.len() {
                                        Err(ErrorView::UnterminatedObject)
                                    } else if s[q] == ',' {
                                        proof {
                                            lemma_skip_ws_bounds(s, q + 1);
                                        }
                                        object_members(s, skip_ws(s, q + 1), true, members)
                                    } else if s[q] == '}' {
                                        Ok((members, q + 1))
                                    } else {
                                        Err(ErrorView::ExpectedObjectEndOrSeparator)
                                    }
                                }
                            },
                        }
                    },
                }
            },
        }
    }
}

/// A document: white space, then an object.
pub open spec fn document(s: Seq<char>) -> Read<Json> {
    object_at(s, skip_ws(s, 0))
}

} // verus!
