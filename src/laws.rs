//! Properties of the grammar that relate several readers or several inputs.
use crate::chars::is_white_space;
use crate::grammar::{
    array_at, array_items, document, expect_at, lemma_quote_from_bounds, lemma_skip_ws_bounds,
    numeral_end, number_at, object_at, object_members, quote_from, skip_ws, string_at, value_at,
    word_at, word_end, insert_member, Read,
};
use crate::value::Json;
use vstd::prelude::*;

verus! {

/// Skipping white space twice in a row moves the cursor no further than skipping it once.
pub proof fn lemma_skip_ws_idempotent(s: Seq<char>, i: int)
    requires
        0 <= i <= s.len(),
    ensures
        skip_ws(s, skip_ws(s, i)) == skip_ws(s, i),
{
    lemma_skip_ws_bounds(s, i);
}

/// `t` is `s` with `d` characters in front of it.
pub open spec fn shifted(t: Seq<char>, s: Seq<char>, d: int) -> bool {
    &&& d >= 0
    &&& t.len() == s.len() + d
    &&& forall|k: int| 0 <= k < s.len() ==> t[d + k] == #[trigger] s[k]
}

/// A reader's outcome with its end position moved by `d`.
pub open spec fn shift<T>(r: Read<T>, d: int) -> Read<T> {
    match r {
        Ok((v, p)) => Ok((v, p + d)),
        Err(e) => Err(e),
    }
}

proof fn lemma_skip_ws_shift(t: Seq<char>, s: Seq<char>, d: int, i: int)
    requires
        shifted(t, s, d),
        0 <= i <= s.len(),
    ensures
        skip_ws(t, i + d) == skip_ws(s, i) + d,
    decreases s.len() - i,
{
    if i < s.len() {
        assert(t[d + i] == s[i]);
        lemma_skip_ws_shift(t, s, d, i + 1);
    }
}

proof fn lemma_quote_from_shift(t: Seq<char>, s: Seq<char>, d: int, i: int)
    requires
        shifted(t, s, d),
        0 <= i <= s.len(),
    ensures
        quote_from(t, i + d) == quote_from(s, i) + d,
    decreases s.len() - i,
{
    if i < s.len() {
        assert(t[d + i] == s[i]);
        lemma_quote_from_shift(t, s, d, i + 1);
    }
}

proof fn lemma_numeral_end_shift(t: Seq<char>, s: Seq<char>, d: int, i: int, dot: bool)
    requires
        shifted(t, s, d),
        0 <= i <= s.len(),
    ensures
        numeral_end(t, i + d, dot) == (numeral_end(s, i, dot).0 + d, numeral_end(s, i, dot).1),
    decreases s.len() - i,
{
    if i < s.len() {
        assert(t[d + i] == s[i]);
        lemma_numeral_end_shift(t, s, d, i + 1, true);
        lemma_numeral_end_shift(t, s, d, i + 1, dot);
    }
}

proof fn lemma_numeral_end_bounds(s: Seq<char>, i: int, dot: bool)
    requires
        0 <= i <= s.len(),
    ensures
        i <= numeral_end(s, i, dot).0 <= s.len(),
        numeral_end(s, i, dot).1 ==> numeral_end(s, i, dot).0 < s.len(),
    decreases s.len() - i,
{
    if i < s.len() {
        lemma_numeral_end_bounds(s, i + 1, true);
        lemma_numeral_end_bounds(s, i + 1, dot);
    }
}

proof fn lemma_word_end_shift(t: Seq<char>, s: Seq<char>, d: int, i: int)
    requires
        shifted(t, s, d),
        0 <= i <= s.len(),
    ensures
        word_end(t, i + d) == word_end(s, i) + d,
        i <= word_end(s, i) <= s.len(),
    decreases s.len() - i,
{
    if i < s.len() {
        assert(t[d + i] == s[i]);
        lemma_word_end_shift(t, s, d, i + 1);
    }
}

proof fn lemma_subrange_shift(t: Seq<char>, s: Seq<char>, d: int, i: int, j: int)
    requires
        shifted(t, s, d),
        0 <= i <= j <= s.len(),
    ensures
        t.subrange(i + d, j + d) == s.subrange(i, j),
{
    assert forall|k: int| 0 <= k < j - i implies t.subrange(i + d, j + d)[k] == s.subrange(
        i,
        j,
    )[k] by {
        assert(t[d + (i + k)] == s[i + k]);
    }
    assert(t.subrange(i + d, j + d) =~= s.subrange(i, j));
}

proof fn lemma_expect_shift(t: Seq<char>, s: Seq<char>, d: int, i: int, c: char)
    requires
        shifted(t, s, d),
        0 <= i <= s.len(),
    ensures
        expect_at(t, i + d, c) == expect_at(s, i, c),
{
    if i < s.len() {
        assert(t[d + i] == s[i]);
    }
}

proof fn lemma_string_shift(t: Seq<char>, s: Seq<char>, d: int, i: int)
    requires
        shifted(t, s, d),
        0 <= i <= s.len(),
    ensures
        string_at(t, i + d) == shift(string_at(s, i), d),
{
    lemma_expect_shift(t, s, d, i, '"');
    if i < s.len() && s[i] == '"' {
        lemma_quote_from_shift(t, s, d, i + 1);
        lemma_quote_from_bounds(s, i + 1);
        let close = quote_from(s, i + 1);
        if close < s.len() {
            lemma_subrange_shift(t, s, d, i + 1, close);
        }
    }
}

proof fn lemma_number_shift(t: Seq<char>, s: Seq<char>, d: int, i: int)
    requires
        shifted(t, s, d),
        0 <= i <= s.len(),
    ensures
        number_at(t, i + d) == shift(number_at(s, i), d),
{
    lemma_numeral_end_shift(t, s, d, i, false);
    lemma_numeral_end_bounds(s, i, false);
    let (k, second_dot) = numeral_end(s, i, false);
    if second_dot {
        lemma_subrange_shift(t, s, d, i, k + 1);
    } else {
        lemma_subrange_shift(t, s, d, i, k);
    }
}

proof fn lemma_word_shift(t: Seq<char>, s: Seq<char>, d: int, i: int)
    requires
        shifted(t, s, d),
        0 <= i <= s.len(),
    ensures
        word_at(t, i + d) == shift(word_at(s, i), d),
{
    lemma_word_end_shift(t, s, d, i);
    lemma_subrange_shift(t, s, d, i, word_end(s, i));
}

proof fn lemma_value_shift(t: Seq<char>, s: Seq<char>, d: int, i: int)
    requires
        shifted(t, s, d),
        0 <= i <= s.len(),
    ensures
        value_at(t, i + d) == shift(value_at(s, i), d),
    decreases s.len() - i, 1int,
{
    lemma_skip_ws_shift(t, s, d, i);
    lemma_skip_ws_bounds(s, i);
    let j = skip_ws(s, i);
    if j < s.len() {
        assert(t[d + j] == s[j]);
        let c = s[j];
        if c == '{' {
            lemma_object_shift(t, s, d, j);
        } else if c == '"' {
            lemma_string_shift(t, s, d, j);
        } else if c == '[' {
            lemma_array_shift(t, s, d, j);
        } else {
            lemma_number_shift(t, s, d, j);
            lemma_word_shift(t, s, d, j);
        }
    }
}

proof fn lemma_array_shift(t: Seq<char>, s: Seq<char>, d: int, i: int)
    requires
        shifted(t, s, d),
        0 <= i <= s.len(),
    ensures
        array_at(t, i + d) == shift(array_at(s, i), d),
    decreases s.len() - i, 0int,
{
    lemma_expect_shift(t, s, d, i, '[');
    if i < s.len() && s[i] == '[' {
        lemma_skip_ws_shift(t, s, d, i + 1);
        lemma_skip_ws_bounds(s, i + 1);
        let first = skip_ws(s, i + 1);
        lemma_array_items_shift(t, s, d, first, false, Seq::empty());
        match array_items(s, first, false, Seq::empty()) {
            Ok((_, p)) => {
                lemma_array_items_bounds(s, first, false, Seq::empty());
                lemma_skip_ws_shift(t, s, d, p);
            },
            Err(_) => {},
        }
    }
}

proof fn lemma_array_items_bounds(s: Seq<char>, i: int, comma: bool, acc: Seq<Json>)
    requires
        0 <= i <= s.len(),
    ensures
        array_items(s, i, comma, acc) matches Ok((_, p)) ==> 0 <= p <= s.len(),
    decreases s.len() - i,
{
    if i < s.len() && s[i] != ']' {
        match value_at(s, i) {
            Ok((v, p)) => {
                if !(p < i || p > s.len()) {
                    lemma_skip_ws_bounds(s, p);
                    let q = skip_ws(s, p);
                    if q < s.len() && s[q] == ',' {
                        lemma_skip_ws_bounds(s, q + 1);
                        lemma_array_items_bounds(s, skip_ws(s, q + 1), true, acc.push(v));
                    }
                }
            },
            Err(_) => {},
        }
    }
}

proof fn lemma_array_items_shift(
    t: Seq<char>,
    s: Seq<char>,
    d: int,
    i: int,
    comma: bool,
    acc: Seq<Json>,
)
    requires
        shifted(t, s, d),
        0 <= i <= s.len(),
    ensures
        array_items(t, i + d, comma, acc) == shift(array_items(s, i, comma, acc), d),
    decreases s.len() - i, 2int,
{
    if i < s.len() {
        assert(t[d + i] == s[i]);
        if s[i] != ']' {
            lemma_value_shift(t, s, d, i);
            match value_at(s, i) {
                Ok((v, p)) => {
                    if !(p < i || p > s.len()) {
                        lemma_skip_ws_shift(t, s, d, p);
                        lemma_skip_ws_bounds(s, p);
                        let q = skip_ws(s, p);
                        if q < s.len() {
                            assert(t[d + q] == s[q]);
                            if s[q] == ',' {
                                lemma_skip_ws_shift(t, s, d, q + 1);
                                lemma_skip_ws_bounds(s, q + 1);
                                lemma_array_items_shift(
                                    t,
                                    s,
                                    d,
                                    skip_ws(s, q + 1),
                                    true,
                                    acc.push(v),
                                );
                            }
                        }
                    }
                },
                Err(_) => {},
            }
        }
    }
}

proof fn lemma_object_shift(t: Seq<char>, s: Seq<char>, d: int, i: int)
    requires
        shifted(t, s, d),
        0 <= i <= s.len(),
    ensures
        object_at(t, i + d) == shift(object_at(s, i), d),
    decreases s.len() - i, 0int,
{
    lemma_expect_shift(t, s, d, i, '{');
    if i < s.len() && s[i] == '{' {
        lemma_skip_ws_shift(t, s, d, i + 1);
        lemma_skip_ws_bounds(s, i + 1);
        lemma_object_members_shift(t, s, d, skip_ws(s, i + 1), false, Seq::empty());
    }
}

proof fn lemma_object_members_shift(
    t: Seq<char>,
    s: Seq<char>,
    d: int,
    i: int,
    comma: bool,
    acc: Seq<(Seq<char>, Json)>,
)
    requires
        shifted(t, s, d),
        0 <= i <= s.len(),
    ensures
        object_members(t, i + d, comma, acc) == shift(object_members(s, i, comma, acc), d),
    decreases s.len() - i, 2int,
{
    if i < s.len() {
        assert(t[d + i] == s[i]);
        if s[i] != '}' {
            lemma_string_shift(t, s, d, i);
            match string_at(s, i) {
                Ok((key, k)) => {
                    lemma_quote_from_bounds(s, i + 1);
                    lemma_skip_ws_shift(t, s, d, k);
                    lemma_skip_ws_bounds(s, k);
                    let c = skip_ws(s, k);
                    lemma_expect_shift(t, s, d, c, ':');
                    if c < s.len() && s[c] == ':' {
                        lemma_skip_ws_shift(t, s, d, c + 1);
                        lemma_skip_ws_bounds(s, c + 1);
                        let start = skip_ws(s, c + 1);
                        lemma_value_shift(t, s, d, start);
                        match value_at(s, start) {
                            Ok((v, p)) => {
                                if !(p < start || p > s.len()) {
                                    lemma_skip_ws_shift(t, s, d, p);
                                    lemma_skip_ws_bounds(s, p);
                                    let q = skip_ws(s, p);
                                    if q < s.len() {
                                        assert(t[d + q] == s[q]);
                                        if s[q] == ',' {
                                            lemma_skip_ws_shift(t, s, d, q + 1);
                                            lemma_skip_ws_bounds(s, q + 1);
                                            lemma_object_members_shift(
                                                t,
                                                s,
                                                d,
                                                skip_ws(s, q + 1),
                                                true,
                                                insert_member(acc, key, v),
                                            );
                                        }
                                    }
                                }
                            },
                            Err(_) => {},
                        }
                    }
                },
                Err(_) => {},
            }
        }
    }
}

proof fn lemma_skip_leading(t: Seq<char>, n: int, k: int)
    requires
        0 <= k <= n <= t.len(),
        forall|j: int| 0 <= j < n ==> is_white_space(#[trigger] t[j]),
    ensures
        skip_ws(t, k) == skip_ws(t, n),
    decreases n - k,
{
    if k < n {
        lemma_skip_leading(t, n, k + 1);
    }
}

/// White space in front of a document changes nothing: the same value is
/// read (or the same error met), and the end moves by the length of the white space.
pub proof fn lemma_leading_white_space(w: Seq<char>, s: Seq<char>)
    requires
        forall|k: int| 0 <= k < w.len() ==> is_white_space(#[trigger] w[k]),
    ensures
        document(w + s) == shift(document(s), w.len() as int),
{
    let t = w + s;
    let d = w.len() as int;
    assert(shifted(t, s, d));
    assert forall|j: int| 0 <= j < d implies is_white_space(#[trigger] t[j]) by {
        assert(t[j] == w[j]);
    }
    lemma_skip_leading(t, d, 0);
    lemma_skip_ws_shift(t, s, d, 0);
    lemma_skip_ws_bounds(s, 0);
    lemma_object_shift(t, s, d, skip_ws(s, 0));
}

/// No two members share a key.
pub open spec fn keys_unique(m: Seq<(Seq<char>, Json)>) -> bool {
    forall|a: int, b: int| 0 <= a < b < m.len() ==> #[trigger] m[a].0 != #[trigger] m[b].0
}

/// Every object in the value, at any depth, has unique keys.
pub open spec fn well_formed(v: Json) -> bool
    decreases v,
{
    match v {
        Json::Array(items) => forall|k: int| 0 <= k < items.len() ==> well_formed(#[trigger] items[k]),
        Json::Object(m) => keys_unique(m) && forall|k: int|
            0 <= k < m.len() ==> well_formed(#[trigger] m[k].1),
        _ => true,
    }
}

pub open spec fn all_well_formed(items: Seq<Json>) -> bool {
    forall|k: int| 0 <= k < items.len() ==> well_formed(#[trigger] items[k])
}

pub open spec fn members_well_formed(m: Seq<(Seq<char>, Json)>) -> bool {
    keys_unique(m) && forall|k: int| 0 <= k < m.len() ==> well_formed(#[trigger] m[k].1)
}

/// Inserting a member keeps keys unique.
pub proof fn lemma_insert_member_well_formed(m: Seq<(Seq<char>, Json)>, key: Seq<char>, v: Json)
    requires
        members_well_formed(m),
        well_formed(v),
    ensures
        members_well_formed(insert_member(m, key, v)),
{
    let r = insert_member(m, key, v);
    if exists|k: int| 0 <= k < m.len() && #[trigger] m[k].0 == key {
        let c = choose|k: int|
            0 <= k < m.len() && #[trigger] m[k].0 == key && forall|j: int|
                0 <= j < k ==> #[trigger] m[j].0 != key;
        assert(0 <= c < m.len() && m[c].0 == key) by {
            let k0 = choose|k: int| 0 <= k < m.len() && #[trigger] m[k].0 == key;
            lemma_first_key(m, key, k0);
        }
        assert forall|a: int, b: int| 0 <= a < b < r.len() implies #[trigger] r[a].0
            != #[trigger] r[b].0 by {
            assert(r[a].0 == m[a].0);
            assert(r[b].0 == m[b].0);
        }
        assert forall|k: int| 0 <= k < r.len() implies well_formed(#[trigger] r[k].1) by {
            if k != c {
                assert(r[k] == m[k]);
            }
        }
    } else {
        assert forall|a: int, b: int| 0 <= a < b < r.len() implies #[trigger] r[a].0
            != #[trigger] r[b].0 by {
            if b == m.len() {
                assert(m[a].0 != key);
            } else {
                assert(r[a] == m[a] && r[b] == m[b]);
            }
        }
        assert forall|k: int| 0 <= k < r.len() implies well_formed(#[trigger] r[k].1) by {
            if k < m.len() {
                assert(r[k] == m[k]);
            }
        }
    }
}

proof fn lemma_first_key(m: Seq<(Seq<char>, Json)>, key: Seq<char>, k0: int)
    requires
        0 <= k0 < m.len(),
        m[k0].0 == key,
    ensures
        exists|k: int|
            0 <= k < m.len() && #[trigger] m[k].0 == key && forall|j: int|
                0 <= j < k ==> #[trigger] m[j].0 != key,
    decreases k0,
{
    if exists|j: int| 0 <= j < k0 && #[trigger] m[j].0 == key {
        let j = choose|j: int| 0 <= j < k0 && #[trigger] m[j].0 == key;
        lemma_first_key(m, key, j);
    } else {
        assert(forall|j: int| 0 <= j < k0 ==> #[trigger] m[j].0 != key);
    }
}

proof fn lemma_value_well_formed(s: Seq<char>, i: int)
    requires
        0 <= i <= s.len(),
    ensures
        value_at(s, i) matches Ok((v, _)) ==> well_formed(v),
    decreases s.len() - i, 1int,
{
    lemma_skip_ws_bounds(s, i);
    let j = skip_ws(s, i);
    if j < s.len() {
        if s[j] == '{' {
            lemma_object_well_formed(s, j);
        } else if s[j] == '[' {
            lemma_array_well_formed(s, j);
        }
    }
}

proof fn lemma_array_well_formed(s: Seq<char>, i: int)
    requires
        0 <= i <= s.len(),
    ensures
        array_at(s, i) matches Ok((v, _)) ==> well_formed(v),
    decreases s.len() - i, 0int,
{
    if i < s.len() && s[i] == '[' {
        lemma_skip_ws_bounds(s, i + 1);
        lemma_array_items_well_formed(s, skip_ws(s, i + 1), false, Seq::empty());
    }
}

proof fn lemma_array_items_well_formed(s: Seq<char>, i: int, comma: bool, acc: Seq<Json>)
    requires
        0 <= i <= s.len(),
        all_well_formed(acc),
    ensures
        array_items(s, i, comma, acc) matches Ok((items, _)) ==> all_well_formed(items),
    decreases s.len() - i, 2int,
{
    if i < s.len() && s[i] != ']' {
        lemma_value_well_formed(s, i);
        match value_at(s, i) {
            Ok((v, p)) => {
                let next = acc.push(v);
                assert forall|k: int| 0 <= k < next.len() implies well_formed(#[trigger] next[k]) by {
                    if k < acc.len() {
                        assert(next[k] == acc[k]);
                    }
                }
                if !(p < i || p > s.len()) {
                    lemma_skip_ws_bounds(s, p);
                    let q = skip_ws(s, p);
                    if q < s.len() && s[q] == ',' {
                        lemma_skip_ws_bounds(s, q + 1);
                        lemma_array_items_well_formed(s, skip_ws(s, q + 1), true, next);
                    }
                }
            },
            Err(_) => {},
        }
    }
}

proof fn lemma_object_well_formed(s: Seq<char>, i: int)
    requires
        0 <= i <= s.len(),
    ensures
        object_at(s, i) matches Ok((v, _)) ==> well_formed(v),
    decreases s.len() - i, 0int,
{
    if i < s.len() && s[i] == '{' {
        lemma_skip_ws_bounds(s, i + 1);
        lemma_object_members_well_formed(s, skip_ws(s, i + 1), false, Seq::empty());
    }
}

proof fn lemma_object_members_well_formed(
    s: Seq<char>,
    i: int,
    comma: bool,
    acc: Seq<(Seq<char>, Json)>,
)
    requires
        0 <= i <= s.len(),
        members_well_formed(acc),
    ensures
        object_members(s, i, comma, acc) matches Ok((m, _)) ==> members_well_formed(m),
    decreases s.len() - i, 2int,
{
    if i < s.len() && s[i] != '}' {
        match string_at(s, i) {
            Ok((key, k)) => {
                lemma_quote_from_bounds(s, i + 1);
                lemma_skip_ws_bounds(s, k);
                let c = skip_ws(s, k);
                if c < s.len() && s[c] == ':' {
                    lemma_skip_ws_bounds(s, c + 1);
                    let start = skip_ws(s, c + 1);
                    lemma_value_well_formed(s, start);
                    match value_at(s, start) {
                        Ok((v, p)) => {
                            lemma_insert_member_well_formed(acc, key, v);
                            if !(p < start || p > s.len()) {
                                lemma_skip_ws_bounds(s, p);
                                let q = skip_ws(s, p);
                                if q < s.len() && s[q] == ',' {
                                    lemma_skip_ws_bounds(s, q + 1);
                                    lemma_object_members_well_formed(
                                        s,
                                        skip_ws(s, q + 1),
                                        true,
                                        insert_member(acc, key, v),
                                    );
                                }
                            }
                        },
                        Err(_) => {},
                    }
                }
            },
            Err(_) => {},
        }
    }
}

/// A document that parses gives an object, and every object in it has unique keys.
pub proof fn lemma_document_well_formed(s: Seq<char>)
    ensures
        document(s) matches Ok((v, _)) ==> v is Object && well_formed(v),
{
    lemma_skip_ws_bounds(s, 0);
    lemma_object_well_formed(s, skip_ws(s, 0));
}

} // verus!
