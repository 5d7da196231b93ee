//! The scanner: a cursor over the input and one reader per construct.
use crate::chars::{digit, letter, push_char, white_space};
use crate::grammar::{
    array_at, array_items, document, expect_at, insert_member, lemma_skip_ws_bounds, number_at,
    numeral_end, object_at, object_members, quote_from, skip_ws, string_at, value_at, word_at,
    word_end, word_false, word_null, word_true, Read,
};
use crate::value::{
    lemma_view_members, view_items, view_members, ErrorView, Json, JsonParserError, JsonValue,
};
use vstd::prelude::*;

verus! {

/// How a reader's result relates to its model: the same value and the
/// cursor just past it, or the same error.
pub open spec fn value_outcome(
    r: Result<JsonValue, JsonParserError>,
    m: Read<Json>,
    cursor: int,
) -> bool {
    match (r, m) {
        (Ok(x), Ok((v, p))) => x@ == v && cursor == p,
        (Err(x), Err(e)) => x@ == e,
        _ => false,
    }
}

/// As `value_outcome`, for a reader that gives text.
pub open spec fn text_outcome(
    r: Result<String, JsonParserError>,
    m: Read<Seq<char>>,
    cursor: int,
) -> bool {
    match (r, m) {
        (Ok(x), Ok((t, p))) => x@ == t && cursor == p,
        (Err(x), Err(e)) => x@ == e,
        _ => false,
    }
}

/// Adds the member `(key, v)`, or gives `v` to the first member with that key.
fn insert_member_into(members: &mut Vec<(String, JsonValue)>, key: String, v: JsonValue)
    ensures
        view_members(final(members)@) == insert_member(view_members(old(members)@), key@, v@),
{
    let ghost m = view_members(members@);
    proof {
        lemma_view_members(members@);
    }
    let mut k: usize = 0;
    while k < members.len()
        invariant
            *members == *old(members),
            k <= members.len(),
            m == view_members(members@),
            m.len() == members@.len(),
            forall|j: int| 0 <= j < m.len() ==> #[trigger] m[j] == (members@[j].0@, members@[j].1@),
            forall|j: int| 0 <= j < k ==> #[trigger] m[j].0 != key@,
        decreases members.len() - k,
    {
        if members[k].0 == key {
            let ghost kv = key@;
            let ghost vv = v@;
            members[k] = (key, v);
            proof {
                lemma_view_members(members@);
                assert(m[k as int].0 == kv);
                let c = choose|c: int|
                    0 <= c < m.len() && #[trigger] m[c].0 == kv && forall|j: int|
                        0 <= j < c ==> #[trigger] m[j].0 != kv;
                assert(c == k);
                assert(view_members(members@) =~= m.update(k as int, (kv, vv)));
            }
            return;
        }
        k += 1;
    }
    members.push((key, v));
    proof {
        lemma_view_members(members@);
        assert(view_members(members@) =~= m.push((key@, v@)));
    }
}

/// Parses a whole document.
pub fn parse_chars(chars: Vec<char>) -> (r: Result<JsonValue, JsonParserError>)
    ensures
        match (r, document(chars@)) {
            (Ok(x), Ok((v, _))) => x@ == v,
            (Err(x), Err(e)) => x@ == e,
            _ => false,
        },
{
    let mut parser = JsonParser::new(chars);
    parser.parse()
}

/// The input and the position of the next character to read.
pub struct JsonParser {
    pub chars: Vec<char>,
    pub cursor: usize,
}

impl JsonParser {
    pub open spec fn wf(&self) -> bool {
        self.cursor <= self.chars.len()
    }

    pub open spec fn text(&self) -> Seq<char> {
        self.chars@
    }

    pub open spec fn pos(&self) -> int {
        self.cursor as int
    }

    /// A scanner at the start of `chars`.
    pub fn new(chars: Vec<char>) -> (r: Self)
        ensures
            r.wf(),
            r.text() == chars@,
            r.pos() == 0,
    {
        JsonParser { chars, cursor: 0 }
    }

    /// Moves the cursor past white space.
    pub fn chop(&mut self)
        requires
            old(self).wf(),
        ensures
            final(self).wf(),
            final(self).text() == old(self).text(),
            final(self).pos() >= old(self).pos(),
            final(self).pos() == skip_ws(old(self).text(), old(self).pos()),
    {
        while self.cursor < self.chars.len() && white_space(self.chars[self.cursor])
            invariant
                self.wf(),
                self.pos() >= old(self).pos(),
                self.text() == old(self).text(),
                skip_ws(self.text(), old(self).pos()) == skip_ws(self.text(), self.pos()),
            decreases self.chars.len() - self.cursor,
        {
            self.cursor += 1;
        }
    }

    /// The character at the cursor, which stays where it is.
    pub fn read(&mut self) -> (r: Result<char, JsonParserError>)
        requires
            old(self).wf(),
        ensures
            *final(self) == *old(self),
            match r {
                Ok(c) => old(self).pos() < old(self).text().len() && c == old(self).text()[old(
                    self,
                ).pos()],
                Err(e) => old(self).pos() == old(self).text().len() && e == JsonParserError::EndOfInput,
            },
    {
        if self.cursor < self.chars.len() {
            Ok(self.chars[self.cursor])
        } else {
            Err(JsonParserError::EndOfInput)
        }
    }

    /// The character at the cursor, which moves past it.
    pub fn consume(&mut self) -> (r: Result<char, JsonParserError>)
        requires
            old(self).wf(),
        ensures
            final(self).wf(),
            final(self).text() == old(self).text(),
            match r {
                Ok(c) => old(self).pos() < old(self).text().len() && c == old(self).text()[old(
                    self,
                ).pos()] && final(self).pos() == old(self).pos() + 1,
                Err(e) => old(self).pos() == old(self).text().len() && e == JsonParserError::EndOfInput
                    && final(self).pos() == old(self).pos(),
            },
    {
        let res = self.read();
        if res.is_ok() {
            self.cursor += 1;
        }
        res
    }

    /// Consumes one character, which must be `expected`.
    pub fn consume_check(&mut self, expected: char) -> (r: Result<(), JsonParserError>)
        requires
            old(self).wf(),
        ensures
            final(self).wf(),
            final(self).text() == old(self).text(),
            final(self).pos() >= old(self).pos(),
            match (r, expect_at(old(self).text(), old(self).pos(), expected)) {
                (Ok(_), Ok(_)) => final(self).pos() == old(self).pos() + 1,
                (Err(x), Err(e)) => x@ == e,
                _ => false,
            },
    {
        match self.consume() {
            Err(e) => Err(e),
            Ok(got) => {
                if got != expected {
                    Err(JsonParserError::UnexpectedCharacter { expected, got })
                } else {
                    Ok(())
                }
            },
        }
    }

    /// Reads a string literal: a quote, then every character up to the next quote.
    pub fn parse_string(&mut self) -> (r: Result<String, JsonParserError>)
        requires
            old(self).wf(),
        ensures
            final(self).wf(),
            final(self).text() == old(self).text(),
            final(self).pos() >= old(self).pos(),
            text_outcome(r, string_at(old(self).text(), old(self).pos()), final(self).pos()),
    {
        match self.consume_check('"') {
            Err(e) => return Err(e),
            Ok(_) => {},
        }
        let ghost s = self.text();
        let start = self.cursor;
        let mut text = String::new();
        while self.cursor < self.chars.len()
            invariant
                self.wf(),
                self.text() == s,
                s == old(self).text(),
                start == old(self).pos() + 1,
                start <= self.cursor,
                expect_at(s, old(self).pos(), '"') is Ok,
                text@ == s.subrange(start as int, self.pos()),
                quote_from(s, start as int) == quote_from(s, self.pos()),
            decreases self.chars.len() - self.cursor,
        {
            let c = self.chars[self.cursor];
            self.cursor += 1;
            if c == '"' {
                return Ok(text);
            }
            push_char(&mut text, c);
            assert(text@ =~= s.subrange(start as int, self.pos()));
        }
        Err(JsonParserError::UnterminatedString)
    }

    /// Reads a numeral: digits with at most one dot among them.
    pub fn parse_number(&mut self) -> (r: Result<String, JsonParserError>)
        requires
            old(self).wf(),
        ensures
            final(self).wf(),
            final(self).text() == old(self).text(),
            final(self).pos() >= old(self).pos(),
            text_outcome(r, number_at(old(self).text(), old(self).pos()), final(self).pos()),
    {
        let ghost s = self.text();
        let start = self.cursor;
        let mut text = String::new();
        let mut found_point = false;
        while self.cursor < self.chars.len() && (self.chars[self.cursor] == '.' || digit(
            self.chars[self.cursor],
        ))
            invariant
                self.wf(),
                self.text() == s,
                s == old(self).text(),
                start == old(self).pos(),
                start <= self.cursor,
                text@ == s.subrange(start as int, self.pos()),
                numeral_end(s, start as int, false) == numeral_end(s, self.pos(), found_point),
            decreases self.chars.len() - self.cursor,
        {
            let c = self.chars[self.cursor];
            if c == '.' {
                if found_point {
                    push_char(&mut text, c);
                    assert(text@ =~= s.subrange(start as int, self.pos() + 1));
                    return Err(JsonParserError::InvalidNumber(text));
                }
                found_point = true;
            }
            self.cursor += 1;
            push_char(&mut text, c);
            assert(text@ =~= s.subrange(start as int, self.pos()));
        }
        if self.cursor == start {
            assert(text@ =~= Seq::<char>::empty());
            return Err(JsonParserError::InvalidNumber(text));
        }
        Ok(text)
    }

    /// Whether the characters from `start` to `end` spell `word`.
    fn spells(&self, start: usize, end: usize, word: &Vec<char>) -> (r: bool)
        requires
            start <= end <= self.chars.len(),
        ensures
            r == (self.text().subrange(start as int, end as int) == word@),
    {
        if end - start != word.len() {
            return false;
        }
        let mut k: usize = 0;
        while k < word.len()
            invariant
                start <= end <= self.chars.len(),
                end - start == word.len(),
                k <= word.len(),
                forall|j: int| 0 <= j < k ==> self.text()[start + j] == word@[j],
            decreases word.len() - k,
        {
            if self.chars[start + k] != word[k] {
                assert(self.text().subrange(start as int, end as int)[k as int] != word@[k as int]);
                return false;
            }
            k += 1;
        }
        assert(self.text().subrange(start as int, end as int) =~= word@);
        true
    }

    /// Reads a bare word, which must be `null`, `true` or `false`.
    pub fn parse_word(&mut self) -> (r: Result<JsonValue, JsonParserError>)
        requires
            old(self).wf(),
        ensures
            final(self).wf(),
            final(self).text() == old(self).text(),
            final(self).pos() >= old(self).pos(),
            value_outcome(r, word_at(old(self).text(), old(self).pos()), final(self).pos()),
    {
        let ghost s = self.text();
        let start = self.cursor;
        while self.cursor < self.chars.len() && letter(self.chars[self.cursor])
            invariant
                self.wf(),
                self.text() == s,
                s == old(self).text(),
                start == old(self).pos(),
                start <= self.cursor,
                word_end(s, start as int) == word_end(s, self.pos()),
            decreases self.chars.len() - self.cursor,
        {
            self.cursor += 1;
        }
        let end = self.cursor;
        let null_word = vec!['n', 'u', 'l', 'l'];
        let true_word = vec!['t', 'r', 'u', 'e'];
        let false_word = vec!['f', 'a', 'l', 's', 'e'];
        assert(null_word@ =~= word_null());
        assert(true_word@ =~= word_true());
        assert(false_word@ =~= word_false());
        if self.spells(start, end, &null_word) {
            Ok(JsonValue::Null)
        } else if self.spells(start, end, &true_word) {
            Ok(JsonValue::Bool(true))
        } else if self.spells(start, end, &false_word) {
            Ok(JsonValue::Bool(false))
        } else {
            Err(JsonParserError::UnrecognizedLiteral)
        }
    }

    /// Reads any value after white space, choosing the reader by its first character.
    pub fn parse_next(&mut self) -> (r: Result<JsonValue, JsonParserError>)
        requires
            old(self).wf(),
        ensures
            final(self).wf(),
            final(self).text() == old(self).text(),
            final(self).pos() >= old(self).pos(),
            value_outcome(r, value_at(old(self).text(), old(self).pos()), final(self).pos()),
        decreases old(self).text().len() - old(self).pos(), 1int,
    {
        self.chop();
        proof {
            lemma_skip_ws_bounds(self.text(), old(self).pos());
        }
        let c = match self.read() {
            Err(e) => return Err(e),
            Ok(c) => c,
        };
        if c == '{' {
            self.parse_object()
        } else if c == '"' {
            match self.parse_string() {
                Ok(t) => Ok(JsonValue::String(t)),
                Err(e) => Err(e),
            }
        } else if c == '[' {
            self.parse_array()
        } else if digit(c) {
            match self.parse_number() {
                Ok(t) => Ok(JsonValue::Number(t)),
                Err(e) => Err(e),
            }
        } else if letter(c) {
            self.parse_word()
        } else {
            Err(JsonParserError::UnrecognizedToken)
        }
    }

    /// Reads an array and the white space after it.
    pub fn parse_array(&mut self) -> (r: Result<JsonValue, JsonParserError>)
        requires
            old(self).wf(),
        ensures
            final(self).wf(),
            final(self).text() == old(self).text(),
            final(self).pos() >= old(self).pos(),
            value_outcome(r, array_at(old(self).text(), old(self).pos()), final(self).pos()),
        decreases old(self).text().len() - old(self).pos(), 0int,
    {
        match self.consume_check('[') {
            Err(e) => return Err(e),
            Ok(_) => {},
        }
        self.chop();
        let ghost s = self.text();
        let ghost first = self.pos();
        let mut expect_next = false;
        let mut result: Vec<JsonValue> = Vec::new();
        loop
            invariant
                self.wf(),
                self.text() == s,
                s == old(self).text(),
                self.pos() > old(self).pos(),
                expect_at(s, old(self).pos(), '[') is Ok,
                first == skip_ws(s, old(self).pos() + 1),
                array_items(s, first, false, Seq::empty()) == array_items(
                    s,
                    self.pos(),
                    expect_next,
                    view_items(result@),
                ),
            decreases s.len() - self.pos(),
        {
            if self.cursor >= self.chars.len() {
                return Err(JsonParserError::UnterminatedArray);
            }
            if self.chars[self.cursor] == ']' {
                if expect_next {
                    return Err(JsonParserError::ExpectedArrayEndOrSeparator);
                }
                self.cursor += 1;
                self.chop();
                return Ok(JsonValue::Array(result));
            }
            let ghost before = result@;
            let v = match self.parse_next() {
                Err(e) => return Err(e),
                Ok(v) => v,
            };
            result.push(v);
            assert(result@.drop_last() =~= before);
            self.chop();
            if self.cursor >= self.chars.len() {
                return Err(JsonParserError::UnterminatedArray);
            }
            let next = self.chars[self.cursor];
            self.cursor += 1;
            if next == ',' {
                expect_next = true;
                self.chop();
            } else if next == ']' {
                self.chop();
                return Ok(JsonValue::Array(result));
            } else {
                return Err(JsonParserError::ExpectedArrayEndOrSeparator);
            }
        }
    }

    /// Reads an object; a key given twice keeps the value given last.
    pub fn parse_object(&mut self) -> (r: Result<JsonValue, JsonParserError>)
        requires
            old(self).wf(),
        ensures
            final(self).wf(),
            final(self).text() == old(self).text(),
            final(self).pos() >= old(self).pos(),
            value_outcome(r, object_at(old(self).text(), old(self).pos()), final(self).pos()),
        decreases old(self).text().len() - old(self).pos(), 0int,
    {
        match self.consume_check('{') {
            Err(e) => return Err(e),
            Ok(_) => {},
        }
        self.chop();
        let ghost s = self.text();
        let ghost first = self.pos();
        let mut expect_next = false;
        let mut result: Vec<(String, JsonValue)> = Vec::new();
        loop
            invariant
                self.wf(),
                self.text() == s,
                s == old(self).text(),
                self.pos() > old(self).pos(),
                expect_at(s, old(self).pos(), '{') is Ok,
                first == skip_ws(s, old(self).pos() + 1),
                object_members(s, first, false, Seq::empty()) == object_members(
                    s,
                    self.pos(),
                    expect_next,
                    view_members(result@),
                ),
            decreases s.len() - self.pos(),
        {
            if self.cursor >= self.chars.len() {
                return Err(JsonParserError::UnterminatedObject);
            }
            if self.chars[self.cursor] == '}' {
                if expect_next {
                    return Err(JsonParserError::ExpectedObjectEndOrSeparator);
                }
                self.cursor += 1;
                return Ok(JsonValue::Object(result));
            }
            let key = match self.parse_string() {
                Err(e) => return Err(e),
                Ok(key) => key,
            };
            self.chop();
            match self.consume_check(':') {
                Err(e) => return Err(e),
                Ok(_) => {},
            }
            self.chop();
            let v = match self.parse_next() {
                Err(e) => return Err(e),
                Ok(v) => v,
            };
            insert_member_into(&mut result, key, v);
            self.chop();
            if self.cursor >= self.chars.len() {
                return Err(JsonParserError::UnterminatedObject);
            }
            let next = self.chars[self.cursor];
            self.cursor += 1;
            if next == ',' {
                expect_next = true;
                self.chop();
            } else if next == '}' {
                return Ok(JsonValue::Object(result));
            } else {
                return Err(JsonParserError::ExpectedObjectEndOrSeparator);
            }
        }
    }

    /// Reads a document: white space, then an object.
    pub fn parse(&mut self) -> (r: Result<JsonValue, JsonParserError>)
        requires
            old(self).wf(),
        ensures
            final(self).wf(),
            final(self).text() == old(self).text(),
            value_outcome(
                r,
                object_at(old(self).text(), skip_ws(old(self).text(), old(self).pos())),
                final(self).pos(),
            ),
    {
        self.chop();
        self.parse_object()
    }
}

} // verus!
