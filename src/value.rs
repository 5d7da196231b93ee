//! Parsed values and parse errors, with their mathematical models.
use vstd::prelude::*;

verus! {

/// The model of a parsed value. A number is kept as the numeral that was read;
/// an object is its list of members, each key at most once.
pub enum Json {
    Null,
    Bool(bool),
    Number(Seq<char>),
    Str(Seq<char>),
    Array(Seq<Json>),
    Object(Seq<(Seq<char>, Json)>),
}

/// A parsed value.
#[derive(Debug, PartialEq)]
pub enum JsonValue {
    Null,
    Bool(bool),
    /// The numeral as written: decimal digits with at most one `.` among them.
    Number(String),
    String(String),
    Array(Vec<JsonValue>),
    /// Members in the order in which their keys first appeared; keys are unique.
    Object(Vec<(String, JsonValue)>),
}

impl JsonValue {
    pub open spec fn view(self) -> Json
        decreases self,
    {
        match self {
            JsonValue::Null => Json::Null,
            JsonValue::Bool(b) => Json::Bool(b),
            JsonValue::Number(t) => Json::Number(t@),
            JsonValue::String(t) => Json::Str(t@),
            JsonValue::Array(items) => Json::Array(view_items(items@)),
            JsonValue::Object(members) => Json::Object(view_members(members@)),
        }
    }
}

/// The models of a sequence of values.
pub open spec fn view_items(items: Seq<JsonValue>) -> Seq<Json>
    decreases items,
{
    if items.len() == 0 {
        Seq::empty()
    } else {
        view_items(items.drop_last()).push(items.last().view())
    }
}

/// The models of a sequence of members.
pub open spec fn view_members(members: Seq<(String, JsonValue)>) -> Seq<(Seq<char>, Json)>
    decreases members,
{
    if members.len() == 0 {
        Seq::empty()
    } else {
        view_members(members.drop_last()).push((members.last().0@, members.last().1.view()))
    }
}

pub proof fn lemma_view_members(members: Seq<(String, JsonValue)>)
    ensures
        view_members(members).len() == members.len(),
        forall|j: int|
            0 <= j < members.len() ==> #[trigger] view_members(members)[j] == (
                members[j].0@,
                members[j].1@,
            ),
    decreases members.len(),
{
    if members.len() > 0 {
        lemma_view_members(members.drop_last());
    }
}

/// The model of a parse error.
pub enum ErrorView {
    EndOfInput,
    UnexpectedCharacter { expected: char, got: char },
    InvalidNumber(Seq<char>),
    UnterminatedString,
    UnterminatedArray,
    UnterminatedObject,
    UnrecognizedLiteral,
    UnrecognizedToken,
    ExpectedArrayEndOrSeparator,
    ExpectedObjectEndOrSeparator,
}

/// Why a document was refused: the first defect met while reading it.
#[derive(Debug, PartialEq)]
pub enum JsonParserError {
    /// A character was needed past the end of the input.
    EndOfInput,
    /// A required character did not match the one found.
    UnexpectedCharacter { expected: char, got: char },
    /// A numeral with a second decimal point (the text read up to and with it), or an empty one.
    InvalidNumber(String),
    /// The input ended before the closing quote of a string.
    UnterminatedString,
    /// The input ended before the closing `]` of an array.
    UnterminatedArray,
    /// The input ended before the closing `}` of an object.
    UnterminatedObject,
    /// A bare word other than `null`, `true` and `false`.
    UnrecognizedLiteral,
    /// The next significant character starts no value.
    UnrecognizedToken,
    /// After an array element neither `,` nor `]`, or a `,` just before `]`.
    ExpectedArrayEndOrSeparator,
    /// After an object member neither `,` nor `}`, or a `,` just before `}`.
    ExpectedObjectEndOrSeparator,
}

impl JsonParserError {
    pub open spec fn view(self) -> ErrorView {
        match self {
            JsonParserError::EndOfInput => ErrorView::EndOfInput,
            JsonParserError::UnexpectedCharacter { expected, got } => ErrorView::UnexpectedCharacter {
                expected,
                got,
            },
            JsonParserError::InvalidNumber(t) => ErrorView::InvalidNumber(t@),
            JsonParserError::UnterminatedString => ErrorView::UnterminatedString,
            JsonParserError::UnterminatedArray => ErrorView::UnterminatedArray,
            JsonParserError::UnterminatedObject => ErrorView::UnterminatedObject,
            JsonParserError::UnrecognizedLiteral => ErrorView::UnrecognizedLiteral,
            JsonParserError::UnrecognizedToken => ErrorView::UnrecognizedToken,
            JsonParserError::ExpectedArrayEndOrSeparator => ErrorView::ExpectedArrayEndOrSeparator,
            JsonParserError::ExpectedObjectEndOrSeparator => ErrorView::ExpectedObjectEndOrSeparator,
        }
    }
}

} // verus!
