//! The wire representation of a response body: a JSON document, reduced to
//! what the protocol reads from it.

use json::JsonValue;
use vstd::prelude::*;
use vstd::string::*;

use crate::error::OmegalulError;
use crate::text::same_text;

verus! {

/// A JSON value as the protocol sees it. Numbers, booleans and `null` carry
/// nothing that the protocol reads and are all `Other`.
#[derive(Debug, PartialEq)]
pub enum Value {
    Text(String),
    List(Vec<Value>),
    Record(Vec<(String, Value)>),
    Other,
}

/// The mathematical model of a [`Value`].
pub enum Doc {
    Text(Seq<char>),
    List(Seq<Doc>),
    Record(Seq<(Seq<char>, Doc)>),
    Other,
}

/// The document that `value` stands for.
pub open spec fn model(value: Value) -> Doc
    decreases value,
{
    match value {
        Value::Text(text) => Doc::Text(text@),
        Value::List(items) => Doc::List(
            Seq::new(
                items@.len(),
                |i: int|
                    if 0 <= i < items@.len() {
                        model(items@[i])
                    } else {
                        Doc::Other
                    },
            ),
        ),
        Value::Record(fields) => Doc::Record(
            Seq::new(
                fields@.len(),
                |i: int|
                    if 0 <= i < fields@.len() {
                        (fields@[i].0@, model(fields@[i].1))
                    } else {
                        (Seq::empty(), Doc::Other)
                    },
            ),
        ),
        Value::Other => Doc::Other,
    }
}

impl View for Value {
    type V = Doc;

    open spec fn view(&self) -> Doc {
        model(*self)
    }
}

impl DeepView for Value {
    type V = Doc;

    open spec fn deep_view(&self) -> Doc {
        self.view()
    }
}

/// The value under the first field named `key`, if there is one.
pub open spec fn lookup(fields: Seq<(Seq<char>, Doc)>, key: Seq<char>) -> Option<Doc>
    decreases fields.len(),
{
    if fields.len() == 0 {
        None
    } else if fields[0].0 == key {
        Some(fields[0].1)
    } else {
        lookup(fields.drop_first(), key)
    }
}

/// The texts of `items`, where every one of them is a text.
pub open spec fn texts_of(items: Seq<Doc>) -> Option<Seq<Seq<char>>> {
    if forall|i: int| 0 <= i < items.len() ==> items[i] is Text {
        Some(Seq::new(items.len(), |i: int| items[i]->Text_0))
    } else {
        None
    }
}

impl Doc {
    /// The members of a list; no members for anything else.
    pub open spec fn items(self) -> Seq<Doc> {
        match self {
            Doc::List(items) => items,
            _ => Seq::empty(),
        }
    }

    /// The field `key` of a record; `None` where the record has no such field
    /// and for anything that is no record.
    pub open spec fn field(self, key: Seq<char>) -> Option<Doc> {
        match self {
            Doc::Record(fields) => lookup(fields, key),
            _ => None,
        }
    }
}

/// The most digits that the fraction of a number may have. The parser
/// counts the digits of a fraction in sixteen bits and cannot count further.
pub const MAX_DIGITS: usize = 32768;

/// Where a scan of a body stands with respect to its string literals.
#[derive(Debug, Clone, Copy, PartialEq, Eq, Structural)]
pub enum Lexing {
    /// Outside any string literal.
    Outside,
    /// Inside a string literal.
    Inside,
    /// Inside a string literal, just behind a backslash.
    Escaped,
}

/// Where a scan stands once it has passed `byte` in `state`: a double quote
/// opens a string literal and closes it again, and inside a literal a
/// backslash takes the byte behind it along, whatever it is.
pub open spec fn lex_step(state: Lexing, byte: u8) -> Lexing {
    match state {
        Lexing::Outside => if byte == 34 {
            Lexing::Inside
        } else {
            Lexing::Outside
        },
        Lexing::Inside => if byte == 34 {
            Lexing::Outside
        } else if byte == 92 {
            Lexing::Escaped
        } else {
            Lexing::Inside
        },
        Lexing::Escaped => Lexing::Inside,
    }
}

/// Where a scan stands once it has passed all of `bytes`.
pub open spec fn lex(bytes: Seq<u8>) -> Lexing
    decreases bytes.len(),
{
    if bytes.len() == 0 {
        Lexing::Outside
    } else {
        lex_step(lex(bytes.drop_last()), bytes.last())
    }
}

/// Whether `byte` is an ASCII digit.
pub open spec fn is_digit(byte: u8) -> bool {
    48 <= byte <= 57
}

/// Whether the `count` bytes of `bytes` from `start` on are all ASCII
/// digits.
pub open spec fn digits_at(bytes: Seq<u8>, start: int, count: int) -> bool {
    &&& 0 <= start
    &&& start + count <= bytes.len()
    &&& forall|k: int| start <= k < start + count ==> is_digit(#[trigger] bytes[k])
}

/// Whether a full stop stands at `dot`, outside any string literal, with
/// `count` ASCII digits right behind it.
pub open spec fn fraction_at(bytes: Seq<u8>, dot: int, count: int) -> bool {
    &&& 0 <= dot < bytes.len()
    &&& bytes[dot] == 46
    &&& lex(bytes.take(dot)) is Outside
    &&& digits_at(bytes, dot + 1, count)
}

/// Whether a full stop stands at `dot`, outside any string literal, with
/// nothing but ASCII digits between it and `end`.
pub open spec fn open_fraction(bytes: Seq<u8>, dot: int, end: int) -> bool {
    dot < end && fraction_at(bytes, dot, end - dot - 1)
}

/// Whether a fraction of more than `MAX_DIGITS` digits begins at `dot`.
pub open spec fn long_fraction_at(bytes: Seq<u8>, dot: int) -> bool {
    fraction_at(bytes, dot, MAX_DIGITS + 1)
}

/// Whether `bytes` holds, outside its string literals, a full stop with more
/// than `MAX_DIGITS` ASCII digits right behind it.
pub open spec fn has_long_fraction(bytes: Seq<u8>) -> bool {
    exists|dot: int| long_fraction_at(bytes, dot)
}

impl Lexing {
    /// Where a scan stands once it has passed `byte` in this state.
    pub fn step(self, byte: u8) -> (next: Lexing)
        ensures
            next == lex_step(self, byte),
    {
        match self {
            Lexing::Outside => if byte == 34 {
                Lexing::Inside
            } else {
                Lexing::Outside
            },
            Lexing::Inside => if byte == 34 {
                Lexing::Outside
            } else if byte == 92 {
                Lexing::Escaped
            } else {
                Lexing::Inside
            },
            Lexing::Escaped => Lexing::Inside,
        }
    }
}

/// Whether `bytes` holds, outside its string literals, a full stop with more
/// than `MAX_DIGITS` ASCII digits right behind it.
pub fn long_fraction(bytes: &[u8]) -> (found: bool)
    ensures
        found == has_long_fraction(bytes@),
{
    let mut state = Lexing::Outside;
    let mut counting = false;
    let mut run: usize = 0;
    let mut at: usize = 0;
    while at < bytes.len()
        invariant
            at <= bytes.len(),
            state == lex(bytes@.take(at as int)),
            counting ==> run < at && run <= MAX_DIGITS && fraction_at(
                bytes@,
                at - run - 1,
                run as int,
            ),
            forall|dot: int| #[trigger]
                open_fraction(bytes@, dot, at as int) ==> counting && dot == at - run - 1,
            forall|dot: int| dot + MAX_DIGITS + 2 <= at ==> !long_fraction_at(bytes@, dot),
        decreases bytes.len() - at,
    {
        let byte = bytes[at];
        let ghost was_counting = counting;
        let ghost old_run = run;
        let outside = match state {
            Lexing::Outside => true,
            _ => false,
        };
        if counting && 48 <= byte && byte <= 57 {
            if run == MAX_DIGITS {
                assert(long_fraction_at(bytes@, at - MAX_DIGITS - 1));
                return true;
            }
            run = run + 1;
        } else if outside && byte == 46 {
            counting = true;
            run = 0;
        } else {
            counting = false;
            run = 0;
        }
        state = state.step(byte);
        at = at + 1;
        proof {
            assert(bytes@.take(at as int).drop_last() =~= bytes@.take(at - 1));
            assert(bytes@.take(at as int).last() == byte);
            assert forall|dot: int| #[trigger]
                open_fraction(bytes@, dot, at as int) implies counting && dot == at - run - 1 by {
                if dot < at - 1 {
                    assert(is_digit(bytes@[at - 1]));
                    assert(open_fraction(bytes@, dot, at - 1));
                }
            }
            assert forall|dot: int| dot + MAX_DIGITS + 2 <= at implies !long_fraction_at(
                bytes@,
                dot,
            ) by {
                if dot + MAX_DIGITS + 2 == at && long_fraction_at(bytes@, dot) {
                    assert(is_digit(bytes@[at - 1]));
                    assert(open_fraction(bytes@, dot, at - 1));
                    assert(was_counting && old_run == MAX_DIGITS);
                }
            }
        }
    }
    false
}

/// `json::JsonValue`: a parsed JSON document.
#[verifier::external_type_specification]
#[verifier::external_body]
pub struct ExJsonValue(JsonValue);

/// What `json::parse` makes of `text`: the document, or `None` where it
/// rejects the text. It says nothing of a text with a fraction of more than
/// `MAX_DIGITS` digits, which is never handed to the parser.
pub uninterp spec fn parsed_document(text: Seq<char>) -> Option<Doc>;

/// What a `JsonValue` holds: its strings, short or long, as `Text`; its arrays
/// as `List`, member by member; its objects as `Record`, entry by entry in
/// the object's own order; `null`, numbers and booleans as `Other`.
pub uninterp spec fn document_of(value: JsonValue) -> Doc;

/// `json::parse`: parses `text` as one JSON document. The parser counts the
/// digits of a fraction in an `i16` without a check, so a text in which a
/// full stop outside the string literals is followed by more than
/// `MAX_DIGITS` digits is left out. Up to the first byte that it rejects the
/// parser opens and closes string literals as [`lex`] does.
#[verifier::external_body]
fn parse_value(text: &str) -> (parsed: Result<JsonValue, json::Error>)
    requires
        !has_long_fraction(text.spec_bytes()),
    ensures
        match parsed {
            Ok(value) => parsed_document(text@) == Some(document_of(value)),
            Err(_) => parsed_document(text@) is None,
        },
{
    json::parse(text)
}

/// Copies what a `JsonValue` holds into a [`Value`], variant by variant.
#[verifier::external_body]
fn read_value(value: &JsonValue) -> (copy: Value)
    ensures
        copy@ == document_of(*value),
{
    match value {
        JsonValue::Short(text) => Value::Text(text.as_str().to_string()),
        JsonValue::String(text) => Value::Text(text.clone()),
        JsonValue::Array(items) => Value::List(items.iter().map(read_value).collect()),
        JsonValue::Object(fields) => Value::Record(
            fields.iter().map(|(key, item)| (key.to_string(), read_value(item))).collect(),
        ),
        JsonValue::Null | JsonValue::Number(_) | JsonValue::Boolean(_) => Value::Other,
    }
}

/// Parses a response body. A body that holds a number with a fraction of
/// more than `MAX_DIGITS` digits is refused unread. Digits inside a string
/// literal are never counted.
pub fn parse(text: &str) -> (parsed: Result<Value, OmegalulError>)
    ensures
        if has_long_fraction(text.spec_bytes()) {
            parsed matches Err(OmegalulError::DigitsError)
        } else {
            match parsed_document(text@) {
                Some(doc) => parsed matches Ok(value) && value@ == doc,
                None => parsed matches Err(OmegalulError::JsonError(_)),
            }
        },
{
    if long_fraction(text.as_bytes()) {
        return Err(OmegalulError::DigitsError);
    }
    match parse_value(text) {
        Ok(value) => Ok(read_value(&value)),
        Err(err) => Err(OmegalulError::from(err)),
    }
}

/// The members of a list; no members for anything else.
pub fn as_array(value: &Value) -> (items: &[Value])
    ensures
        items.deep_view() == value@.items(),
{
    match value {
        Value::List(items) => {
            assert(items.deep_view() =~= value@.items());
            items.as_slice()
        },
        _ => {
            let none: &[Value] = &[];
            none
        },
    }
}

/// The texts of `items`, where every one of them is a text.
pub fn texts(items: &Vec<Value>) -> (found: Option<Vec<String>>)
    ensures
        match found {
            Some(texts) => texts_of(items.deep_view()) == Some(texts.deep_view()),
            None => texts_of(items.deep_view()) is None,
        },
{
    let mut found: Vec<String> = Vec::new();
    let mut at: usize = 0;
    while at < items.len()
        invariant
            at <= items.len(),
            found.len() == at,
            forall|i: int| 0 <= i < at ==> items[i]@ == Doc::Text(#[trigger] found[i]@),
        decreases items.len() - at,
    {
        match &items[at] {
            Value::Text(text) => {
                found.push(text.clone());
            },
            _ => {
                assert(!(items.deep_view()[at as int] is Text));
                return None;
            },
        }
        at = at + 1;
    }
    proof {
        let docs = items.deep_view();
        assert forall|i: int| 0 <= i < docs.len() implies docs[i] is Text by {
            assert(items[i]@ == Doc::Text(found[i]@));
        }
        assert(texts_of(docs)->Some_0 =~= found.deep_view());
    }
    Some(found)
}

impl Value {
    /// The field `key` of a record.
    pub fn field(&self, key: &str) -> (found: Option<&Value>)
        ensures
            match found {
                Some(value) => self@.field(key@) == Some(value@),
                None => self@.field(key@) is None,
            },
    {
        match self {
            Value::Record(fields) => {
                let ghost all = self@->Record_0;
                assert(all.skip(0) =~= all);
                let mut at: usize = 0;
                while at < fields.len()
                    invariant
                        at <= fields.len(),
                        self@ == Doc::Record(all),
                        all.len() == fields.len(),
                        forall|i: int| 0 <= i < fields.len() ==> all[i] == (fields[i].0@, fields[i].1@),
                        lookup(all, key@) == lookup(all.skip(at as int), key@),
                    decreases fields.len() - at,
                {
                    if same_text(&fields[at].0, key) {
                        return Some(&fields[at].1);
                    }
                    assert(all.skip(at as int).drop_first() =~= all.skip(at as int + 1));
                    at = at + 1;
                }
                None
            },
            _ => None,
        }
    }
}

} // verus!
