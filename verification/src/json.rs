//! JSON documents.
use crate::num;
use crate::num::Scalar;
use crate::text;
use vstd::prelude::*;

verus! {

/// A JSON document. Numbers are kept in their decimal notation.
#[derive(Debug)]
pub enum Json {
    Null,
    Bool(bool),
    Number(String),
    Text(String),
    Array(Vec<Json>),
    Object(Vec<(String, Json)>),
}

/// A document with its texts and lists as sequences.
pub ghost enum JsonView {
    Null,
    Bool(bool),
    Number(Seq<char>),
    Text(Seq<char>),
    Array(Seq<JsonView>),
    Object(Seq<(Seq<char>, JsonView)>),
}

/// The document without its containers.
pub open spec fn shape(j: Json) -> JsonView
    decreases j,
{
    match j {
        Json::Null => JsonView::Null,
        Json::Bool(b) => JsonView::Bool(b),
        Json::Number(s) => JsonView::Number(s@),
        Json::Text(s) => JsonView::Text(s@),
        Json::Array(v) => JsonView::Array(
            Seq::new(
                v@.len(),
                |i: int|
                    if 0 <= i < v@.len() {
                        shape(v@[i])
                    } else {
                        JsonView::Null
                    },
            ),
        ),
        Json::Object(v) => JsonView::Object(
            Seq::new(
                v@.len(),
                |i: int|
                    if 0 <= i < v@.len() {
                        (v@[i].0@, shape(v@[i].1))
                    } else {
                        (Seq::empty(), JsonView::Null)
                    },
            ),
        ),
    }
}

impl View for Json {
    type V = JsonView;

    open spec fn view(&self) -> JsonView {
        shape(*self)
    }
}

/// The documents of a list.
pub open spec fn documents(v: Seq<Json>) -> Seq<JsonView> {
    Seq::new(v.len(), |i: int| v[i]@)
}

// ---------------------------------------------------------------------------
// Reading a document
// ---------------------------------------------------------------------------
/// What the first of the entries with a key holds.
pub open spec fn lookup(v: Seq<(Seq<char>, JsonView)>, key: Seq<char>) -> Option<JsonView>
    decreases v.len(),
{
    if v.len() == 0 {
        None
    } else if v[0].0 == key {
        Some(v[0].1)
    } else {
        lookup(v.drop_first(), key)
    }
}

/// What an object holds under a key.
pub open spec fn field(j: JsonView, key: Seq<char>) -> Option<JsonView> {
    match j {
        JsonView::Object(v) => lookup(v, key),
        _ => None,
    }
}

/// What is held under a key of what may be there.
pub open spec fn then_field(j: Option<JsonView>, key: Seq<char>) -> Option<JsonView> {
    match j {
        Some(x) => field(x, key),
        None => None,
    }
}

/// An item of a list.
pub open spec fn item(j: JsonView, i: int) -> Option<JsonView> {
    match j {
        JsonView::Array(v) => if 0 <= i < v.len() {
            Some(v[i])
        } else {
            None
        },
        _ => None,
    }
}

/// An item of what may be there.
pub open spec fn then_item(j: Option<JsonView>, i: int) -> Option<JsonView> {
    match j {
        Some(x) => item(x, i),
        None => None,
    }
}

/// What is there and is not null.
pub open spec fn present(j: Option<JsonView>) -> Option<JsonView> {
    match j {
        Some(JsonView::Null) => None,
        x => x,
    }
}

/// The text that a document is.
pub open spec fn as_text(j: JsonView) -> Option<Seq<char>> {
    match j {
        JsonView::Text(s) => Some(s),
        _ => None,
    }
}

/// The list that a document is.
pub open spec fn as_items(j: JsonView) -> Option<Seq<JsonView>> {
    match j {
        JsonView::Array(v) => Some(v),
        _ => None,
    }
}

/// The number that a document is.
pub open spec fn as_scalar<N: Scalar>(j: JsonView) -> Option<N> {
    match j {
        JsonView::Number(s) => N::denoted(s),
        _ => None,
    }
}

/// The integer that a document is, within the range of `i64`.
pub open spec fn as_integer(j: JsonView) -> Option<int> {
    match j {
        JsonView::Number(s) => text::integer_within(s, i64::MIN as int, i64::MAX as int),
        _ => None,
    }
}

/// The natural number that a document is, within the range of `u64`.
pub open spec fn as_natural(j: JsonView) -> Option<int> {
    match j {
        JsonView::Number(s) => text::integer_within(s, 0, u64::MAX as int),
        _ => None,
    }
}

/// The text under a key, or none.
pub open spec fn text_field(j: JsonView, key: Seq<char>) -> Option<Seq<char>> {
    match field(j, key) {
        Some(x) => as_text(x),
        None => None,
    }
}

/// The text under a key, or an empty one.
pub open spec fn text_or_empty(j: JsonView, key: Seq<char>) -> Seq<char> {
    match text_field(j, key) {
        Some(s) => s,
        None => Seq::empty(),
    }
}

/// The number under a key, or none.
pub open spec fn scalar_field<N: Scalar>(j: JsonView, key: Seq<char>) -> Option<N> {
    match field(j, key) {
        Some(x) => as_scalar(x),
        None => None,
    }
}

/// The integer under a key, or none.
pub open spec fn integer_field(j: JsonView, key: Seq<char>) -> Option<int> {
    match field(j, key) {
        Some(x) => as_integer(x),
        None => None,
    }
}

/// The number under a key, or zero.
pub open spec fn scalar_or_zero<N: Scalar>(j: JsonView, key: Seq<char>) -> N {
    match scalar_field::<N>(j, key) {
        Some(v) => v,
        None => num::nil::<N>(),
    }
}

/// The list under a key of what may be there, or an empty one.
pub open spec fn items_or_empty(j: Option<JsonView>, key: Seq<char>) -> Seq<JsonView> {
    match then_field(j, key) {
        Some(x) => match as_items(x) {
            Some(v) => v,
            None => Seq::empty(),
        },
        None => Seq::empty(),
    }
}

/// A reference to a document that may be missing, as what it refers to.
pub open spec fn seen(j: Option<&Json>) -> Option<JsonView> {
    match j {
        Some(x) => Some(x@),
        None => None,
    }
}

impl Json {
    /// What an object holds under a key.
    pub fn get(&self, key: &str) -> (r: Option<&Json>)
        ensures
            seen(r) == field(self@, key@),
    {
        match self {
            Json::Object(v) => {
                let ghost s = self@->Object_0;
                let mut i: usize = 0;
                assert(s.skip(0) =~= s);
                while i < v.len()
                    invariant
                        s.len() == v@.len(),
                        forall|k: int|
                            0 <= k < s.len() ==> (#[trigger] s[k]) == (v@[k].0@, v@[k].1@),
                        i <= v@.len(),
                        lookup(s.skip(i as int), key@) == lookup(s, key@),
                        self@ == JsonView::Object(s),
                    decreases v@.len() - i,
                {
                    assert(s.skip(i as int)[0] == s[i as int]);
                    assert(s.skip(i as int).drop_first() =~= s.skip(i + 1));
                    if text::same(v[i].0.as_str(), key) {
                        return Some(&v[i].1);
                    }
                    i += 1;
                }
                None
            },
            _ => None,
        }
    }

    /// An item of a list.
    pub fn at(&self, i: usize) -> (r: Option<&Json>)
        ensures
            seen(r) == item(self@, i as int),
    {
        match self {
            Json::Array(v) => {
                if i < v.len() {
                    assert(self@->Array_0[i as int] == v@[i as int]@);
                    Some(&v[i])
                } else {
                    None
                }
            },
            _ => None,
        }
    }

    /// The items of a list.
    pub fn items(&self) -> (r: Option<&Vec<Json>>)
        ensures
            match r {
                Some(v) => as_items(self@) == Some(documents(v@)),
                None => as_items(self@) is None,
            },
    {
        match self {
            Json::Array(v) => {
                assert(self@->Array_0 =~= documents(v@));
                Some(v)
            },
            _ => None,
        }
    }

    pub fn is_null(&self) -> (r: bool)
        ensures
            r == (self@ == JsonView::Null),
    {
        match self {
            Json::Null => true,
            _ => false,
        }
    }

    /// The text that the document is.
    pub fn as_str(&self) -> (r: Option<&str>)
        ensures
            match r {
                Some(s) => as_text(self@) == Some(s@),
                None => as_text(self@) is None,
            },
    {
        match self {
            Json::Text(s) => Some(s.as_str()),
            _ => None,
        }
    }

    /// The number that the document is.
    pub fn as_num<N: Scalar>(&self) -> (r: Option<N>)
        ensures
            r == as_scalar::<N>(self@),
    {
        match self {
            Json::Number(s) => N::parse(s.as_str()),
            _ => None,
        }
    }

    /// The integer that the document is.
    pub fn as_i64(&self) -> (r: Option<i64>)
        ensures
            match r {
                Some(n) => as_integer(self@) == Some(n as int),
                None => as_integer(self@) is None,
            },
    {
        match self {
            Json::Number(s) => text::parse_int(s.as_str()),
            _ => None,
        }
    }

    /// The natural number that the document is.
    pub fn as_u64(&self) -> (r: Option<u64>)
        ensures
            match r {
                Some(n) => as_natural(self@) == Some(n as int),
                None => as_natural(self@) is None,
            },
    {
        match self {
            Json::Number(s) => text::parse_natural(s.as_str()),
            _ => None,
        }
    }

    /// What an object holds under a key, unless it is null.
    pub fn get_present(&self, key: &str) -> (r: Option<&Json>)
        ensures
            seen(r) == present(field(self@, key@)),
    {
        match self.get(key) {
            Some(x) => if x.is_null() {
                None
            } else {
                Some(x)
            },
            None => None,
        }
    }

    /// The text under a key.
    pub fn str_field(&self, key: &str) -> (r: Option<&str>)
        ensures
            match r {
                Some(s) => text_field(self@, key@) == Some(s@),
                None => text_field(self@, key@) is None,
            },
    {
        match self.get(key) {
            Some(x) => x.as_str(),
            None => None,
        }
    }

    /// The text under a key, or an empty one.
    pub fn str_or_empty(&self, key: &str) -> (r: String)
        ensures
            r@ == text_or_empty(self@, key@),
    {
        match self.str_field(key) {
            Some(s) => s.to_owned(),
            None => {
                let r = String::new();
                assert(r@ =~= Seq::<char>::empty());
                r
            },
        }
    }

    /// The number under a key.
    pub fn num_field<N: Scalar>(&self, key: &str) -> (r: Option<N>)
        ensures
            r == scalar_field::<N>(self@, key@),
    {
        match self.get(key) {
            Some(x) => x.as_num(),
            None => None,
        }
    }

    /// The number under a key, or zero.
    pub fn num_or_zero<N: Scalar>(&self, key: &str) -> (r: N)
        ensures
            r == scalar_or_zero::<N>(self@, key@),
    {
        match self.num_field(key) {
            Some(v) => v,
            None => num::zero::<N>(),
        }
    }

    /// The list under a key.
    pub fn items_field(&self, key: &str) -> (r: Option<&Vec<Json>>)
        ensures
            items_or_empty(Some(self@), key@) == (match r {
                Some(v) => documents(v@),
                None => Seq::empty(),
            }),
    {
        match self.get(key) {
            Some(x) => x.items(),
            None => None,
        }
    }

    /// The integer under a key.
    pub fn int_field(&self, key: &str) -> (r: Option<i64>)
        ensures
            match r {
                Some(n) => integer_field(self@, key@) == Some(n as int),
                None => integer_field(self@, key@) is None,
            },
    {
        match self.get(key) {
            Some(x) => x.as_i64(),
            None => None,
        }
    }
}

// ---------------------------------------------------------------------------
// Parsing
// ---------------------------------------------------------------------------
/// A document of the parser.
#[verifier::external_type_specification]
#[verifier::external_body]
pub struct ExValue(serde_json::Value);

/// The document that a `serde_json::Value` holds.
pub uninterp spec fn tree_of(v: serde_json::Value) -> JsonView;

/// A document of the parser as one of this library, variant by variant; numbers by their
/// `Display`, which writes an integer without a point and any other number in the shortest
/// notation that reads back as the same number.
#[verifier::external_body]
fn tree(v: &serde_json::Value) -> (r: Json)
    ensures
        r@ == tree_of(*v),
{
    match v {
        serde_json::Value::Null => Json::Null,
        serde_json::Value::Bool(b) => Json::Bool(*b),
        serde_json::Value::Number(n) => Json::Number(n.to_string()),
        serde_json::Value::String(s) => Json::Text(s.clone()),
        serde_json::Value::Array(a) => Json::Array(a.iter().map(tree).collect()),
        serde_json::Value::Object(o) => Json::Object(
            o.iter().map(|(k, v)| (k.clone(), tree(v))).collect(),
        ),
    }
}

/// The document that a text is, as `serde_json::from_str` reads it into a
/// `serde_json::Value`; none where it is refused.
pub uninterp spec fn json_of(s: Seq<char>) -> Option<JsonView>;

/// `serde_json::from_str` into a `serde_json::Value`: the document that a text is, or none
/// where the text is no JSON document. Which text is which document is only named.
#[verifier::external_body]
fn from_str(s: &str) -> (r: Option<serde_json::Value>)
    ensures
        (match r {
            Some(v) => Some(tree_of(v)),
            None => None,
        }) == json_of(s@),
{
    serde_json::from_str(s).ok()
}

/// A hexadecimal digit.
pub open spec fn hex_digit(n: int) -> char {
    if n < 10 {
        ('0' as int + n) as char
    } else {
        ('a' as int + n - 10) as char
    }
}

/// A character as it stands in a text of a JSON document.
pub open spec fn escaped(c: char) -> Seq<char> {
    let n = c as int;
    if c == '"' || c == '\\' {
        seq!['\\', c]
    } else if n >= 0x20 {
        seq![c]
    } else if n == 0x08 {
        seq!['\\', 'b']
    } else if n == 0x09 {
        seq!['\\', 't']
    } else if n == 0x0a {
        seq!['\\', 'n']
    } else if n == 0x0c {
        seq!['\\', 'f']
    } else if n == 0x0d {
        seq!['\\', 'r']
    } else {
        seq!['\\', 'u', '0', '0', hex_digit(n / 16), hex_digit(n % 16)]
    }
}

/// The characters of a text, one after the other, as they stand in a JSON document.
pub open spec fn all_escaped(s: Seq<char>) -> Seq<char>
    decreases s.len(),
{
    if s.len() == 0 {
        Seq::empty()
    } else {
        all_escaped(s.drop_last()) + escaped(s.last())
    }
}

/// `Display` of a `serde_json::Value` that is a text: the text between quotation marks, in
/// which quotation marks, backslashes and control characters are escaped.
#[verifier::external_body]
fn quoted(s: &str) -> (r: String)
    ensures
        r@ == seq!['"'] + all_escaped(s@) + seq!['"'],
{
    serde_json::Value::String(s.to_owned()).to_string()
}

/// The notation of a document that is a number or a text.
pub open spec fn notation(j: JsonView) -> Option<Seq<char>> {
    match j {
        JsonView::Number(s) => Some(s),
        JsonView::Text(s) => Some(seq!['"'] + all_escaped(s) + seq!['"']),
        _ => None,
    }
}

impl Json {
    /// The notation of a document that is a number or a text.
    pub fn show(&self) -> (r: Option<String>)
        ensures
            text::text_option(r) == notation(self@),
    {
        match self {
            Json::Number(s) => Some(s.clone()),
            Json::Text(s) => Some(quoted(s.as_str())),
            _ => None,
        }
    }
}

/// The document that a text is; none where it is no JSON document.
pub fn parse(s: &str) -> (r: Option<Json>)
    ensures
        (match r {
            Some(j) => Some(j@),
            None => None,
        }) == json_of(s@),
{
    match from_str(s) {
        Some(v) => Some(tree(&v)),
        None => None,
    }
}

} // verus!
