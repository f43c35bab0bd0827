//! JSON documents as plain values.
use vstd::prelude::*;

use serde_json::Value;

use crate::numeric::Double;
use crate::text::same_text;

verus! {

/// A JSON value. Arrays and objects carry their compact text, numbers the text,
/// the unsigned integer and the double that they stand for.
pub enum Json {
    Null,
    Bool(bool),
    Number { text: String, unsigned: Option<u64>, double: Option<Double> },
    Str(String),
    Array { text: String, items: Vec<Json> },
    Object { text: String, fields: Vec<(String, Json)> },
}

/// What a JSON value holds.
pub enum JsonView {
    Null,
    Bool(bool),
    Number { text: Seq<char>, unsigned: Option<u64>, double: Option<Double> },
    Str(Seq<char>),
    Array { text: Seq<char>, items: Seq<JsonView> },
    Object { text: Seq<char>, fields: Seq<(Seq<char>, JsonView)> },
}

impl View for Json {
    type V = JsonView;

    open spec fn view(&self) -> JsonView {
        self.tree()
    }
}

/// What each value holds.
pub open spec fn trees(items: Seq<Json>) -> Seq<JsonView> {
    items.map_values(|x: Json| x@)
}

/// What each field holds, under its name.
pub open spec fn field_trees(fields: Seq<(String, Json)>) -> Seq<(Seq<char>, JsonView)> {
    fields.map_values(|f: (String, Json)| (f.0@, f.1@))
}

/// What a document holds, where there is one.
pub open spec fn document_tree(document: Option<Json>) -> Option<JsonView> {
    match document {
        Some(v) => Some(v@),
        None => None,
    }
}

/// The tree of `serde_json`, carried from its parser to the takeover below.
#[verifier::external_type_specification]
#[verifier::external_body]
pub struct ExValue(Value);

/// What a tree of `serde_json` holds.
pub uninterp spec fn value_tree(v: Value) -> JsonView;

/// What the parser makes of a text; nothing where it is not one JSON document.
pub uninterp spec fn json_document(raw: Seq<char>) -> Option<JsonView>;

/// The text of a string as a JSON string, between quotes.
pub open spec fn json_quoted(s: Seq<char>) -> Seq<char> {
    seq!['"'] + escaped_text(s) + seq!['"']
}

/// The characters of a string, each as a JSON string shows it.
pub open spec fn escaped_text(s: Seq<char>) -> Seq<char>
    decreases s.len(),
{
    if s.len() == 0 {
        seq![]
    } else {
        escaped_text(s.drop_last()) + escaped(s.last())
    }
}

/// A character in a JSON string: quotes, backslashes and control characters are escaped,
/// by a letter where there is one for them and by their code otherwise.
pub open spec fn escaped(c: char) -> Seq<char> {
    if c == '"' || c == '\\' {
        seq!['\\', c]
    } else if c == '\u{8}' {
        seq!['\\', 'b']
    } else if c == '\t' {
        seq!['\\', 't']
    } else if c == '\n' {
        seq!['\\', 'n']
    } else if c == '\u{c}' {
        seq!['\\', 'f']
    } else if c == '\r' {
        seq!['\\', 'r']
    } else if (c as u32) < 0x20 {
        seq!['\\', 'u', '0', '0', hex_digit((c as u32) / 16), hex_digit((c as u32) % 16)]
    } else {
        seq![c]
    }
}

/// The digit for a number below sixteen.
pub open spec fn hex_digit(n: u32) -> char {
    if n < 10 {
        ('0' as u32 + n) as char
    } else {
        ('a' as u32 + n - 10) as char
    }
}

/// Calls `serde_json::from_str` for a `serde_json::Value`. Claims that whether it
/// succeeds, and what the tree then holds, depend on the text alone.
#[verifier::external_body]
fn parse_value(raw: &str) -> (r: Option<Value>)
    ensures
        match r {
            Some(v) => json_document(raw@) == Some(value_tree(v)),
            None => json_document(raw@) is None,
        },
{
    serde_json::from_str::<Value>(raw).ok()
}

/// Takes over a `serde_json::Value`, variant by variant, with what `Number`'s `as_u64`
/// and `as_f64` give and the texts of `Display`. Claims that the result depends on what
/// the value holds alone.
#[verifier::external_body]
fn take_over(v: &Value) -> (r: Json)
    ensures
        r@ == value_tree(*v),
{
    match v {
        Value::Null => Json::Null,
        Value::Bool(b) => Json::Bool(*b),
        Value::Number(n) => Json::Number { text: n.to_string(), unsigned: n.as_u64(),
            double: n.as_f64().map(|x| Double::from_bits(x.to_bits())) },
        Value::String(s) => Json::Str(s.clone()),
        Value::Array(a) => Json::Array { text: v.to_string(),
            items: a.iter().map(take_over).collect() },
        Value::Object(m) => Json::Object { text: v.to_string(),
            fields: m.iter().map(|(k, x)| (k.clone(), take_over(x))).collect() },
    }
}

/// Reads a text as one JSON document.
pub fn parse_json(raw: &str) -> (r: Option<Json>)
    ensures
        document_tree(r) == json_document(raw@),
{
    match parse_value(raw) {
        Some(v) => Some(take_over(&v)),
        None => None,
    }
}

/// Renders a string through `serde_json::Value`'s `Display`. Claims that the text is the
/// string between quotes, with its quotes, backslashes and control characters escaped and
/// every other character as it is.
#[verifier::external_body]
pub(crate) fn quote(s: &str) -> (r: String)
    ensures
        r@ == json_quoted(s@),
{
    Value::String(s.to_owned()).to_string()
}

impl JsonView {
    /// The value of a field; nothing where there is none or this is no object.
    pub open spec fn field(self, key: Seq<char>) -> Option<JsonView> {
        match self {
            JsonView::Object { fields, .. } => find(fields, key),
            _ => None,
        }
    }

    /// The text of a string field.
    pub open spec fn text_field(self, key: Seq<char>) -> Option<Seq<char>> {
        match self.field(key) {
            Some(JsonView::Str(s)) => Some(s),
            _ => None,
        }
    }

    /// The number of a numeric field.
    pub open spec fn number_field(self, key: Seq<char>) -> Option<Double> {
        match self.field(key) {
            Some(JsonView::Number { double, .. }) => double,
            _ => None,
        }
    }

    /// The unsigned integer of a numeric field.
    pub open spec fn count_field(self, key: Seq<char>) -> Option<u64> {
        match self.field(key) {
            Some(JsonView::Number { unsigned, .. }) => unsigned,
            _ => None,
        }
    }

    /// A flag; false where the field is anything else.
    pub open spec fn flag_field(self, key: Seq<char>) -> bool {
        self.field(key) == Some(JsonView::Bool(true))
    }

    /// The elements of an array field.
    pub open spec fn items_field(self, key: Seq<char>) -> Option<Seq<JsonView>> {
        match self.field(key) {
            Some(JsonView::Array { items, .. }) => Some(items),
            _ => None,
        }
    }

    /// The number that a string field reads as.
    pub open spec fn decimal_field(self, key: Seq<char>) -> Option<Double> {
        match self.text_field(key) {
            Some(s) => Double::reading(s),
            None => None,
        }
    }

    /// A number, or else what a string reads as.
    pub open spec fn number_or_decimal(self, key: Seq<char>) -> Option<Double> {
        match self.number_field(key) {
            Some(x) => Some(x),
            None => self.decimal_field(key),
        }
    }

    /// What a string reads as, or else a number.
    pub open spec fn decimal_or_number(self, key: Seq<char>) -> Option<Double> {
        match self.decimal_field(key) {
            Some(x) => Some(x),
            None => self.number_field(key),
        }
    }

    /// The compact text of a value that is no string; the characters of one that is.
    pub open spec fn plain_text(self) -> Seq<char> {
        match self {
            JsonView::Null => "null"@,
            JsonView::Bool(b) => if b {
                "true"@
            } else {
                "false"@
            },
            JsonView::Number { text, .. } => text,
            JsonView::Str(s) => s,
            JsonView::Array { text, .. } => text,
            JsonView::Object { text, .. } => text,
        }
    }
}

impl Json {
    /// What the value holds.
    pub open spec fn tree(self) -> JsonView
        decreases self,
    {
        match self {
            Json::Null => JsonView::Null,
            Json::Bool(b) => JsonView::Bool(b),
            Json::Number { text, unsigned, double } => JsonView::Number {
                text: text@,
                unsigned,
                double,
            },
            Json::Str(s) => JsonView::Str(s@),
            Json::Array { text, items } => JsonView::Array {
                text: text@,
                items: Seq::new(
                    items@.len(),
                    |i: int|
                        if 0 <= i < items@.len() {
                            items@[i].tree()
                        } else {
                            JsonView::Null
                        },
                ),
            },
            Json::Object { text, fields } => JsonView::Object {
                text: text@,
                fields: Seq::new(
                    fields@.len(),
                    |i: int|
                        if 0 <= i < fields@.len() {
                            (fields@[i].0@, fields@[i].1.tree())
                        } else {
                            (Seq::empty(), JsonView::Null)
                        },
                ),
            },
        }
    }

    /// The tree of an array holds the trees of its elements, and that of an object the
    /// trees of its fields.
    pub proof fn lemma_parts(&self)
        ensures
            self matches Json::Array { text, items } ==> self@ == (JsonView::Array {
                text: text@,
                items: trees(items@),
            }),
            self matches Json::Object { text, fields } ==> self@ == (JsonView::Object {
                text: text@,
                fields: field_trees(fields@),
            }),
    {
        match *self {
            Json::Array { text, items } => {
                assert(self@->Array_items =~= trees(items@));
            },
            Json::Object { text, fields } => {
                assert(self@->fields =~= field_trees(fields@));
            },
            _ => {},
        }
    }

    pub fn get(&self, key: &str) -> (r: Option<&Json>)
        ensures
            r is Some <==> self@.field(key@) is Some,
            r is Some ==> r->0@ == self@.field(key@)->0,
    {
        proof {
            self.lemma_parts();
        }
        match self {
            Json::Object { fields, .. } => lookup(fields, key),
            _ => None,
        }
    }

    pub fn get_text(&self, key: &str) -> (r: Option<&str>)
        ensures
            r is Some <==> self@.text_field(key@) is Some,
            r is Some ==> r->0@ == self@.text_field(key@)->0,
    {
        match self.get(key) {
            Some(Json::Str(s)) => Some(s.as_str()),
            _ => None,
        }
    }

    pub fn get_number(&self, key: &str) -> (r: Option<Double>)
        ensures
            r == self@.number_field(key@),
    {
        match self.get(key) {
            Some(Json::Number { double, .. }) => *double,
            _ => None,
        }
    }

    pub fn get_count(&self, key: &str) -> (r: Option<u64>)
        ensures
            r == self@.count_field(key@),
    {
        match self.get(key) {
            Some(Json::Number { unsigned, .. }) => *unsigned,
            _ => None,
        }
    }

    pub fn get_flag(&self, key: &str) -> (r: bool)
        ensures
            r == self@.flag_field(key@),
    {
        match self.get(key) {
            Some(Json::Bool(b)) => *b,
            _ => false,
        }
    }

    pub fn get_items(&self, key: &str) -> (r: Option<&Vec<Json>>)
        ensures
            r is Some <==> self@.items_field(key@) is Some,
            r is Some ==> trees(r->0@) == self@.items_field(key@)->0,
    {
        match self.get(key) {
            Some(v) => {
                proof {
                    v.lemma_parts();
                }
                match v {
                    Json::Array { items, .. } => Some(items),
                    _ => None,
                }
            },
            None => None,
        }
    }

    pub fn get_decimal(&self, key: &str) -> (r: Option<Double>)
        ensures
            r == self@.decimal_field(key@),
    {
        match self.get_text(key) {
            Some(s) => Double::parse(s),
            None => None,
        }
    }

    pub fn get_number_or_decimal(&self, key: &str) -> (r: Option<Double>)
        ensures
            r == self@.number_or_decimal(key@),
    {
        match self.get_number(key) {
            Some(x) => Some(x),
            None => self.get_decimal(key),
        }
    }

    pub fn get_decimal_or_number(&self, key: &str) -> (r: Option<Double>)
        ensures
            r == self@.decimal_or_number(key@),
    {
        match self.get_decimal(key) {
            Some(x) => Some(x),
            None => self.get_number(key),
        }
    }

    pub fn to_plain_text(&self) -> (r: String)
        ensures
            r@ == self@.plain_text(),
    {
        match self {
            Json::Null => "null".to_owned(),
            Json::Bool(b) => if *b {
                "true".to_owned()
            } else {
                "false".to_owned()
            },
            Json::Number { text, .. } => text.clone(),
            Json::Str(s) => s.clone(),
            Json::Array { text, .. } => text.clone(),
            Json::Object { text, .. } => text.clone(),
        }
    }
}

/// The first value under a key.
pub open spec fn find(fields: Seq<(Seq<char>, JsonView)>, key: Seq<char>) -> Option<JsonView>
    decreases fields.len(),
{
    if fields.len() == 0 {
        None
    } else if fields[0].0 == key {
        Some(fields[0].1)
    } else {
        find(fields.drop_first(), key)
    }
}

fn lookup<'a>(fields: &'a Vec<(String, Json)>, key: &str) -> (r: Option<&'a Json>)
    ensures
        r is Some <==> find(field_trees(fields@), key@) is Some,
        r is Some ==> r->0@ == find(field_trees(fields@), key@)->0,
{
    let ghost all = field_trees(fields@);
    let mut i: usize = 0;
    assert(all.skip(0) =~= all);
    while i < fields.len()
        invariant
            i <= fields@.len(),
            all == field_trees(fields@),
            find(all, key@) == find(all.skip(i as int), key@),
        decreases fields@.len() - i,
    {
        assert(all.skip(i as int).drop_first() =~= all.skip(i + 1));
        if same_text(fields[i].0.as_str(), key) {
            return Some(&fields[i].1);
        }
        i = i + 1;
    }
    None
}

/// The strings of an array that holds nothing else.
pub open spec fn strings(items: Seq<JsonView>) -> Option<Seq<Seq<char>>> {
    if forall|i: int| 0 <= i < items.len() ==> (#[trigger] items[i]) is Str {
        Some(items.map_values(|x: JsonView| x.plain_text()))
    } else {
        None
    }
}

/// The strings of a document that is an array of strings and nothing else.
pub open spec fn string_list(document: Option<JsonView>) -> Option<Seq<Seq<char>>> {
    match document {
        Some(JsonView::Array { items, .. }) => strings(items),
        _ => None,
    }
}

/// The characters of each text.
pub open spec fn views(texts: Seq<String>) -> Seq<Seq<char>> {
    texts.map_values(|s: String| s@)
}

/// The strings of an array, where it holds nothing else.
pub fn string_items(items: &Vec<Json>) -> (r: Option<Vec<String>>)
    ensures
        r is Some <==> strings(trees(items@)) is Some,
        r is Some ==> views(r->0@) == strings(trees(items@))->0,
{
    let ghost all = trees(items@);
    let mut out: Vec<String> = Vec::new();
    let mut i: usize = 0;
    while i < items.len()
        invariant
            i <= items@.len(),
            all == trees(items@),
            out@.len() == i,
            forall|j: int|
                0 <= j < i ==> (#[trigger] all[j]) is Str && out@[j]@ == all[j].plain_text(),
        decreases items@.len() - i,
    {
        assert(all[i as int] == items@[i as int]@);
        match &items[i] {
            Json::Str(s) => {
                out.push(s.clone());
            },
            _ => {
                return None;
            },
        }
        i = i + 1;
    }
    assert(views(out@) =~= all.map_values(|x: JsonView| x.plain_text()));
    Some(out)
}

/// Reads a text that holds a JSON array of strings.
pub fn parse_string_list(raw: &str) -> (r: Option<Vec<String>>)
    ensures
        r is Some <==> string_list(json_document(raw@)) is Some,
        r is Some ==> views(r->0@) == string_list(json_document(raw@))->0,
{
    match parse_json(raw) {
        Some(v) => {
            proof {
                v.lemma_parts();
            }
            match &v {
                Json::Array { items, .. } => string_items(items),
                _ => None,
            }
        },
        None => None,
    }
}

/// A field has the first value under its key, and there is one exactly where the key is.
pub proof fn law_field_is_the_first_of_its_key(
    fields: Seq<(Seq<char>, JsonView)>,
    key: Seq<char>,
    i: int,
)
    requires
        0 <= i < fields.len(),
        fields[i].0 == key,
        forall|j: int| 0 <= j < i ==> (#[trigger] fields[j]).0 != key,
    ensures
        find(fields, key) == Some(fields[i].1),
    decreases fields.len(),
{
    if i > 0 {
        let rest = fields.drop_first();
        assert(fields[0].0 != key);
        assert(forall|j: int| 0 <= j < rest.len() ==> rest[j] == fields[j + 1]);
        law_field_is_the_first_of_its_key(rest, key, i - 1);
    }
}

/// An object without a key has no such field.
pub proof fn law_absent_key_has_no_field(fields: Seq<(Seq<char>, JsonView)>, key: Seq<char>)
    requires
        forall|j: int| 0 <= j < fields.len() ==> (#[trigger] fields[j]).0 != key,
    ensures
        find(fields, key) is None,
    decreases fields.len(),
{
    if fields.len() > 0 {
        let rest = fields.drop_first();
        assert(fields[0].0 != key);
        assert(forall|j: int| 0 <= j < rest.len() ==> rest[j] == fields[j + 1]);
        law_absent_key_has_no_field(rest, key);
    }
}

} // verus!
