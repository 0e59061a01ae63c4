//! A plain model of JSON values: what the caption and metadata rules read.

use vstd::prelude::*;
use crate::text::text_eq;

verus! {

/// A JSON value. A number is held as the text of its literal; an object as its members
/// in order.
#[derive(Debug, PartialEq, Eq)]
pub enum JsonValue {
    /// `null`.
    Null,
    /// `true` or `false`.
    Bool(bool),
    /// A number, as the text of its literal.
    Number(String),
    /// A string.
    String(String),
    /// An array.
    Array(Vec<JsonValue>),
    /// An object: member names with their values.
    Object(Vec<(String, JsonValue)>),
}

/// The mathematical form of a JSON value.
pub enum Json {
    /// `null`.
    Null,
    /// `true` or `false`.
    Bool(bool),
    /// A number, as the text of its literal.
    Number(Seq<char>),
    /// A string.
    String(Seq<char>),
    /// An array.
    Array(Seq<Json>),
    /// An object: member names with their values.
    Object(Seq<(Seq<char>, Json)>),
}

/// The mathematical forms of the values of `items`, in order.
pub open spec fn models(items: Seq<JsonValue>) -> Seq<Json>
    decreases items,
{
    if items.len() == 0 {
        Seq::empty()
    } else {
        models(items.drop_last()).push(items.last().model())
    }
}

/// The mathematical forms of the members of an object, in order.
pub open spec fn member_models(members: Seq<(String, JsonValue)>) -> Seq<(Seq<char>, Json)>
    decreases members,
{
    if members.len() == 0 {
        Seq::empty()
    } else {
        member_models(members.drop_last()).push((members.last().0@, members.last().1.model()))
    }
}

impl JsonValue {
    /// The mathematical form of the value.
    pub open spec fn model(self) -> Json
        decreases self,
    {
        match self {
            JsonValue::Null => Json::Null,
            JsonValue::Bool(b) => Json::Bool(b),
            JsonValue::Number(n) => Json::Number(n@),
            JsonValue::String(s) => Json::String(s@),
            JsonValue::Array(items) => Json::Array(models(items@)),
            JsonValue::Object(members) => Json::Object(member_models(members@)),
        }
    }
}

impl View for JsonValue {
    type V = Json;

    open spec fn view(&self) -> Json {
        self.model()
    }
}

/// The forms of a list of values are as many as the values, each the form of its value.
pub proof fn lemma_models(items: Seq<JsonValue>)
    ensures
        models(items).len() == items.len(),
        forall|i: int| 0 <= i < items.len() ==> models(items)[i] == (#[trigger] items[i]).model(),
    decreases items.len(),
{
    if items.len() > 0 {
        let head = items.drop_last();
        lemma_models(head);
        assert forall|i: int| 0 <= i < items.len() implies models(items)[i] == (
            #[trigger] items[i]).model() by {
            if i < head.len() {
                assert(head[i] == items[i]);
            }
        }
    }
}

/// The forms of the members of an object are as many as the members, each with the name
/// and the form of its member.
pub proof fn lemma_member_models(members: Seq<(String, JsonValue)>)
    ensures
        member_models(members).len() == members.len(),
        forall|i: int|
            0 <= i < members.len() ==> member_models(members)[i] == (
                (#[trigger] members[i]).0@,
                members[i].1.model(),
            ),
    decreases members.len(),
{
    if members.len() > 0 {
        let head = members.drop_last();
        lemma_member_models(head);
        assert forall|i: int| 0 <= i < members.len() implies member_models(members)[i] == (
            (#[trigger] members[i]).0@,
            members[i].1.model(),
        ) by {
            if i < head.len() {
                assert(head[i] == members[i]);
            }
        }
    }
}

/// The value of the last member named `key` among the first `upto` members.
pub open spec fn member(members: Seq<(Seq<char>, Json)>, key: Seq<char>, upto: int) -> Option<Json>
    decreases upto,
{
    if upto <= 0 || upto > members.len() {
        None
    } else if members[upto - 1].0 == key {
        Some(members[upto - 1].1)
    } else {
        member(members, key, upto - 1)
    }
}

/// The texts of the strings among `items`, in order; other values are passed over.
pub open spec fn string_items(items: Seq<Json>) -> Seq<Seq<char>>
    decreases items.len(),
{
    if items.len() == 0 {
        Seq::empty()
    } else {
        match items.last() {
            Json::String(s) => string_items(items.drop_last()).push(s),
            _ => string_items(items.drop_last()),
        }
    }
}

impl Json {
    /// The member `key` of an object; where a name occurs twice, the later member.
    pub open spec fn field(self, key: Seq<char>) -> Option<Json> {
        match self {
            Json::Object(members) => member(members, key, members.len() as int),
            _ => None,
        }
    }

    /// The text of a string value.
    pub open spec fn text(self) -> Option<Seq<char>> {
        match self {
            Json::String(s) => Some(s),
            _ => None,
        }
    }

    /// The strings of an array value; nothing for any other value.
    pub open spec fn strings(self) -> Seq<Seq<char>> {
        match self {
            Json::Array(items) => string_items(items),
            _ => Seq::empty(),
        }
    }
}

impl JsonValue {
    /// The member `key` of an object.
    pub fn get(&self, key: &str) -> (r: Option<&JsonValue>)
        ensures
            match r {
                Some(v) => self@.field(key@) == Some(v@),
                None => self@.field(key@) is None,
            },
    {
        match self {
            JsonValue::Object(members) => {
                let ghost forms = member_models(members@);
                proof {
                    lemma_member_models(members@);
                }
                let mut k: usize = members.len();
                while k > 0
                    invariant
                        k <= members.len(),
                        forms == member_models(members@),
                        forms.len() == members@.len(),
                        forall|i: int|
                            0 <= i < members@.len() ==> forms[i] == (
                                (#[trigger] members@[i]).0@,
                                members@[i].1.model(),
                            ),
                        self@.field(key@) == member(forms, key@, forms.len() as int),
                        member(forms, key@, forms.len() as int) == member(forms, key@, k as int),
                    decreases k,
                {
                    assert(forms[k - 1] == (members@[k - 1].0@, members@[k - 1].1.model()));
                    if text_eq(members[k - 1].0.as_str(), key) {
                        return Some(&members[k - 1].1);
                    }
                    k -= 1;
                }
                None
            },
            _ => None,
        }
    }

    /// The text of a string value.
    pub fn as_str(&self) -> (r: Option<&str>)
        ensures
            match r {
                Some(s) => self@.text() == Some(s@),
                None => self@.text() is None,
            },
    {
        match self {
            JsonValue::String(s) => Some(s.as_str()),
            _ => None,
        }
    }

    /// The strings of an array value, in order.
    pub fn string_list(&self) -> (r: Vec<String>)
        ensures
            r.deep_view() == self@.strings(),
    {
        let mut r: Vec<String> = Vec::new();
        assert(r.deep_view() =~= Seq::<Seq<char>>::empty());
        match self {
            JsonValue::Array(items) => {
                let ghost forms = models(items@);
                proof {
                    lemma_models(items@);
                }
                let mut i: usize = 0;
                assert(forms.take(0) =~= Seq::<Json>::empty());
                while i < items.len()
                    invariant
                        i <= items.len(),
                        forms.len() == items@.len(),
                        forall|k: int|
                            0 <= k < items@.len() ==> forms[k] == (#[trigger] items@[k]).model(),
                        r.deep_view() == string_items(forms.take(i as int)),
                    decreases items.len() - i,
                {
                    let ghost before = r.deep_view();
                    proof {
                        let next = forms.take(i + 1);
                        assert(next.drop_last() =~= forms.take(i as int));
                        assert(next.last() == items@[i as int].model());
                    }
                    match &items[i] {
                        JsonValue::String(s) => {
                            r.push(s.clone());
                            assert(r.deep_view() =~= before.push(s@));
                        },
                        _ => {},
                    }
                    i += 1;
                }
                assert(forms.take(items.len() as int) =~= forms);
                r
            },
            _ => r,
        }
    }
}

/// `serde_json::Value`, carried as an opaque value.
#[verifier::external_type_specification]
#[verifier::external_body]
pub struct ExValue(serde_json::Value);

/// `serde_json::Error`, carried as an opaque value.
#[verifier::external_type_specification]
#[verifier::external_body]
pub struct ExParseError(serde_json::Error);

/// The value that a JSON text stands for; `None` for a text that is no JSON.
pub uninterp spec fn json_parse(text: Seq<char>) -> Option<Json>;

/// Turns a `serde_json::Value` into a `JsonValue`, variant by variant: a number becomes
/// the text that `serde_json` writes for it, an object its members in the order in which
/// `serde_json` holds them. Nothing is claimed of the result.
#[verifier::external_body]
fn from_serde(value: serde_json::Value) -> JsonValue {
    match value {
        serde_json::Value::Null => JsonValue::Null,
        serde_json::Value::Bool(b) => JsonValue::Bool(b),
        serde_json::Value::Number(n) => JsonValue::Number(n.to_string()),
        serde_json::Value::String(s) => JsonValue::String(s),
        serde_json::Value::Array(a) => JsonValue::Array(a.into_iter().map(from_serde).collect()),
        serde_json::Value::Object(m) => JsonValue::Object(
            m.into_iter().map(|(name, v)| (name, from_serde(v))).collect(),
        ),
    }
}

/// Calls `serde_json::from_str` for a `serde_json::Value`.
///
/// Whether the text parses, and the value it parses to, depend on the text alone.
#[verifier::external_body]
fn parse_text(text: &str) -> (r: Result<JsonValue, serde_json::Error>)
    ensures
        match r {
            Ok(value) => json_parse(text@) == Some(value@),
            Err(_) => json_parse(text@) is None,
        },
{
    serde_json::from_str::<serde_json::Value>(text).map(from_serde)
}

/// Parses a JSON text.
pub fn parse_json(text: &str) -> (r: Option<JsonValue>)
    ensures
        match r {
            Some(value) => json_parse(text@) == Some(value@),
            None => json_parse(text@) is None,
        },
{
    match parse_text(text) {
        Ok(value) => Some(value),
        Err(_) => None,
    }
}

/// The length of the longest string among the values of `v`; member names do not count.
pub open spec fn longest(v: Json) -> nat
    decreases v,
{
    match v {
        Json::String(s) => s.len(),
        Json::Array(items) => longest_of(items),
        Json::Object(members) => longest_in(members),
        _ => 0,
    }
}

/// The length of the longest string among the values of `items`.
pub open spec fn longest_of(items: Seq<Json>) -> nat
    decreases items,
{
    if items.len() == 0 {
        0
    } else if longest_of(items.drop_last()) >= longest(items.last()) {
        longest_of(items.drop_last())
    } else {
        longest(items.last())
    }
}

/// The length of the longest string among the values of `members`.
pub open spec fn longest_in(members: Seq<(Seq<char>, Json)>) -> nat
    decreases members,
{
    if members.len() == 0 {
        0
    } else if longest_in(members.drop_last()) >= longest(members.last().1) {
        longest_in(members.drop_last())
    } else {
        longest(members.last().1)
    }
}

/// No value of a list holds a longer string than the list as a whole.
pub proof fn lemma_longest_of(items: Seq<Json>, i: int)
    requires
        0 <= i < items.len(),
    ensures
        longest(items[i]) <= longest_of(items),
    decreases items.len(),
{
    if i < items.len() - 1 {
        lemma_longest_of(items.drop_last(), i);
    }
}

/// No member of an object holds a longer string than the object as a whole.
pub proof fn lemma_longest_in(members: Seq<(Seq<char>, Json)>, i: int)
    requires
        0 <= i < members.len(),
    ensures
        longest(members[i].1) <= longest_in(members),
    decreases members.len(),
{
    if i < members.len() - 1 {
        lemma_longest_in(members.drop_last(), i);
    }
}

/// A copy of `v`.
pub fn duplicate(v: &JsonValue) -> (r: JsonValue)
    ensures
        r@ == v@,
    decreases longest(v@), v,
{
    match v {
        JsonValue::Null => JsonValue::Null,
        JsonValue::Bool(b) => JsonValue::Bool(*b),
        JsonValue::Number(n) => JsonValue::Number(n.clone()),
        JsonValue::String(s) => JsonValue::String(s.clone()),
        JsonValue::Array(items) => {
            let mut out: Vec<JsonValue> = Vec::new();
            let mut i: usize = 0;
            let ghost forms = models(items@);
            proof {
                lemma_models(items@);
                assert(forms.take(0) =~= Seq::<Json>::empty());
            }
            while i < items.len()
                invariant
                    i <= items.len(),
                    *v == JsonValue::Array(*items),
                    forms == models(items@),
                    forms.len() == items@.len(),
                    forall|k: int| 0 <= k < items@.len() ==> forms[k] == (#[trigger] items@[k])@,
                    models(out@) == forms.take(i as int),
                decreases items.len() - i,
            {
                proof {
                    lemma_longest_of(forms, i as int);
                }
                let ghost before = out@;
                let item = duplicate(&items[i]);
                out.push(item);
                proof {
                    assert(out@.drop_last() =~= before);
                    assert(forms.take(i + 1) =~= forms.take(i as int).push(items@[i as int]@));
                }
                i += 1;
            }
            assert(forms.take(items.len() as int) =~= forms);
            JsonValue::Array(out)
        },
        JsonValue::Object(members) => {
            let mut out: Vec<(String, JsonValue)> = Vec::new();
            let mut i: usize = 0;
            let ghost forms = member_models(members@);
            proof {
                lemma_member_models(members@);
                assert(forms.take(0) =~= Seq::<(Seq<char>, Json)>::empty());
            }
            while i < members.len()
                invariant
                    i <= members.len(),
                    *v == JsonValue::Object(*members),
                    forms == member_models(members@),
                    forms.len() == members@.len(),
                    forall|k: int|
                        0 <= k < members@.len() ==> forms[k] == (
                            (#[trigger] members@[k]).0@,
                            members@[k].1@,
                        ),
                    member_models(out@) == forms.take(i as int),
                decreases members.len() - i,
            {
                proof {
                    lemma_longest_in(forms, i as int);
                }
                let ghost before = out@;
                let value = duplicate(&members[i].1);
                out.push((members[i].0.clone(), value));
                proof {
                    assert(out@.drop_last() =~= before);
                    assert(forms.take(i + 1) =~= forms.take(i as int).push(
                        (members@[i as int].0@, members@[i as int].1@),
                    ));
                }
                i += 1;
            }
            assert(forms.take(members.len() as int) =~= forms);
            JsonValue::Object(out)
        },
    }
}

impl Clone for JsonValue {
    fn clone(&self) -> (r: Self)
        ensures
            r@ == self@,
    {
        duplicate(self)
    }
}

} // verus!
