//! Training metadata: JSON that was written into strings is decoded again.

use vstd::prelude::*;
use crate::json::{
    duplicate, json_parse, lemma_longest_in, lemma_longest_of, lemma_member_models, lemma_models,
    longest, longest_in, longest_of, member_models, models, parse_json, Json, JsonValue,
};
use crate::text::{chars_of, text_eq, trim, trim_chars, string_of, CharClass};

verus! {

/// Whether a trimmed text looks like a JSON object or array: it starts with an opening
/// brace and ends with a closing one, or starts and ends with square brackets.
pub open spec fn looks_encoded(t: Seq<char>) -> bool {
    t.len() > 0 && ((t[0] == '{' && t.last() == '}') || (t[0] == '[' && t.last() == ']'))
}

/// A value with the JSON in its strings decoded.
///
/// A string that is `None` after trimming becomes `null`. A string that looks like an
/// object or an array, and parses to a value whose strings are all shorter than itself, is
/// that value, decoded in turn. Arrays and objects are decoded value by value. Everything
/// else stays.
pub open spec fn decoded(v: Json) -> Json
    decreases longest(v), v,
{
    match v {
        Json::String(s) => {
            let t = trim(s);
            if t == "None"@ {
                Json::Null
            } else if looks_encoded(t) {
                match json_parse(t) {
                    Some(parsed) => if longest(parsed) < s.len() {
                        decoded(parsed)
                    } else {
                        v
                    },
                    None => v,
                }
            } else {
                v
            }
        },
        Json::Array(items) => Json::Array(decoded_all(items)),
        Json::Object(members) => Json::Object(decoded_members(members)),
        _ => v,
    }
}

/// The values of `items`, each decoded.
pub open spec fn decoded_all(items: Seq<Json>) -> Seq<Json>
    decreases longest_of(items), items,
{
    if items.len() == 0 {
        Seq::empty()
    } else {
        decoded_all(items.drop_last()).push(decoded(items.last()))
    }
}

/// The members of an object, each with its value decoded.
pub open spec fn decoded_members(members: Seq<(Seq<char>, Json)>) -> Seq<(Seq<char>, Json)>
    decreases longest_in(members), members,
{
    if members.len() == 0 {
        Seq::empty()
    } else {
        decoded_members(members.drop_last()).push((members.last().0, decoded(members.last().1)))
    }
}

/// The length of the longest string among the values of `v`.
pub fn longest_string(v: &JsonValue) -> (n: usize)
    ensures
        n == longest(v@),
    decreases longest(v@), v,
{
    match v {
        JsonValue::String(s) => s.as_str().unicode_len(),
        JsonValue::Array(items) => {
            let mut n: usize = 0;
            let mut i: usize = 0;
            let ghost forms = models(items@);
            proof {
                lemma_models(items@);
                assert(forms.take(0) =~= Seq::<Json>::empty());
            }
            while i < items.len()
                invariant
                    i <= items.len(),
                    *v == JsonValue::Array(*items),
                    forms == models(items@),
                    forms.len() == items@.len(),
                    forall|k: int| 0 <= k < items@.len() ==> forms[k] == (#[trigger] items@[k])@,
                    n == longest_of(forms.take(i as int)),
                decreases items.len() - i,
            {
                proof {
                    assert(forms.take(i + 1).drop_last() =~= forms.take(i as int));
                    assert(forms.take(i + 1).last() == items@[i as int]@);
                    lemma_longest_of(forms, i as int);
                }
                let m = longest_string(&items[i]);
                if m > n {
                    n = m;
                }
                i += 1;
            }
            assert(forms.take(items.len() as int) =~= forms);
            n
        },
        JsonValue::Object(members) => {
            let mut n: usize = 0;
            let mut i: usize = 0;
            let ghost forms = member_models(members@);
            proof {
                lemma_member_models(members@);
                assert(forms.take(0) =~= Seq::<(Seq<char>, Json)>::empty());
            }
            while i < members.len()
                invariant
                    i <= members.len(),
                    *v == JsonValue::Object(*members),
                    forms == member_models(members@),
                    forms.len() == members@.len(),
                    forall|k: int|
                        0 <= k < members@.len() ==> forms[k] == (
                            (#[trigger] members@[k]).0@,
                            members@[k].1@,
                        ),
                    n == longest_in(forms.take(i as int)),
                decreases members.len() - i,
            {
                proof {
                    assert(forms.take(i + 1).drop_last() =~= forms.take(i as int));
                    assert(forms.take(i + 1).last() == (members@[i as int].0@, members@[i as int].1@));
                    lemma_longest_in(forms, i as int);
                }
                let m = longest_string(&members[i].1);
                if m > n {
                    n = m;
                }
                i += 1;
            }
            assert(forms.take(members.len() as int) =~= forms);
            n
        },
        _ => 0,
    }
}

/// Whether a trimmed text looks like a JSON object or array.
pub fn is_encoded(t: &Vec<char>) -> (r: bool)
    ensures
        r == looks_encoded(t@),
{
    let n = t.len();
    n > 0 && ((t[0] == '{' && t[n - 1] == '}') || (t[0] == '[' && t[n - 1] == ']'))
}

/// Decodes the JSON in the strings of `v`.
pub fn decode(v: &JsonValue) -> (r: JsonValue)
    ensures
        r@ == decoded(v@),
    decreases longest(v@), v,
{
    match v {
        JsonValue::Null => JsonValue::Null,
        JsonValue::Bool(b) => JsonValue::Bool(*b),
        JsonValue::Number(n) => JsonValue::Number(n.clone()),
        JsonValue::String(s) => {
            let all = chars_of(s.as_str());
            let t = trim_chars(&all, CharClass::Whitespace);
            let trimmed = string_of(&t);
            if text_eq(trimmed.as_str(), "None") {
                JsonValue::Null
            } else if is_encoded(&t) {
                match parse_json(trimmed.as_str()) {
                    Some(parsed) => if longest_string(&parsed) < all.len() {
                        decode(&parsed)
                    } else {
                        JsonValue::String(s.clone())
                    },
                    None => JsonValue::String(s.clone()),
                }
            } else {
                JsonValue::String(s.clone())
            }
        },
        JsonValue::Array(items) => {
            let mut out: Vec<JsonValue> = Vec::new();
            let mut i: usize = 0;
            let ghost forms = models(items@);
            proof {
                lemma_models(items@);
                assert(forms.take(0) =~= Seq::<Json>::empty());
            }
            while i < items.len()
                invariant
                    i <= items.len(),
                    *v == JsonValue::Array(*items),
                    forms == models(items@),
                    forms.len() == items@.len(),
                    forall|k: int| 0 <= k < items@.len() ==> forms[k] == (#[trigger] items@[k])@,
                    models(out@) == decoded_all(forms.take(i as int)),
                decreases items.len() - i,
            {
                proof {
                    assert(forms.take(i + 1).drop_last() =~= forms.take(i as int));
                    assert(forms.take(i + 1).last() == items@[i as int]@);
                    lemma_longest_of(forms, i as int);
                }
                let ghost before = out@;
                let item = decode(&items[i]);
                out.push(item);
                proof {
                    assert(out@.drop_last() =~= before);
                }
                i += 1;
            }
            assert(forms.take(items.len() as int) =~= forms);
            JsonValue::Array(out)
        },
        JsonValue::Object(members) => {
            let mut out: Vec<(String, JsonValue)> = Vec::new();
            let mut i: usize = 0;
            let ghost forms = member_models(members@);
            proof {
                lemma_member_models(members@);
                assert(forms.take(0) =~= Seq::<(Seq<char>, Json)>::empty());
            }
            while i < members.len()
                invariant
                    i <= members.len(),
                    *v == JsonValue::Object(*members),
                    forms == member_models(members@),
                    forms.len() == members@.len(),
                    forall|k: int|
                        0 <= k < members@.len() ==> forms[k] == (
                            (#[trigger] members@[k]).0@,
                            members@[k].1@,
                        ),
                    member_models(out@) == decoded_members(forms.take(i as int)),
                decreases members.len() - i,
            {
                proof {
                    assert(forms.take(i + 1).drop_last() =~= forms.take(i as int));
                    assert(forms.take(i + 1).last() == (members@[i as int].0@, members@[i as int].1@));
                    lemma_longest_in(forms, i as int);
                }
                let ghost before = out@;
                let value = decode(&members[i].1);
                out.push((members[i].0.clone(), value));
                proof {
                    assert(out@.drop_last() =~= before);
                }
                i += 1;
            }
            assert(forms.take(members.len() as int) =~= forms);
            JsonValue::Object(out)
        },
    }
}

/// Decodes the JSON that was written into the strings of a value, at every depth.
pub fn decode_json_strings(value: JsonValue) -> (r: JsonValue)
    ensures
        r@ == decoded(value@),
{
    decode(&value)
}

/// The training metadata of a raw metadata value.
///
/// An object with a member `__metadata__` gives that member decoded: where it is a string,
/// the string is parsed first, and a string that does not parse is reported under
/// `invalid_json`. An object without that member is decoded as a whole. Any other value
/// gives the empty object.
pub open spec fn training_metadata(raw: Json) -> Json {
    match raw {
        Json::Object(_) => match raw.field("__metadata__"@) {
            Some(Json::String(s)) => match json_parse(s) {
                Some(parsed) => decoded(parsed),
                None => Json::Object(seq![("invalid_json"@, Json::String(s))]),
            },
            Some(other) => decoded(other),
            None => decoded(raw),
        },
        _ => Json::Object(Seq::empty()),
    }
}

/// Extracts the training metadata from a raw metadata value.
pub fn extract_training_metadata(raw_metadata: &JsonValue) -> (r: JsonValue)
    ensures
        r@ == training_metadata(raw_metadata@),
{
    match raw_metadata {
        JsonValue::Object(_) => match raw_metadata.get("__metadata__") {
            Some(JsonValue::String(s)) => match parse_json(s.as_str()) {
                Some(parsed) => decode(&parsed),
                None => {
                    let mut members: Vec<(String, JsonValue)> = Vec::new();
                    members.push(("invalid_json".to_owned(), JsonValue::String(s.clone())));
                    proof {
                        assert(members@.drop_last() =~= Seq::<(String, JsonValue)>::empty());
                        assert(member_models(Seq::<(String, JsonValue)>::empty()) =~= Seq::<
                            (Seq<char>, Json),
                        >::empty());
                        assert(members@.last().0@ == "invalid_json"@);
                        assert(members@.last().1.model() == Json::String(s@));
                        assert(member_models(members@) =~= seq![
                            ("invalid_json"@, Json::String(s@)),
                        ]);
                    }
                    JsonValue::Object(members)
                },
            },
            Some(other) => decode(other),
            None => decode(raw_metadata),
        },
        _ => {
            let members: Vec<(String, JsonValue)> = Vec::new();
            JsonValue::Object(members)
        },
    }
}

/// The object without members.
pub open spec fn empty_object() -> Json {
    Json::Object(Seq::empty())
}

/// An object without members.
pub fn new_object() -> (r: JsonValue)
    ensures
        r@ == empty_object(),
{
    let members: Vec<(String, JsonValue)> = Vec::new();
    JsonValue::Object(members)
}

/// The metadata that a header embeds: the JSON text at `__metadata__.metadata`, parsed;
/// the empty object where there is none, where it is no string, or where it does not
/// parse.
pub open spec fn embedded_metadata(header: Json) -> Json {
    match header.field("__metadata__"@) {
        Some(meta) => match meta.field("metadata"@) {
            Some(Json::String(s)) => match json_parse(s) {
                Some(parsed) => parsed,
                None => empty_object(),
            },
            _ => empty_object(),
        },
        None => empty_object(),
    }
}

/// The training metadata that a header embeds at `__metadata__.metadata`.
pub fn header_training_metadata(header: &JsonValue) -> (r: JsonValue)
    ensures
        r@ == training_metadata(embedded_metadata(header@)),
{
    let embedded = match header.get("__metadata__") {
        Some(meta) => match meta.get("metadata") {
            Some(JsonValue::String(s)) => match parse_json(s.as_str()) {
                Some(parsed) => parsed,
                None => new_object(),
            },
            _ => new_object(),
        },
        None => new_object(),
    };
    extract_training_metadata(&embedded)
}

/// Whether metadata holds nothing: it is no object, or an object without members.
pub fn is_empty_metadata(metadata: &JsonValue) -> (r: bool)
    ensures
        r == match metadata@ {
            Json::Object(members) => members.len() == 0,
            _ => true,
        },
{
    match metadata {
        JsonValue::Object(members) => {
            proof {
                lemma_member_models(members@);
            }
            members.len() == 0
        },
        _ => true,
    }
}

/// Whether `name` is one of the members that are known to hold JSON as text.
pub open spec fn holds_json_text(name: Seq<char>) -> bool {
    ||| name == "ss_bucket_info"@
    ||| name == "ss_tag_frequency"@
    ||| name == "ss_dataset_dirs"@
    ||| name == "ss_network_args"@
    ||| name == "resize_params"@
    ||| name == "ss_network_module"@
    ||| name == "ss_caption_dropout"@
    ||| name == "ss_output_name"@
}

/// A member with its text parsed, where it is known to hold JSON as text and the text
/// parses; else the member as it is.
pub open spec fn with_text_parsed(member: (Seq<char>, Json)) -> (Seq<char>, Json) {
    match member.1 {
        Json::String(s) => if holds_json_text(member.0) {
            match json_parse(s) {
                Some(parsed) => (member.0, parsed),
                None => member,
            }
        } else {
            member
        },
        _ => member,
    }
}

/// The members of the object at `__metadata__`, those known to hold JSON as text parsed;
/// the empty object where the header has no such object.
pub open spec fn known_fields_parsed(header: Json) -> Json {
    match header.field("__metadata__"@) {
        Some(Json::Object(members)) => Json::Object(
            Seq::new(members.len(), |i: int| with_text_parsed(members[i])),
        ),
        _ => empty_object(),
    }
}

/// Whether `name` is one of the members that are known to hold JSON as text.
pub fn is_json_text_field(name: &str) -> (r: bool)
    ensures
        r == holds_json_text(name@),
{
    text_eq(name, "ss_bucket_info") || text_eq(name, "ss_tag_frequency") || text_eq(
        name,
        "ss_dataset_dirs",
    ) || text_eq(name, "ss_network_args") || text_eq(name, "resize_params") || text_eq(
        name,
        "ss_network_module",
    ) || text_eq(name, "ss_caption_dropout") || text_eq(name, "ss_output_name")
}

/// The metadata object of a header with the members that are known to hold JSON as text
/// parsed.
pub fn parse_known_fields(header: &JsonValue) -> (r: JsonValue)
    ensures
        r@ == known_fields_parsed(header@),
{
    match header.get("__metadata__") {
        Some(JsonValue::Object(members)) => {
            let mut out: Vec<(String, JsonValue)> = Vec::new();
            let mut i: usize = 0;
            let ghost forms = member_models(members@);
            proof {
                lemma_member_models(members@);
            }
            while i < members.len()
                invariant
                    i <= members.len(),
                    forms == member_models(members@),
                    forms.len() == members@.len(),
                    forall|k: int|
                        0 <= k < members@.len() ==> forms[k] == (
                            (#[trigger] members@[k]).0@,
                            members@[k].1@,
                        ),
                    out.len() == i,
                    member_models(out@).len() == i,
                    forall|k: int|
                        0 <= k < i ==> member_models(out@)[k] == with_text_parsed(forms[k]),
                decreases members.len() - i,
            {
                let name = members[i].0.as_str();
                let ghost before = out@;
                proof {
                    lemma_member_models(before);
                }
                let parsed = match &members[i].1 {
                    JsonValue::String(s) => if is_json_text_field(name) {
                        parse_json(s.as_str())
                    } else {
                        None
                    },
                    _ => None,
                };
                let value = match parsed {
                    Some(value) => value,
                    None => duplicate(&members[i].1),
                };
                out.push((members[i].0.clone(), value));
                proof {
                    assert(out@.drop_last() =~= before);
                    lemma_member_models(out@);
                    assert(forms[i as int] == (members@[i as int].0@, members@[i as int].1@));
                }
                i += 1;
            }
            assert(member_models(out@) =~= Seq::new(
                forms.len(),
                |i: int| with_text_parsed(forms[i]),
            ));
            JsonValue::Object(out)
        },
        _ => new_object(),
    }
}

} // verus!
