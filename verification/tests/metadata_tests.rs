use dset::json::{duplicate, parse_json, JsonValue};
use dset::metadata::{
    decode_json_strings, extract_training_metadata, header_training_metadata,
    is_empty_metadata, longest_string, parse_known_fields,
};

fn string(text: &str) -> JsonValue {
    JsonValue::String(text.to_string())
}

fn number(text: &str) -> JsonValue {
    JsonValue::Number(text.to_string())
}

fn object(members: Vec<(&str, JsonValue)>) -> JsonValue {
    JsonValue::Object(members.into_iter().map(|(name, value)| (name.to_string(), value)).collect())
}

/// The value with the members of every object sorted by name.
fn sorted(value: JsonValue) -> JsonValue {
    match value {
        JsonValue::Array(items) => JsonValue::Array(items.into_iter().map(sorted).collect()),
        JsonValue::Object(members) => {
            let mut members: Vec<(String, JsonValue)> =
                members.into_iter().map(|(name, value)| (name, sorted(value))).collect();
            members.sort_by(|a, b| a.0.cmp(&b.0));
            JsonValue::Object(members)
        }
        other => other,
    }
}

#[test]
fn test_decode_json_strings_none() {
    let value = string("None");
    let decoded = decode_json_strings(value);
    assert_eq!(decoded, JsonValue::Null);
}

#[test]
fn test_decode_json_strings_object() {
    let input = object(vec![(
        "resize_params",
        string("{\"recipe_str\": \"fro_ckpt=1,thr=-3.55\", \"weights\": {\"spn_lora\": 0.0, \"spn_ckpt\": 0.0, \"subspace\": 0.0, \"fro_lora\": 0.0, \"fro_ckpt\": 1.0, \"params\": 0.0}, \"target_size\": null, \"threshold\": -3.55, \"rescale\": 1.0}"),
    )]);
    let decoded = decode_json_strings(input);
    let expected = object(vec![(
        "resize_params",
        object(vec![
            ("recipe_str", string("fro_ckpt=1,thr=-3.55")),
            (
                "weights",
                object(vec![
                    ("spn_lora", number("0.0")),
                    ("spn_ckpt", number("0.0")),
                    ("subspace", number("0.0")),
                    ("fro_lora", number("0.0")),
                    ("fro_ckpt", number("1.0")),
                    ("params", number("0.0")),
                ]),
            ),
            ("target_size", JsonValue::Null),
            ("threshold", number("-3.55")),
            ("rescale", number("1.0")),
        ]),
    )]);
    assert_eq!(sorted(decoded), sorted(expected));
}

#[test]
fn test_extract_training_metadata() {
    let raw = object(vec![(
        "__metadata__",
        string("{\"ss_bucket_info\": \"{\\\"buckets\\\": {\\\"0\\\": {\\\"resolution\\\": [1280, 800], \\\"count\\\": 78}}, \\\"mean_img_ar_error\\\": 0.0}\"}"),
    )]);
    let extracted = extract_training_metadata(&raw);
    let expected = object(vec![(
        "ss_bucket_info",
        object(vec![
            (
                "buckets",
                object(vec![(
                    "0",
                    object(vec![
                        ("resolution", JsonValue::Array(vec![number("1280"), number("800")])),
                        ("count", number("78")),
                    ]),
                )]),
            ),
            ("mean_img_ar_error", number("0.0")),
        ]),
    )]);
    assert_eq!(sorted(extracted), sorted(expected));
}

#[test]
fn decode_leaves_other_strings_alone() {
    assert_eq!(decode_json_strings(string("plain")), string("plain"));
    assert_eq!(decode_json_strings(string("  None \n")), JsonValue::Null);
    assert_eq!(decode_json_strings(string("none")), string("none"));
    // looks encoded but does not parse: stays as it was, untrimmed
    assert_eq!(decode_json_strings(string(" {not json} ")), string(" {not json} "));
    assert_eq!(decode_json_strings(string("[1, 2")), string("[1, 2"));
    assert_eq!(decode_json_strings(string("{]")), string("{]"));
    // a JSON text that is neither object nor array is not decoded
    assert_eq!(decode_json_strings(string("42")), string("42"));
    assert_eq!(decode_json_strings(string("\"text\"")), string("\"text\""));
    assert_eq!(decode_json_strings(string(" [1, \"None\", \"[true]\"] ")),
        JsonValue::Array(vec![
            number("1"),
            JsonValue::Null,
            JsonValue::Array(vec![JsonValue::Bool(true)]),
        ]));
    assert_eq!(decode_json_strings(number("1.5")), number("1.5"));
    assert_eq!(decode_json_strings(JsonValue::Bool(false)), JsonValue::Bool(false));
    assert_eq!(decode_json_strings(JsonValue::Null), JsonValue::Null);
    assert_eq!(
        decode_json_strings(JsonValue::Array(vec![string("None"), string("{}")])),
        JsonValue::Array(vec![JsonValue::Null, object(vec![])])
    );
}

#[test]
fn extract_handles_every_shape() {
    // no object: the empty object
    assert_eq!(extract_training_metadata(&string("x")), object(vec![]));
    assert_eq!(extract_training_metadata(&JsonValue::Null), object(vec![]));
    // no __metadata__: the whole value, decoded
    let raw = object(vec![("a", string("None")), ("b", string("[1]"))]);
    assert_eq!(
        extract_training_metadata(&raw),
        object(vec![("a", JsonValue::Null), ("b", JsonValue::Array(vec![number("1")]))])
    );
    // __metadata__ is a string that does not parse
    let raw = object(vec![("__metadata__", string("not json"))]);
    assert_eq!(
        extract_training_metadata(&raw),
        object(vec![("invalid_json", string("not json"))])
    );
    // __metadata__ is a string that parses to a string: decoded in turn
    let raw = object(vec![("__metadata__", string("\"None\""))]);
    assert_eq!(extract_training_metadata(&raw), JsonValue::Null);
    // __metadata__ is an object
    let raw = object(vec![
        ("__metadata__", object(vec![("k", string("{\"x\": \"None\"}"))])),
        ("other", string("ignored")),
    ]);
    assert_eq!(
        extract_training_metadata(&raw),
        object(vec![("k", object(vec![("x", JsonValue::Null)]))])
    );
}

#[test]
fn parsing_gives_the_value_of_the_text() {
    assert_eq!(parse_json("null"), Some(JsonValue::Null));
    assert_eq!(parse_json(" true "), Some(JsonValue::Bool(true)));
    assert_eq!(parse_json("12"), Some(number("12")));
    assert_eq!(parse_json("-3.55"), Some(number("-3.55")));
    assert_eq!(parse_json("\"a\\nb\""), Some(string("a\nb")));
    assert_eq!(
        parse_json("[1, \"x\", [], {}]"),
        Some(JsonValue::Array(vec![
            number("1"),
            string("x"),
            JsonValue::Array(vec![]),
            object(vec![]),
        ]))
    );
    assert_eq!(
        parse_json("{\"k\": {\"n\": null}}"),
        Some(object(vec![("k", object(vec![("n", JsonValue::Null)]))]))
    );
    assert_eq!(parse_json(""), None);
    assert_eq!(parse_json("{"), None);
    assert_eq!(parse_json("invalid json"), None);
    assert_eq!(parse_json("[1,]"), None);
}

#[test]
fn longest_string_looks_at_values_only() {
    assert_eq!(longest_string(&JsonValue::Null), 0);
    assert_eq!(longest_string(&string("h\u{e9}llo")), 5);
    let value = object(vec![
        ("a_rather_long_member_name", string("abc")),
        ("b", JsonValue::Array(vec![string("abcdefg"), number("123456789"), string("")])),
    ]);
    assert_eq!(longest_string(&value), 7);
}

/// A header that embeds `metadata` as JSON text and describes one tensor.
fn header_with(metadata: &str) -> JsonValue {
    object(vec![
        ("__metadata__", object(vec![("metadata", string(metadata))])),
        (
            "test_tensor",
            object(vec![
                ("dtype", string("F32")),
                ("shape", JsonValue::Array(vec![number("1")])),
                ("data_offsets", JsonValue::Array(vec![number("0"), number("4")])),
            ]),
        ),
    ])
}

#[test]
fn test_process_file_with_metadata() {
    let metadata = r#"{
            "ss_bucket_info": {
                "buckets": {
                    "0": {
                        "resolution": [1280, 800],
                        "count": 78
                    }
                },
                "mean_img_ar_error": 0.0
            }
        }"#;
    let json = header_training_metadata(&header_with(metadata));
    assert!(json.get("ss_bucket_info").is_some());
    assert!(!is_empty_metadata(&json));
}

#[test]
fn test_process_file_empty_metadata() {
    let json = header_training_metadata(&header_with("{}"));
    assert_eq!(json, object(vec![]));
    assert!(is_empty_metadata(&json));
}

#[test]
fn test_process_file_complex_metadata() {
    let metadata = r#"{
            "ss_network_args": {
                "network_alpha": 128,
                "network_dim": 64,
                "network_module": "networks.lora"
            },
            "ss_tag_frequency": {
                "tag1": 0.8,
                "tag2": 0.5
            },
            "ss_dataset_dirs": [
                "/path/to/dataset1",
                "/path/to/dataset2"
            ]
        }"#;
    let json = header_training_metadata(&header_with(metadata));
    assert!(json.get("ss_network_args").is_some());
    assert!(json.get("ss_tag_frequency").is_some());
    assert!(json.get("ss_dataset_dirs").is_some());
    assert_eq!(
        json.get("ss_dataset_dirs"),
        Some(&JsonValue::Array(vec![string("/path/to/dataset1"), string("/path/to/dataset2")]))
    );
}

#[test]
fn test_process_file() {
    let header = object(vec![
        (
            "__metadata__",
            object(vec![("model_name", string("test_model")), ("version", string("1.0"))]),
        ),
        (
            "test_tensor",
            object(vec![
                ("dtype", string("F32")),
                ("shape", JsonValue::Array(vec![number("2"), number("2")])),
                ("data_offsets", JsonValue::Array(vec![number("0"), number("16")])),
            ]),
        ),
    ]);
    let json = extract_training_metadata(&header);
    assert_eq!(json.get("model_name").unwrap().as_str().unwrap(), "test_model");
    assert_eq!(json.get("version").unwrap().as_str().unwrap(), "1.0");
    let json = parse_known_fields(&header);
    assert_eq!(json.get("model_name").unwrap().as_str().unwrap(), "test_model");
    assert_eq!(json.get("version").unwrap().as_str().unwrap(), "1.0");
}

#[test]
fn header_without_embedded_metadata() {
    assert_eq!(header_training_metadata(&object(vec![])), object(vec![]));
    assert_eq!(header_training_metadata(&JsonValue::Null), object(vec![]));
    let no_text = object(vec![("__metadata__", object(vec![("metadata", number("1"))]))]);
    assert_eq!(header_training_metadata(&no_text), object(vec![]));
    assert_eq!(header_training_metadata(&header_with("not json")), object(vec![]));
    // an embedded value that is no object gives the empty object
    assert_eq!(header_training_metadata(&header_with("[1, 2]")), object(vec![]));
    assert!(is_empty_metadata(&JsonValue::Null));
    assert!(is_empty_metadata(&string("x")));
}

#[test]
fn known_fields_are_parsed_and_others_kept() {
    let header = object(vec![(
        "__metadata__",
        object(vec![
            ("ss_bucket_info", string("{\"buckets\": 1}")),
            ("ss_tag_frequency", string("not json")),
            ("ss_output_name", string("\"name\"")),
            ("resize_params", number("3")),
            ("unknown", string("{\"a\": 1}")),
        ]),
    )]);
    assert_eq!(
        parse_known_fields(&header),
        object(vec![
            ("ss_bucket_info", object(vec![("buckets", number("1"))])),
            ("ss_tag_frequency", string("not json")),
            ("ss_output_name", string("name")),
            ("resize_params", number("3")),
            ("unknown", string("{\"a\": 1}")),
        ])
    );
    assert_eq!(parse_known_fields(&object(vec![])), object(vec![]));
    assert_eq!(
        parse_known_fields(&object(vec![("__metadata__", string("{}"))])),
        object(vec![])
    );
}

#[test]
fn duplicate_copies_every_level() {
    let value = object(vec![
        ("a", JsonValue::Array(vec![number("1"), string("x"), JsonValue::Null])),
        ("b", object(vec![("c", JsonValue::Bool(true))])),
    ]);
    assert_eq!(duplicate(&value), value);
    assert_eq!(value.clone(), value);
}

#[test]
fn member_lookup_takes_the_later_of_two() {
    let value = object(vec![("k", number("1")), ("k", number("2")), ("j", number("3"))]);
    assert_eq!(value.get("k"), Some(&number("2")));
    assert_eq!(value.get("j"), Some(&number("3")));
    assert_eq!(value.get("x"), None);
    assert_eq!(string("k").get("k"), None);
    assert_eq!(string("k").as_str(), Some("k"));
    assert_eq!(number("1").as_str(), None);
    let list = JsonValue::Array(vec![string("a"), number("1"), string("b")]);
    assert_eq!(list.string_list(), vec!["a", "b"]);
    assert!(value.string_list().is_empty());
}
