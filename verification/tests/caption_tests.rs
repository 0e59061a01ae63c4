use dset::caption::{
    caption_from_tags, caption_is_not_empty, escape_parentheses, format_text_content, json_to_text, process_e621_json_data,
    process_e621_tags, read_caption, replace_string, CaptionContent, CaptionError, E621Config,
    RatingConversions,
};
use dset::filter::should_ignore_e621_tag;
use dset::json::JsonValue;

fn string(text: &str) -> JsonValue {
    JsonValue::String(text.to_string())
}

fn array(items: &[&str]) -> JsonValue {
    JsonValue::Array(items.iter().map(|item| string(item)).collect())
}

fn object(members: Vec<(&str, JsonValue)>) -> JsonValue {
    JsonValue::Object(members.into_iter().map(|(name, value)| (name.to_string(), value)).collect())
}

fn post(url: &str, rating: &str, tags: JsonValue) -> JsonValue {
    object(vec![(
        "post",
        object(vec![
            ("file", object(vec![("url", string(url))])),
            ("rating", string(rating)),
            ("tags", tags),
        ]),
    )])
}

#[test]
fn caption_test_json_to_text_string() {
    let json = string("Test caption");
    let text = json_to_text(&json).unwrap();
    assert_eq!(text, "Test caption");
}

#[test]
fn caption_test_json_to_text_object() {
    let json = object(vec![("caption", string("Test caption")), ("other_field", string("ignored"))]);
    let text = json_to_text(&json).unwrap();
    assert_eq!(text, "Test caption");
}

#[test]
fn test_json_to_text_invalid_object() {
    let json = object(vec![("not_caption", string("Test caption"))]);
    assert!(json_to_text(&json).is_err());
}

#[test]
fn test_json_to_text_unsupported_format() {
    let json = JsonValue::Number("42".to_string());
    assert!(json_to_text(&json).is_err());
}

#[test]
fn caption_tests_test_json_to_text_string() {
    let json = string("Test caption");
    let result = json_to_text(&json).unwrap();
    assert_eq!(result, "Test caption");
}

#[test]
fn caption_tests_test_json_to_text_object() {
    let json = object(vec![("caption", string("Test caption"))]);
    let result = json_to_text(&json).unwrap();
    assert_eq!(result, "Test caption");
}

#[test]
fn test_json_to_text_invalid() {
    let json = object(vec![("not_caption", string("Test"))]);
    assert!(json_to_text(&json).is_err());

    let json = JsonValue::Number("42".to_string());
    assert!(json_to_text(&json).is_err());
}

#[test]
fn json_to_text_names_each_error() {
    let json = object(vec![("caption", JsonValue::Number("1".to_string()))]);
    assert_eq!(json_to_text(&json), Err(CaptionError::NoCaptionField));
    assert_eq!(json_to_text(&JsonValue::Null), Err(CaptionError::UnsupportedFormat));
    assert_eq!(json_to_text(&array(&["a"])), Err(CaptionError::UnsupportedFormat));
    assert_eq!(
        CaptionError::NoCaptionField.to_string(),
        "No caption field found in JSON object"
    );
    assert_eq!(CaptionError::UnsupportedFormat.to_string(), "Unsupported JSON format");
}

#[test]
fn test_e621_config_underscore_replacement() {
    let config = E621Config::new().with_replace_underscores(false);

    let json = object(vec![
        ("artist", array(&["artist_name"])),
        ("character", array(&["character_name"])),
        ("general", array(&["tag_with_underscore"])),
    ]);

    let tags = process_e621_tags(&json, Some(&config));
    assert!(
        tags.iter().any(|t| t.contains('_')),
        "Tags should preserve underscores when replace_underscores is false"
    );

    let config = E621Config::new().with_replace_underscores(true);
    let tags = process_e621_tags(&json, Some(&config));
    assert!(
        !tags.iter().any(|t| t.contains('_')),
        "Tags should not contain underscores when replace_underscores is true"
    );
}

#[test]
fn test_should_ignore_e621_tag() {
    // Test tags that should be ignored
    assert!(should_ignore_e621_tag("conditional_dnp"));
    assert!(should_ignore_e621_tag("2023")); // Year
    assert!(should_ignore_e621_tag("16:9")); // Aspect ratio

    // Test tags that should not be ignored
    assert!(!should_ignore_e621_tag("character"));
    assert!(!should_ignore_e621_tag("artist_name"));
    assert!(!should_ignore_e621_tag("red_background"));
}

#[test]
fn ignore_patterns_match_whole_tags_only() {
    assert!(!should_ignore_e621_tag("20233"));
    assert!(!should_ignore_e621_tag("202"));
    assert!(!should_ignore_e621_tag("year 2023"));
    assert!(!should_ignore_e621_tag("16:9:1"));
    assert!(!should_ignore_e621_tag(":9"));
    assert!(!should_ignore_e621_tag("Conditional_dnp"));
    assert!(!should_ignore_e621_tag("conditional_dnp "));
    assert!(should_ignore_e621_tag("1920:1080"));
    assert!(!should_ignore_e621_tag(""));
}

#[test]
fn test_artist_formatting() {
    // Create a mock JSON with artist tags
    let tags_json = object(vec![(
        "artist",
        array(&["artist1", "artist2 (artist)", "artist_with_underscores"]),
    )]);

    // Test default formatting (with "by " prefix)
    let processed_tags = process_e621_tags(&tags_json, None);
    assert!(processed_tags.contains(&"by artist1".to_string()));
    assert!(processed_tags.contains(&"by artist2".to_string()));
    assert!(processed_tags.contains(&"by artist with underscores".to_string()));

    // Test with custom prefix
    let config = E621Config::new().with_artist_prefix(Some("drawn by ".to_string()));
    let processed_tags = process_e621_tags(&tags_json, Some(&config));
    assert!(processed_tags.contains(&"drawn by artist1".to_string()));
    assert!(processed_tags.contains(&"drawn by artist2".to_string()));

    // Test with custom suffix
    let config = E621Config::new()
        .with_artist_prefix(None)
        .with_artist_suffix(Some(" (Artist)".to_string()));
    let processed_tags = process_e621_tags(&tags_json, Some(&config));
    assert!(processed_tags.contains(&"artist1 (Artist)".to_string()));
    assert!(processed_tags.contains(&"artist2 (Artist)".to_string()));

    // Test with both prefix and suffix
    let config = E621Config::new()
        .with_artist_prefix(Some("art by ".to_string()))
        .with_artist_suffix(Some(" (verified)".to_string()));
    let processed_tags = process_e621_tags(&tags_json, Some(&config));
    assert!(processed_tags.contains(&"art by artist1 (verified)".to_string()));
    assert!(processed_tags.contains(&"art by artist2 (verified)".to_string()));

    // Test with no prefix or suffix
    let config = E621Config::new()
        .with_artist_prefix(None)
        .with_artist_suffix(None);
    let processed_tags = process_e621_tags(&tags_json, Some(&config));
    assert!(processed_tags.contains(&"artist1".to_string()));
    assert!(processed_tags.contains(&"artist2".to_string()));
}

#[test]
fn test_process_e621_tags() {
    // Create a mock JSON with different tag categories
    let tags_json = object(vec![
        ("artist", array(&["artist1", "artist2 (artist)", "artist_with_underscores"])),
        ("character", array(&["character1", "character_name"])),
        ("species", array(&["wolf", "canine"])),
        ("general", array(&["red_background", "2023", "conditional_dnp", "16:9"])),
    ]);

    // Test with default config (filtering enabled, underscore replacement enabled)
    let processed_tags = process_e621_tags(&tags_json, None);

    // Check artist formatting
    assert!(processed_tags.contains(&"by artist1".to_string()));
    assert!(processed_tags.contains(&"by artist2".to_string())); // (artist) should be removed
    assert!(processed_tags.contains(&"by artist with underscores".to_string())); // underscores replaced

    // Check character tags
    assert!(processed_tags.contains(&"character1".to_string()));
    assert!(processed_tags.contains(&"character name".to_string())); // underscores replaced

    // Check species tags
    assert!(processed_tags.contains(&"wolf".to_string()));
    assert!(processed_tags.contains(&"canine".to_string()));

    // Check general tags - excluded patterns should be filtered out
    assert!(processed_tags.contains(&"red background".to_string())); // underscores replaced
    assert!(!processed_tags.contains(&"2023".to_string())); // year should be ignored
    assert!(!processed_tags.contains(&"conditional_dnp".to_string())); // conditional_dnp should be ignored
    assert!(!processed_tags.contains(&"16:9".to_string())); // aspect ratio should be ignored

    // Test with filtering disabled but underscore replacement still enabled
    let config = E621Config::new()
        .with_filter_tags(false)
        .with_replace_underscores(true);
    let processed_tags = process_e621_tags(&tags_json, Some(&config));

    // All tags should be included when filtering is disabled
    assert!(processed_tags.contains(&"2023".to_string())); // year should be included
    assert!(processed_tags.contains(&"conditional dnp".to_string())); // conditional_dnp should be included with spaces
    assert!(processed_tags.contains(&"16:9".to_string())); // aspect ratio should be included
    assert!(processed_tags.contains(&"red background".to_string())); // underscores still replaced

    // Test with both filtering and underscore replacement disabled
    let config = E621Config::new()
        .with_filter_tags(false)
        .with_replace_underscores(false);
    let processed_tags = process_e621_tags(&tags_json, Some(&config));

    // Tags should preserve underscores and include filtered tags
    assert!(processed_tags.contains(&"red_background".to_string())); // underscores preserved
    assert!(processed_tags.contains(&"2023".to_string())); // year included
    assert!(processed_tags.contains(&"conditional_dnp".to_string())); // conditional_dnp included
    assert!(processed_tags.contains(&"16:9".to_string())); // aspect ratio included
    assert!(processed_tags.contains(&"character_name".to_string())); // underscores preserved
}

#[test]
fn process_e621_tags_keeps_category_order() {
    let tags_json = object(vec![
        ("meta", array(&["hi_res"])),
        ("general", array(&["red_background", "2023"])),
        ("artist", array(&["some_one"])),
        ("species", array(&["wolf"])),
        ("copyright", array(&["star_fox"])),
        ("character", array(&["falco_lombardi"])),
        ("lore", array(&["not_a_category"])),
    ]);
    let processed = process_e621_tags(&tags_json, None);
    assert_eq!(
        processed,
        vec!["by some one", "falco lombardi", "wolf", "star fox", "red background", "hi res"]
    );
    assert!(process_e621_tags(&array(&["wolf"]), None).is_empty());
    assert!(process_e621_tags(&JsonValue::Null, None).is_empty());
}

#[test]
fn process_e621_tags_passes_over_values_that_are_no_strings() {
    let tags_json = object(vec![(
        "general",
        JsonValue::Array(vec![
            string("wolf"),
            JsonValue::Number("7".to_string()),
            JsonValue::Null,
            string("red_fox"),
        ]),
    )]);
    assert_eq!(process_e621_tags(&tags_json, None), vec!["wolf", "red fox"]);
    let tags_json = object(vec![("general", string("wolf"))]);
    assert!(process_e621_tags(&tags_json, None).is_empty());
}

#[test]
fn artist_marker_is_stripped_before_underscores_are_replaced() {
    let config = E621Config::new();
    assert_eq!(config.format_artist_name("artist2 (artist)"), "by artist2");
    assert_eq!(config.format_artist_name("some_one"), "by some one");
    assert_eq!(config.format_artist_name("some_one_(artist)"), "by some one (artist)");
    let plain = E621Config::new().with_artist_prefix(None).with_replace_underscores(false);
    assert_eq!(plain.format_artist_name("a_b (artist)"), "a b");
}

#[test]
fn test_process_e621_json_data() {
    let json_data = post(
        "https://e621.net/posts/12345/example_image.jpg",
        "s",
        object(vec![
            ("artist", array(&["artist1", "artist2 (artist)"])),
            ("character", array(&["character1", "character_name"])),
            ("species", array(&["wolf", "canine"])),
            ("general", array(&["red_background", "2023", "conditional_dnp"])),
        ]),
    );

    let file = process_e621_json_data(&json_data, None).unwrap().unwrap();
    assert_eq!(file.name, "example_image.txt");
    let content = file.content;

    // Verify rating is included
    assert!(content.starts_with("safe, "));

    // Verify artist tags are formatted correctly
    assert!(content.contains("by artist1"));
    assert!(content.contains("by artist2"));

    // Verify character tags are included and formatted correctly
    assert!(content.contains("character1"));
    assert!(content.contains("character name")); // underscores replaced

    // Verify species tags are included
    assert!(content.contains("wolf"));
    assert!(content.contains("canine"));

    // Verify ignored tags are not included
    assert!(!content.contains("2023"));
    assert!(!content.contains("conditional_dnp"));

    assert_eq!(
        content,
        "safe, by artist1, by artist2, character1, character name, wolf, canine, red background"
    );
}

#[test]
fn test_process_e621_json_file() {
    let json_data = post(
        "https://e621.net/posts/12345/test_image.jpg",
        "q",
        object(vec![
            ("artist", array(&["artist1"])),
            ("character", array(&["character1"])),
            ("species", array(&["wolf"])),
            ("general", array(&["red_background"])),
        ]),
    );
    let file = process_e621_json_data(&json_data, None).unwrap().unwrap();
    assert_eq!(file.name, "test_image.txt");
    let content = file.content;
    assert!(content.starts_with("questionable, "));
    assert!(content.contains("by artist1"));
    assert!(content.contains("character1"));
    assert!(content.contains("wolf"));
    assert!(content.contains("red background"));
}

#[test]
fn test_process_e621_json_file_missing_data() {
    // Missing file.url
    let invalid_json = object(vec![(
        "post",
        object(vec![
            ("rating", string("s")),
            ("tags", object(vec![("artist", array(&["artist1"]))])),
        ]),
    )]);
    let result = process_e621_json_data(&invalid_json, None);
    assert_eq!(result, Ok(None));
    assert_eq!(process_e621_json_data(&JsonValue::Null, None), Ok(None));
    assert_eq!(process_e621_json_data(&object(vec![]), None), Ok(None));
    let url_is_no_string = object(vec![(
        "post",
        object(vec![("file", object(vec![("url", JsonValue::Number("1".to_string()))]))]),
    )]);
    assert_eq!(process_e621_json_data(&url_is_no_string, None), Ok(None));
}

#[test]
fn test_process_e621_json_file_empty_tags() {
    let empty_tags_json = post(
        "https://e621.net/posts/12345/empty_tags.jpg",
        "e",
        object(vec![
            ("artist", array(&[])),
            ("character", array(&[])),
            ("species", array(&[])),
            ("general", array(&["2023", "conditional_dnp", "16:9"])),
        ]),
    );

    // With the default config (filtering enabled) no caption is produced
    let result = process_e621_json_data(&empty_tags_json, None);
    assert_eq!(result, Ok(None));

    // With filtering disabled the caption is produced
    let config = E621Config::new().with_filter_tags(false);
    let file = process_e621_json_data(&empty_tags_json, Some(config)).unwrap().unwrap();
    assert_eq!(file.name, "empty_tags.txt");
    assert_eq!(file.content, "explicit,,, 2023, conditional dnp, 16:9");
}

#[test]
fn record_with_only_ignored_general_tags() {
    let record = post(
        "https://example.com/only_ignored.png",
        "s",
        object(vec![("general", array(&["2023", "16:9"]))]),
    );
    assert_eq!(process_e621_json_data(&record, None), Ok(None));
    let config = E621Config::new().with_filter_tags(false);
    let file = process_e621_json_data(&record, Some(config)).unwrap().unwrap();
    assert!(file.content.contains("2023"));
    assert!(file.content.contains("16:9"));
}

#[test]
fn record_with_one_artist() {
    let record = post(
        "https://example.com/one.png",
        "s",
        object(vec![("artist", array(&["artist2 (artist)"]))]),
    );
    let file = process_e621_json_data(&record, None).unwrap().unwrap();
    assert!(file.content.starts_with("safe, "));
    assert!(file.content.contains("by artist2"));
    assert!(!file.content.contains("(artist)"));
    assert!(!file.content.contains('_'));
    assert_eq!(file.content, "safe, by artist2");
}

#[test]
fn test_process_real_e621_example() {
    let real_json = post(
        "https://static1.e621.net/data/d2/08/d20854c9096914d82ac3acf050f5d373.jpg",
        "s",
        object(vec![
            (
                "general",
                array(&[
                    "anthro",
                    "armor",
                    "blue_body",
                    "blue_eyes",
                    "blue_feathers",
                    "clothed",
                    "clothing",
                    "feathers",
                    "headgear",
                    "helmet",
                    "lying",
                    "male",
                    "on_front",
                    "reflector_(object)",
                    "scouter",
                    "smile",
                    "solo",
                    "tail",
                ]),
            ),
            ("artist", array(&["ulala_ko"])),
            ("contributor", array(&[])),
            ("copyright", array(&["nintendo", "star_fox"])),
            ("character", array(&["falco_lombardi"])),
            ("species", array(&["avian"])),
            ("invalid", array(&[])),
            (
                "meta",
                array(&[
                    "hi_res",
                    "painting_(artwork)",
                    "traditional_media_(artwork)",
                    "watercolor_(artwork)",
                ]),
            ),
            ("lore", array(&[])),
        ]),
    );

    let file = process_e621_json_data(&real_json, None).unwrap().unwrap();
    assert_eq!(file.name, "d20854c9096914d82ac3acf050f5d373.txt");
    let content = file.content;

    assert!(content.starts_with("safe, "));
    assert!(content.contains("by ulala ko"));
    assert!(content.contains("falco lombardi"));
    assert!(content.contains("avian"));
    assert!(content.contains("nintendo"));
    assert!(content.contains("star fox"));
    assert!(content.contains("painting (artwork)"));
    assert!(content.contains("traditional media (artwork)"));
    assert!(content.contains("watercolor (artwork)"));
    assert!(content.contains("anthro"));
    assert!(content.contains("blue eyes"));
    assert!(content.contains("armor"));
}

#[test]
fn test_e621_config() {
    let json_data = post(
        "https://example.com/123abc.jpg",
        "s",
        object(vec![
            ("artist", array(&["artist1", "artist2 (artist)"])),
            ("character", array(&["character1"])),
            ("general", array(&["tag1", "2023", "16:9"])),
        ]),
    );

    // Test default config
    let file = process_e621_json_data(&json_data, None).unwrap().unwrap();
    assert_eq!(file.name, "123abc.txt");
    let content = file.content;
    assert!(content.starts_with("safe")); // Default rating conversion
    assert!(content.contains("by artist1")); // Default artist formatting
    assert!(!content.contains("2023")); // Default filtering enabled

    // Test custom rating conversions
    let mut custom_ratings = RatingConversions::new();
    custom_ratings.insert("s".to_string(), "sfw".to_string());

    let config = E621Config::new().with_rating_conversions(Some(custom_ratings));
    let content = process_e621_json_data(&json_data, Some(config)).unwrap().unwrap().content;
    assert!(content.starts_with("sfw")); // Custom rating conversion

    // Test custom format
    let config =
        E621Config::new().with_format(Some("Rating: {rating}\nArtists: {artists}".to_string()));
    let content = process_e621_json_data(&json_data, Some(config)).unwrap().unwrap().content;
    assert!(content.starts_with("Rating: safe\n")); // Custom format
    assert!(content.contains("Artists: by artist1")); // Custom format with artists
    assert_eq!(content, "Rating: safe\nArtists: by artist1, by artist2");

    // Test raw ratings (no conversion)
    let config = E621Config::new().with_rating_conversions(None);
    let content = process_e621_json_data(&json_data, Some(config)).unwrap().unwrap().content;
    assert!(content.starts_with("s")); // Raw rating
    assert!(content.starts_with("s, by artist1"));

    // Test disabled filtering
    let config = E621Config::new().with_filter_tags(false);
    let content = process_e621_json_data(&json_data, Some(config)).unwrap().unwrap().content;
    assert!(content.contains("2023")); // Year tag included when filtering disabled
    assert!(content.contains("16:9")); // Aspect ratio included when filtering disabled
}

#[test]
fn rating_defaults_and_unmapped_ratings() {
    let no_rating = object(vec![(
        "post",
        object(vec![
            ("file", object(vec![("url", string("a/b/pic.png"))])),
            ("tags", object(vec![("species", array(&["wolf"]))])),
        ]),
    )]);
    let file = process_e621_json_data(&no_rating, None).unwrap().unwrap();
    assert_eq!(file.content, "questionable,, wolf");
    let odd = post("pic.png", "x", object(vec![("species", array(&["wolf"]))]));
    let file = process_e621_json_data(&odd, None).unwrap().unwrap();
    assert_eq!(file.content, "x,, wolf");
    let config = E621Config::new();
    assert_eq!(config.convert_rating("s"), "safe");
    assert_eq!(config.convert_rating("q"), "questionable");
    assert_eq!(config.convert_rating("e"), "explicit");
    assert_eq!(config.convert_rating("safe"), "safe");
    assert_eq!(
        config.get_format(),
        "{rating}, {artists}, {characters}, {species}, {copyright}, {general}, {meta}"
    );
}

#[test]
fn record_without_tags_is_gated_by_filtering() {
    let no_tags = object(vec![(
        "post",
        object(vec![
            ("file", object(vec![("url", string("https://example.com/pic.png"))])),
            ("rating", string("s")),
        ]),
    )]);
    assert_eq!(process_e621_json_data(&no_tags, None), Ok(None));
    let config = E621Config::new().with_filter_tags(false);
    let file = process_e621_json_data(&no_tags, Some(config)).unwrap().unwrap();
    assert_eq!(file.name, "pic.txt");
    assert_eq!(file.content, "safe");
}

#[test]
fn url_without_file_name_is_an_error() {
    let record = post("https://example.com/..", "s", object(vec![("species", array(&["wolf"]))]));
    assert_eq!(process_e621_json_data(&record, None), Err(CaptionError::UrlWithoutFileName));
    let record = post("", "s", object(vec![("species", array(&["wolf"]))]));
    assert_eq!(process_e621_json_data(&record, None), Err(CaptionError::UrlWithoutFileName));
}

#[test]
fn rating_conversions_behave_as_a_map() {
    let mut ratings = RatingConversions::new();
    assert_eq!(ratings.get("s"), None);
    ratings.insert("s".to_string(), "safe".to_string());
    ratings.insert("q".to_string(), "questionable".to_string());
    ratings.insert("s".to_string(), "sfw".to_string());
    assert_eq!(ratings.get("s"), Some("sfw".to_string()));
    assert_eq!(ratings.get("q"), Some("questionable".to_string()));
    assert_eq!(ratings.get("e"), None);
}

#[test]
fn test_format_text_content() {
    // Test with multiple spaces
    let text = "This   has  too   many    spaces";
    let formatted = format_text_content(text).unwrap();
    assert_eq!(formatted, "This has too many spaces");

    // Test with newlines
    let text = "Line 1\nLine 2\n\nLine 3";
    let formatted = format_text_content(text).unwrap();
    assert_eq!(formatted, "Line 1 Line 2 Line 3");

    // Test with tabs
    let text = "Text\twith\ttabs";
    let formatted = format_text_content(text).unwrap();
    assert_eq!(formatted, "Text with tabs");

    // Test with leading/trailing whitespace
    let text = "  \t  Text with spaces around   \n  ";
    let formatted = format_text_content(text).unwrap();
    assert_eq!(formatted, "Text with spaces around");

    // Test with a mix of whitespace characters
    let text = "  Mixed \t spacing  \n and \r newlines  ";
    let formatted = format_text_content(text).unwrap();
    assert_eq!(formatted, "Mixed spacing and newlines");

    // Test with empty string
    let text = "";
    let formatted = format_text_content(text).unwrap();
    assert_eq!(formatted, "");

    // Test with only whitespace
    let text = "   \t \n   ";
    let formatted = format_text_content(text).unwrap();
    assert_eq!(formatted, "");
}

#[test]
fn format_text_content_knows_unicode_whitespace() {
    assert_eq!(format_text_content("a\u{00A0}b\u{3000}c\u{2003}\u{2028}d").unwrap(), "a b c d");
    assert_eq!(format_text_content("a\u{200B}b").unwrap(), "a\u{200B}b");
    let reference: Vec<&str> = "x\u{0085}y\u{1680}z\u{202F}w\u{205F}v\u{000B}u\u{000C}t"
        .split_whitespace()
        .collect();
    assert_eq!(
        format_text_content("x\u{0085}y\u{1680}z\u{202F}w\u{205F}v\u{000B}u\u{000C}t").unwrap(),
        reference.join(" ")
    );
}

#[test]
fn test_replace_string() {
    let initial_content = "This is a test string. This string should be replaced.";

    // Test basic string replacement
    let content = replace_string(initial_content, "test", "sample").unwrap();
    assert_eq!(content, "This is a sample string. This string should be replaced.");

    // Test replacing multiple occurrences
    let content = replace_string(&content, "string", "text").unwrap();
    assert_eq!(content, "This is a sample text. This text should be replaced.");

    // Test replacing with empty string - should also format content
    let content = replace_string(&content, "This is a ", "").unwrap();
    assert_eq!(content, "sample text. This text should be replaced.");

    // Test when search string is not found - nothing is to be written
    assert_eq!(replace_string(&content, "nonexistent", "replacement"), None);

    // Test with empty search string - nothing is to be written
    assert_eq!(replace_string(&content, "", "replacement"), None);
}

#[test]
fn test_replace_string_formatting() {
    let content = "  This   has  too   many    spaces  \n\n  and newlines  ";
    let result = replace_string(content, "too   many", "").unwrap();
    assert_eq!(result, "This has spaces and newlines");
}

#[test]
fn test_caption_file_exists_and_not_empty() {
    assert!(!caption_is_not_empty(""));
    assert!(!caption_is_not_empty("   \n  \t  "));
    assert!(caption_is_not_empty("This is a caption"));
}

#[test]
fn test_process_file_plain_text() {
    assert_eq!(
        read_caption("tag1, tag2, tag3., This is a test caption.\n"),
        CaptionContent::Text("tag1, tag2, tag3., This is a test caption.".to_string())
    );
}

#[test]
fn test_process_file_json() {
    assert_eq!(
        read_caption("{\"caption\": \"A test caption\", \"tags\": [\"tag1\", \"tag2\"]}"),
        CaptionContent::Json(object(vec![
            ("caption", string("A test caption")),
            ("tags", array(&["tag1", "tag2"])),
        ]))
    );
}

#[test]
fn test_process_file_invalid_json() {
    assert_eq!(
        read_caption("{ invalid json }"),
        CaptionContent::Text("{ invalid json }".to_string())
    );
}

#[test]
fn test_process_caption_file_json() {
    assert_eq!(
        read_caption("{\"caption\":\"A test caption\"}"),
        CaptionContent::Json(object(vec![("caption", string("A test caption"))]))
    );
}

#[test]
fn test_process_caption_file_text() {
    assert_eq!(
        read_caption("This is a plain text caption"),
        CaptionContent::Text("This is a plain text caption".to_string())
    );
}

#[test]
fn test_integration_text_processing() {
    let content = "  This   text has 'smart quotes' and   excess  \n\n whitespace.";

    // First replace a string
    let content = replace_string(content, "text", "document").unwrap();
    assert_eq!(content, "  This   document has 'smart quotes' and   excess  \n\n whitespace.");

    // Finally, remove some text and trigger formatting
    let result = replace_string(&content, "This   document has ", "").unwrap();
    assert_eq!(result, "'smart quotes' and excess whitespace.");
}

#[test]
fn test_process_json_to_caption() {
    // the tags whose probability reaches the threshold, most probable first
    let tags = vec!["tag1".to_string(), "tag2".to_string()];
    let content = caption_from_tags(&tags);
    assert!(content.contains("tag1"));
    assert!(content.contains("tag2"));
    assert!(!content.contains("tag3"));
    assert_eq!(content, "tag1, tag2");
}

#[test]
fn parentheses_are_escaped_in_tag_captions() {
    assert_eq!(escape_parentheses("reflector_(object)"), "reflector_\\(object\\)");
    assert_eq!(escape_parentheses("plain"), "plain");
    assert_eq!(escape_parentheses(")("), "\\)\\(");
    let tags = vec!["a_(b)".to_string(), "c".to_string()];
    assert_eq!(caption_from_tags(&tags), "a_\\(b\\), c");
    assert_eq!(caption_from_tags(&[]), "");
}
