use dset::concat::{concat_tags, parse_tags, ConcatConfig, FileExtensionPreset};
use dset::dedup::{check_duplicate_content, digest_contents, ContentHashes};
use dset::group::{
    classify_outcome, discover_group, is_base_file, missing_companions, process_image_file,
    GroupError, GroupOutcome, MergedFile, RunCounters,
};
use dset::run::{Run, Step};

fn strings(items: &[&str]) -> Vec<String> {
    items.iter().map(|item| item.to_string()).collect()
}

fn config(extensions: &[&str], remove_duplicates: bool) -> ConcatConfig {
    ConcatConfig {
        base_extensions: vec!["jpg".into()],
        extensions_to_concat: strings(extensions),
        output_extension: "txt".into(),
        remove_duplicates,
        tag_separator: ", ".into(),
        deduplicate_files: false,
    }
}

#[test]
fn test_concat_tags_with_duplicates() {
    let config = config(&["wd", "tags", "caption"], true);

    let contents = vec![
        "tag1, tag2, tag3".to_string(),    // wd
        "tag2, tag4, tag5".to_string(),    // tags
        "a photo of a person".to_string(), // caption
    ];

    let file_paths = strings(&["test.wd", "test.tags", "test.caption"]);

    let result = concat_tags(&contents, &config, &file_paths);

    // Tags should be deduplicated and caption should be appended
    assert_eq!(result, "tag1, tag2, tag3, tag4, tag5, a photo of a person");
}

#[test]
fn test_concat_tags_without_duplicates() {
    let config = config(&["wd", "tags", "caption"], false);

    let contents = vec![
        "tag1, tag2, tag3".to_string(),    // wd
        "tag2, tag4, tag5".to_string(),    // tags
        "a photo of a person".to_string(), // caption
    ];

    let file_paths = strings(&["test.wd", "test.tags", "test.caption"]);

    let result = concat_tags(&contents, &config, &file_paths);

    // Should preserve order and duplicates for tags, then append caption
    assert_eq!(result, "tag1, tag2, tag3, tag2, tag4, tag5, a photo of a person");
}

#[test]
fn test_concat_tags_caption_handling() {
    let first = config(&["wd", "tags", "caption"], true);

    // Test with tag that also appears in caption - should not deduplicate across
    let contents = vec![
        "person, photo".to_string(),                    // wd
        "person, indoor, white background".to_string(), // tags
        "a photo of a person".to_string(),              // caption
    ];

    let file_paths = strings(&["test.wd", "test.tags", "test.caption"]);

    let result = concat_tags(&contents, &first, &file_paths);

    // Tags should be deduplicated among themselves, not with caption content
    assert_eq!(result, "indoor, person, photo, white background, a photo of a person");

    // Test with caption as first extension
    let second = config(&["caption", "wd", "tags"], true);

    let contents = vec![
        "a photo of a person".to_string(),              // caption
        "person, photo".to_string(),                    // wd
        "person, indoor, white background".to_string(), // tags
    ];

    let file_paths = strings(&["test.caption", "test.wd", "test.tags"]);

    let result = concat_tags(&contents, &second, &file_paths);

    // Caption should still be appended after deduplicated tags
    assert_eq!(result, "indoor, person, photo, white background, a photo of a person");
}

#[test]
fn concat_tags_edge_cases() {
    let dedup = config(&["wd", "tags", "caption"], true);
    let paths = strings(&["x.wd", "x.tags", "x.caption"]);
    assert_eq!(concat_tags(&[], &dedup, &paths), "");
    // no tags: the caption alone
    assert_eq!(concat_tags(&strings(&[" , ,", "", "only caption"]), &dedup, &paths), "only caption");
    // no caption: the tags alone
    assert_eq!(concat_tags(&strings(&["b, a", "c", ""]), &dedup, &paths), "a, b, c");
    // neither
    assert_eq!(concat_tags(&strings(&["", "", ""]), &dedup, &paths), "");
    // the florence companion is the caption where no caption companion is configured
    let florence = config(&["florence", "wd"], false);
    assert_eq!(
        concat_tags(&strings(&["free text, kept", "b, a"]), &florence, &strings(&["x.florence", "x.wd"])),
        "b, a, free text, kept"
    );
    // without caption and florence the last configured extension marks the caption
    let plain = config(&["wd", "tags"], false);
    assert_eq!(
        concat_tags(&strings(&["b, a", "z, y"]), &plain, &strings(&["x.wd", "x.tags"])),
        "b, a, z, y"
    );
    // no path has the caption extension: the last companion is the caption
    assert_eq!(
        concat_tags(&strings(&["b, a", "z, y"]), &dedup, &strings(&["x.wd", "x.tags"])),
        "a, b, z, y"
    );
    // another separator
    let mut bar = config(&["wd", "caption"], true);
    bar.tag_separator = " | ".into();
    assert_eq!(
        concat_tags(&strings(&["b,a,b", "text"]), &bar, &strings(&["x.wd", "x.caption"])),
        "a | b | text"
    );
}

#[test]
fn dedup_sorts_by_code_point() {
    let dedup = config(&["wd", "caption"], true);
    let paths = strings(&["x.wd", "x.caption"]);
    let contents = strings(&["b, B, a, ab, a, \u{e9}, z, 10, 9, aa", ""]);
    let mut expected = vec!["b", "B", "a", "ab", "\u{e9}", "z", "10", "9", "aa"];
    expected.sort();
    assert_eq!(concat_tags(&contents, &dedup, &paths), expected.join(", "));
}

#[test]
fn joining_deduplicated_tags_again_changes_nothing() {
    let dedup = config(&["wd", "tags", "caption"], true);
    let paths = strings(&["x.wd", "x.tags", "x.caption"]);
    let once = concat_tags(&strings(&["tag3, tag1", "tag2,tag1 , tag3", ""]), &dedup, &paths);
    assert_eq!(once, "tag1, tag2, tag3");
    let twice = concat_tags(&vec![once.clone(), "".to_string(), "".to_string()], &dedup, &paths);
    assert_eq!(twice, once);
}

#[test]
fn parse_tags_trims_and_drops_empty_pieces() {
    assert_eq!(parse_tags(" a ,b,, c d ,\t"), vec!["a", "b", "c d"]);
    assert!(parse_tags("").is_empty());
    assert!(parse_tags(" , ,").is_empty());
}

#[test]
fn presets_and_builders() {
    let caption = ConcatConfig::from_preset(FileExtensionPreset::CaptionWdTags);
    assert_eq!(
        caption.base_extensions,
        strings(&["png", "jpg", "jpeg", "webp", "gif", "tiff", "bmp", "jxl", "avif"])
    );
    assert_eq!(caption.extensions_to_concat, strings(&["caption", "wd", "tags"]));
    assert_eq!(caption.output_extension, "txt");
    assert!(caption.remove_duplicates);
    assert_eq!(caption.tag_separator, ", ");
    assert!(!caption.deduplicate_files);
    let florence = ConcatConfig::from_preset(FileExtensionPreset::FlorenceWdTags);
    assert_eq!(florence.extensions_to_concat, strings(&["florence", "wd", "tags"]));
    assert_eq!(FileExtensionPreset::CaptionWdTags.to_string(), "caption+wd+tags");
    assert_eq!(FileExtensionPreset::FlorenceWdTags.to_string(), "florence+wd+tags");
    let made = ConcatConfig::new(strings(&["jpg"]), strings(&["wd"]), "out".into(), false, ";".into());
    assert_eq!(made.base_extensions, strings(&["jpg"]));
    assert_eq!(made.extensions_to_concat, strings(&["wd"]));
    assert_eq!(made.output_extension, "out");
    assert!(!made.remove_duplicates);
    assert_eq!(made.tag_separator, ";");
    assert!(!made.deduplicate_files);
    let on = made.clone().with_deduplication(true);
    assert!(on.deduplicate_files);
    assert_eq!(on.extensions_to_concat, made.extensions_to_concat);
    assert!(!on.with_deduplication(false).deduplicate_files);
}

#[test]
fn test_process_image_file() {
    let config = config(&["caption", "wd", "tags"], true);
    let companions = vec![
        Some("caption1, caption2".to_string()),
        Some("wd1, wd2".to_string()),
        Some("tag1, tag2".to_string()),
    ];
    let file = process_image_file("/data/set/test.jpg", &config, &companions).unwrap().unwrap();
    assert_eq!(file.name, "test.txt");
    // Caption file content should come last, after the deduplicated tags
    assert_eq!(file.content, "tag1, tag2, wd1, wd2, caption1, caption2");
}

#[test]
fn process_image_file_trims_what_it_is_given() {
    let config = config(&["caption", "wd"], false);
    let companions = vec![Some("  a caption \n".to_string()), Some("\n b , a \n".to_string())];
    let file = process_image_file("test.jpg", &config, &companions).unwrap().unwrap();
    assert_eq!(file.content, "b, a, a caption");
}

#[test]
fn group_with_a_missing_companion_is_skipped() {
    let config = config(&["caption", "wd", "tags"], true);
    let companions = vec![Some("a caption".to_string()), None, Some("tag1".to_string())];
    let result = process_image_file("dir/test.jpg", &config, &companions);
    assert_eq!(result, Ok(None));
    let group = discover_group("dir/test.jpg", &config).unwrap();
    assert_eq!(group.stem, "test");
    assert_eq!(group.companions, strings(&["test.caption", "test.wd", "test.tags"]));
    assert_eq!(group.output, "test.txt");
    assert_eq!(missing_companions(&group.companions, &companions), strings(&["test.wd"]));
    assert_eq!(
        missing_companions(&group.companions, &[]),
        strings(&["test.caption", "test.wd", "test.tags"])
    );
    let mut counters = RunCounters::new();
    counters.record(classify_outcome(&result, false, true));
    assert_eq!(counters, RunCounters { processed: 0, skipped_duplicates: 0 });
    assert_eq!(classify_outcome(&result, false, true), GroupOutcome::Skipped);
    // too few companions given: skipped as well
    assert_eq!(process_image_file("dir/test.jpg", &config, &companions[..1]), Ok(None));
}

#[test]
fn path_without_stem_is_an_error() {
    let config = config(&["caption"], true);
    let companions = vec![Some("a".to_string())];
    assert_eq!(process_image_file("dir/..", &config, &companions), Err(GroupError::NoFileStem));
    assert_eq!(process_image_file("", &config, &companions), Err(GroupError::NoFileStem));
    assert_eq!(discover_group("/", &config), None);
    assert_eq!(
        classify_outcome(&Err(GroupError::NoFileStem), false, true),
        GroupOutcome::Failed
    );
}

#[test]
fn counters_count_processed_and_duplicates() {
    let config = config(&["caption"], true);
    let done = process_image_file("a.jpg", &config, &[Some("text".to_string())]);
    assert_eq!(classify_outcome(&done, false, true), GroupOutcome::Processed);
    assert_eq!(classify_outcome(&done, false, false), GroupOutcome::WriteFailed);
    assert_eq!(classify_outcome(&done, true, false), GroupOutcome::Processed);
    assert!(GroupOutcome::WriteFailed.aborts_run());
    assert!(!GroupOutcome::Failed.aborts_run());
    assert!(!GroupOutcome::Skipped.aborts_run());
    assert!(!GroupOutcome::Duplicate.aborts_run());
    assert!(!GroupOutcome::Processed.aborts_run());
    let mut counters = RunCounters::new();
    counters.record(GroupOutcome::Processed);
    counters.record(GroupOutcome::Duplicate);
    counters.record(GroupOutcome::Processed);
    counters.record(GroupOutcome::Skipped);
    counters.record(GroupOutcome::Failed);
    counters.record(GroupOutcome::WriteFailed);
    assert_eq!(counters, RunCounters { processed: 2, skipped_duplicates: 1 });
    let mut full = RunCounters { processed: usize::MAX, skipped_duplicates: usize::MAX };
    full.record(GroupOutcome::Processed);
    full.record(GroupOutcome::Duplicate);
    assert_eq!(full, RunCounters { processed: usize::MAX, skipped_duplicates: usize::MAX });
}

#[test]
fn base_files_are_told_by_their_lowercase_extension() {
    let config = ConcatConfig::from_preset(FileExtensionPreset::CaptionWdTags);
    assert!(is_base_file("dir/picture.jpg", &config));
    assert!(is_base_file("dir/picture.JPG", &config));
    assert!(is_base_file("picture.tar.Png", &config));
    assert!(!is_base_file("dir/picture.txt", &config));
    assert!(!is_base_file("dir/picture", &config));
    assert!(!is_base_file("dir/.jpg", &config));
    assert!(!is_base_file("dir.jpg/picture", &config));
}

#[test]
fn test_file_deduplication() {
    let config = ConcatConfig {
        base_extensions: vec!["jpg".into()],
        extensions_to_concat: strings(&["caption", "wd", "tags"]),
        output_extension: "txt".into(),
        remove_duplicates: true,
        tag_separator: ", ".into(),
        deduplicate_files: true,
    };
    let first = vec![
        Some("a photo of a person".to_string()),
        Some("masterpiece, digital art".to_string()),
        Some("tag1, tag2, tag3".to_string()),
    ];
    let second = first.clone();
    let third = vec![
        Some("person, portrait, indoor".to_string()),
        Some("highly detailed, 4k".to_string()),
        Some("tag4, tag5, tag6".to_string()),
    ];
    let mut content_hashes = ContentHashes::new();

    // Process the first image - should succeed
    let is_duplicate1 = check_duplicate_content("image1.jpg", &first, &mut content_hashes);
    assert!(!is_duplicate1, "First image should not be detected as duplicate");
    let processed1 = process_image_file("image1.jpg", &config, &first).unwrap();
    assert!(processed1.is_some(), "First image should be processed successfully");

    // Process the second image - should be detected as duplicate
    let is_duplicate2 = check_duplicate_content("image2.jpg", &second, &mut content_hashes);
    assert!(is_duplicate2, "Second image should be detected as duplicate");

    // Process the third image - should not be a duplicate
    let is_duplicate3 = check_duplicate_content("image3.jpg", &third, &mut content_hashes);
    assert!(!is_duplicate3, "Third image should not be detected as duplicate");
    let processed3 = process_image_file("image3.jpg", &config, &third).unwrap();
    assert!(processed3.is_some(), "Third image should be processed successfully");

    let output1 = processed1.unwrap();
    let output3 = processed3.unwrap();
    assert_eq!(output1.name, "image1.txt");
    assert_eq!(output3.name, "image3.txt");

    // Check first file contains the deduplicated tags
    assert!(output1.content.contains("tag1, tag2, tag3"));
    assert!(output1.content.contains("digital art, masterpiece"));
    assert!(output1.content.contains("a photo of a person"));

    // Check third file contains its unique content
    assert!(output3.content.contains("tag4, tag5, tag6"));
    assert!(output3.content.contains("4k, highly detailed"));
    assert!(output3.content.contains("person, portrait, indoor"));
}

#[test]
fn digest_is_the_md5_of_the_combined_content() {
    // MD5 of the empty text and of "abc".
    assert_eq!(digest_contents(&[]), 0xd41d8cd98f00b204e9800998ecf8427e_u128);
    assert_eq!(
        digest_contents(&strings(&["a", "", "bc"])),
        0x900150983cd24fb0d6963f7d28e17f72_u128
    );
    assert_eq!(digest_contents(&strings(&["abc"])), digest_contents(&strings(&["ab", "c"])));
    assert_ne!(digest_contents(&strings(&["abc"])), digest_contents(&strings(&["abd"])));
}

#[test]
fn table_registers_first_owner_only() {
    let mut table = ContentHashes::new();
    assert_eq!(table.first_owner(7), None);
    assert!(!table.check_and_register(7, "first.jpg"));
    assert!(table.check_and_register(7, "second.jpg"));
    assert_eq!(table.first_owner(7), Some("first.jpg".to_string()));
    assert!(!table.check_and_register(8, "third.jpg"));
    assert_eq!(table.first_owner(8), Some("third.jpg".to_string()));
}

#[test]
fn incomplete_group_is_no_duplicate_and_is_not_registered() {
    let mut table = ContentHashes::new();
    let incomplete = vec![Some("a".to_string()), None];
    assert!(!check_duplicate_content("one.jpg", &incomplete, &mut table));
    assert!(!check_duplicate_content("two.jpg", &incomplete, &mut table));
    let complete = vec![Some("a".to_string()), Some("".to_string())];
    assert!(!check_duplicate_content("three.jpg", &complete, &mut table));
    assert!(check_duplicate_content("four.jpg", &complete, &mut table));
}

#[test]
fn a_run_walks_through_its_steps() {
    let config = ConcatConfig {
        base_extensions: vec!["jpg".into()],
        extensions_to_concat: strings(&["caption", "wd"]),
        output_extension: "txt".into(),
        remove_duplicates: true,
        tag_separator: ", ".into(),
        deduplicate_files: true,
    };
    let mut run = Run::new(config, false);
    let first = vec![Some("a caption".to_string()), Some("b, a".to_string())];
    assert_eq!(run.step("dir/notes.md", &first), Step::Ignore);
    assert_eq!(
        run.step("dir/one.jpg", &first),
        Step::Write {
            file: MergedFile { name: "one.txt".into(), content: "a, b, a caption".into() }
        }
    );
    assert_eq!(run.finish_write(true), GroupOutcome::Processed);
    assert_eq!(run.step("dir/two.JPG", &first), Step::SkipDuplicate);
    let incomplete = vec![Some("a caption".to_string()), None];
    assert_eq!(
        run.step("dir/three.jpg", &incomplete),
        Step::SkipIncomplete { missing: strings(&["three.wd"]) }
    );
    assert_eq!(
        run.step("dir/four.jpg", &[]),
        Step::SkipIncomplete { missing: strings(&["four.caption", "four.wd"]) }
    );
    let other = vec![Some("a caption".to_string()), Some("c".to_string())];
    assert!(matches!(run.step("dir/five.jpg", &other), Step::Write { .. }));
    assert_eq!(run.finish_write(false), GroupOutcome::WriteFailed);
    assert_eq!(run.counters, RunCounters { processed: 1, skipped_duplicates: 1 });
}

#[test]
fn a_dry_run_counts_without_writing() {
    let mut run = Run::new(config(&["caption"], true), true);
    let companions = vec![Some("text".to_string())];
    assert!(matches!(run.step("a.jpg", &companions), Step::Write { .. }));
    assert_eq!(run.finish_write(false), GroupOutcome::Processed);
    // without file deduplication the same content is merged again
    assert!(matches!(run.step("b.jpg", &companions), Step::Write { .. }));
    assert_eq!(run.finish_write(false), GroupOutcome::Processed);
    assert_eq!(run.counters, RunCounters { processed: 2, skipped_duplicates: 0 });
}
