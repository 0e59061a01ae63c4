//! Merging the companion files of one dataset item into a single caption text.
//!
//! Tag-bearing companions are split into tags, optionally deduplicated and sorted, and
//! joined; the caption companion follows the tags as free text.

use vstd::prelude::*;
use crate::order::{
    ascending, lemma_ascending_distinct, lemma_sorted_distinct, sort_distinct, sorted_distinct,
};
use crate::paths::{extension, path_extension};
use crate::text::{
    chars_of, drop_empty, extend_chars, join, join_text, keep_nonempty, split_by, split_text,
    string_of, text_eq, trim_all, trim_each, CharClass,
};

verus! {

/// Predefined combinations of companion extensions.
#[derive(Debug, Clone, Copy, PartialEq, Eq, Structural)]
pub enum FileExtensionPreset {
    /// Merges `.caption`, `.wd` and `.tags` files into `.txt`.
    CaptionWdTags,
    /// Merges `.florence`, `.wd` and `.tags` files into `.txt`.
    FlorenceWdTags,
}

impl FileExtensionPreset {
    /// The name of the preset: its extensions joined by `+`.
    pub open spec fn label(self) -> Seq<char> {
        match self {
            FileExtensionPreset::CaptionWdTags => "caption+wd+tags"@,
            FileExtensionPreset::FlorenceWdTags => "florence+wd+tags"@,
        }
    }

    /// The extension of the caption companion that the preset names.
    pub open spec fn caption_companion(self) -> Seq<char> {
        match self {
            FileExtensionPreset::CaptionWdTags => "caption"@,
            FileExtensionPreset::FlorenceWdTags => "florence"@,
        }
    }

    /// The name of the preset as text.
    pub fn to_string(&self) -> (r: String)
        ensures
            r@ == self.label(),
    {
        match self {
            FileExtensionPreset::CaptionWdTags => "caption+wd+tags".to_owned(),
            FileExtensionPreset::FlorenceWdTags => "florence+wd+tags".to_owned(),
        }
    }
}

/// How the companion files of an item are found and merged.
#[derive(Debug, Clone, PartialEq, Eq)]
pub struct ConcatConfig {
    /// Extensions of the base files (the images), without the dot.
    pub base_extensions: Vec<String>,
    /// Extensions of the companion files to merge, without the dot, in merge order.
    pub extensions_to_concat: Vec<String>,
    /// Extension of the merged file, without the dot.
    pub output_extension: String,
    /// Whether tags are deduplicated and sorted.
    pub remove_duplicates: bool,
    /// What is written between two tags, and between the tags and the caption.
    pub tag_separator: String,
    /// Whether items whose companions have identical content are merged only once.
    pub deduplicate_files: bool,
}

/// The image extensions that the presets look for.
pub open spec fn preset_base_extensions() -> Seq<Seq<char>> {
    seq![
        "png"@,
        "jpg"@,
        "jpeg"@,
        "webp"@,
        "gif"@,
        "tiff"@,
        "bmp"@,
        "jxl"@,
        "avif"@,
    ]
}

impl ConcatConfig {
    /// A configuration with the given settings and file deduplication off.
    pub fn new(
        base_extensions: Vec<String>,
        extensions_to_concat: Vec<String>,
        output_extension: String,
        remove_duplicates: bool,
        tag_separator: String,
    ) -> (config: Self)
        ensures
            config.base_extensions == base_extensions,
            config.extensions_to_concat == extensions_to_concat,
            config.output_extension == output_extension,
            config.remove_duplicates == remove_duplicates,
            config.tag_separator == tag_separator,
            !config.deduplicate_files,
    {
        ConcatConfig {
            base_extensions,
            extensions_to_concat,
            output_extension,
            remove_duplicates,
            tag_separator,
            deduplicate_files: false,
        }
    }

    /// The same configuration with file deduplication switched on or off.
    pub fn with_deduplication(self, deduplicate: bool) -> (config: Self)
        ensures
            config.base_extensions == self.base_extensions,
            config.extensions_to_concat == self.extensions_to_concat,
            config.output_extension == self.output_extension,
            config.remove_duplicates == self.remove_duplicates,
            config.tag_separator == self.tag_separator,
            config.deduplicate_files == deduplicate,
    {
        let mut config = self;
        config.deduplicate_files = deduplicate;
        config
    }

    /// The configuration that a preset stands for.
    pub fn from_preset(preset: FileExtensionPreset) -> (config: Self)
        ensures
            config.base_extensions.deep_view() == preset_base_extensions(),
            config.extensions_to_concat.deep_view() == seq![
                preset.caption_companion(),
                "wd"@,
                "tags"@,
            ],
            config.output_extension@ == "txt"@,
            config.remove_duplicates,
            config.tag_separator@ == ", "@,
            !config.deduplicate_files,
    {
        let mut base: Vec<String> = Vec::new();
        base.push("png".to_owned());
        base.push("jpg".to_owned());
        base.push("jpeg".to_owned());
        base.push("webp".to_owned());
        base.push("gif".to_owned());
        base.push("tiff".to_owned());
        base.push("bmp".to_owned());
        base.push("jxl".to_owned());
        base.push("avif".to_owned());
        let mut companions: Vec<String> = Vec::new();
        match preset {
            FileExtensionPreset::CaptionWdTags => companions.push("caption".to_owned()),
            FileExtensionPreset::FlorenceWdTags => companions.push("florence".to_owned()),
        }
        companions.push("wd".to_owned());
        companions.push("tags".to_owned());
        assert(base.deep_view() =~= preset_base_extensions());
        assert(companions.deep_view() =~= seq![preset.caption_companion(), "wd"@, "tags"@]);
        ConcatConfig {
            base_extensions: base,
            extensions_to_concat: companions,
            output_extension: "txt".to_owned(),
            remove_duplicates: true,
            tag_separator: ", ".to_owned(),
            deduplicate_files: false,
        }
    }
}

/// The tags of a comma-separated text: each piece trimmed, empty pieces dropped.
pub open spec fn tags_of(content: Seq<char>) -> Seq<Seq<char>> {
    keep_nonempty(trim_each(split_by(content, CharClass::Only(','))))
}

/// The tags of a comma-separated text, in source order.
pub fn parse_tags(content: &str) -> (tags: Vec<String>)
    ensures
        tags.deep_view() == tags_of(content@),
{
    let pieces = split_text(content, CharClass::Only(','));
    drop_empty(trim_all(&pieces))
}

/// The extension that marks the caption companion: `caption` where it is configured,
/// else `florence`, else the last configured extension.
pub open spec fn caption_extension(extensions: Seq<Seq<char>>) -> Option<Seq<char>> {
    if extensions.contains("caption"@) {
        Some("caption"@)
    } else if extensions.contains("florence"@) {
        Some("florence"@)
    } else if extensions.len() > 0 {
        Some(extensions.last())
    } else {
        None
    }
}

/// The first index at or after `from` whose path has the extension `ext`.
pub open spec fn first_with_extension(paths: Seq<Seq<char>>, ext: Seq<char>, from: int) -> Option<
    int,
>
    decreases paths.len() - from,
{
    if from < 0 || from >= paths.len() {
        None
    } else if extension(paths[from]) == Some(ext) {
        Some(from)
    } else {
        first_with_extension(paths, ext, from + 1)
    }
}

/// The index of the caption among `count` companions: the first path with the caption
/// extension, and the last companion where no path within the companions has it.
pub open spec fn caption_index(
    extensions: Seq<Seq<char>>,
    paths: Seq<Seq<char>>,
    count: int,
) -> int {
    match caption_extension(extensions) {
        Some(ext) => match first_with_extension(paths, ext, 0) {
            Some(i) => if i < count {
                i
            } else {
                count - 1
            },
            None => count - 1,
        },
        None => count - 1,
    }
}

/// The tags of all companions but the one at `skip`, in companion order.
pub open spec fn gather_tags(contents: Seq<Seq<char>>, skip: int) -> Seq<Seq<char>>
    decreases contents.len(),
{
    if contents.len() == 0 {
        Seq::empty()
    } else if contents.len() - 1 == skip {
        gather_tags(contents.drop_last(), skip)
    } else {
        gather_tags(contents.drop_last(), skip) + tags_of(contents.last())
    }
}

/// The tags as they are written: sorted and distinct, or as they came.
pub open spec fn arranged(tags: Seq<Seq<char>>, remove_duplicates: bool) -> Seq<Seq<char>> {
    if remove_duplicates {
        sorted_distinct(tags)
    } else {
        tags
    }
}

/// The joined tags followed by the caption, with the separator only where both exist.
pub open spec fn with_caption(tags: Seq<char>, sep: Seq<char>, caption: Seq<char>) -> Seq<char> {
    if tags.len() == 0 {
        caption
    } else if caption.len() == 0 {
        tags
    } else {
        tags + sep + caption
    }
}

/// The merged text of the companions of one item.
pub open spec fn merged_text(
    contents: Seq<Seq<char>>,
    extensions: Seq<Seq<char>>,
    remove_duplicates: bool,
    sep: Seq<char>,
    paths: Seq<Seq<char>>,
) -> Seq<char> {
    if contents.len() == 0 {
        Seq::empty()
    } else {
        let at = caption_index(extensions, paths, contents.len() as int);
        with_caption(
            join(arranged(gather_tags(contents, at), remove_duplicates), sep),
            sep,
            contents[at],
        )
    }
}

/// Whether `list` holds the text `wanted`.
pub fn list_contains(list: &Vec<String>, wanted: &str) -> (r: bool)
    ensures
        r == list.deep_view().contains(wanted@),
{
    let mut i: usize = 0;
    while i < list.len()
        invariant
            i <= list.len(),
            forall|k: int| 0 <= k < i ==> list.deep_view()[k] != wanted@,
        decreases list.len() - i,
    {
        if text_eq(list[i].as_str(), wanted) {
            assert(list.deep_view()[i as int] == wanted@);
            return true;
        }
        i += 1;
    }
    false
}

/// The extension that marks the caption companion under `config`.
pub fn caption_extension_of(config: &ConcatConfig) -> (r: Option<String>)
    ensures
        r.deep_view() == caption_extension(config.extensions_to_concat.deep_view()),
{
    if list_contains(&config.extensions_to_concat, "caption") {
        Some("caption".to_owned())
    } else if list_contains(&config.extensions_to_concat, "florence") {
        Some("florence".to_owned())
    } else if config.extensions_to_concat.len() > 0 {
        let last = config.extensions_to_concat.len() - 1;
        assert(config.extensions_to_concat.deep_view().last() == config.extensions_to_concat@[last as int]@);
        Some(config.extensions_to_concat[last].clone())
    } else {
        None
    }
}

/// The index of the caption among `count` companions with the given paths.
fn find_caption_index(config: &ConcatConfig, file_paths: &[String], count: usize) -> (at:
    usize)
    requires
        count > 0,
    ensures
        at as int == caption_index(
            config.extensions_to_concat.deep_view(),
            file_paths.deep_view(),
            count as int,
        ),
        at < count,
{
    let ext = match caption_extension_of(config) {
        Some(ext) => ext,
        None => {
            return count - 1;
        },
    };
    let ghost paths = file_paths.deep_view();
    let mut i: usize = 0;
    while i < file_paths.len()
        invariant
            i <= file_paths.len(),
            count > 0,
            paths == file_paths.deep_view(),
            caption_extension(config.extensions_to_concat.deep_view()) == Some(ext@),
            first_with_extension(paths, ext@, 0) == first_with_extension(paths, ext@, i as int),
        decreases file_paths.len() - i,
    {
        assert(paths[i as int] == file_paths@[i as int]@);
        let found = match path_extension(file_paths[i].as_str()) {
            Some(e) => text_eq(e.as_str(), ext.as_str()),
            None => false,
        };
        if found {
            if i < count {
                return i;
            } else {
                return count - 1;
            }
        }
        i += 1;
    }
    count - 1
}

/// The tags of all companions but the one at `skip`, in companion order.
pub fn collect_tags(contents: &[String], skip: usize) -> (tags: Vec<String>)
    ensures
        tags.deep_view() == gather_tags(contents.deep_view(), skip as int),
{
    let mut tags: Vec<String> = Vec::new();
    let mut i: usize = 0;
    assert(contents.deep_view().take(0) =~= Seq::<Seq<char>>::empty());
    assert(tags.deep_view() =~= Seq::<Seq<char>>::empty());
    while i < contents.len()
        invariant
            i <= contents.len(),
            tags.deep_view() == gather_tags(contents.deep_view().take(i as int), skip as int),
        decreases contents.len() - i,
    {
        proof {
            let next = contents.deep_view().take(i + 1);
            assert(next.drop_last() =~= contents.deep_view().take(i as int));
            assert(next.last() == contents@[i as int]@);
        }
        if i != skip {
            let mut found = parse_tags(contents[i].as_str());
            let ghost before = tags.deep_view();
            let ghost added = found.deep_view();
            tags.append(&mut found);
            assert(tags.deep_view() =~= before + added);
        }
        i += 1;
    }
    assert(contents.deep_view().take(contents.len() as int) =~= contents.deep_view());
    tags
}

/// Arranges tags for writing: sorted ascending without duplicates where
/// `remove_duplicates` is set, and unchanged, duplicates included, where it is not.
pub fn arrange_tags(tags: Vec<String>, remove_duplicates: bool) -> (r: Vec<String>)
    ensures
        r.deep_view() == arranged(tags.deep_view(), remove_duplicates),
        remove_duplicates ==> ascending(r.deep_view()) && r.deep_view().no_duplicates()
            && forall|t: Seq<char>| r.deep_view().contains(t) <==> tags.deep_view().contains(t),
        !remove_duplicates ==> r.deep_view() == tags.deep_view(),
{
    proof {
        lemma_arranged(tags.deep_view(), remove_duplicates);
    }
    if remove_duplicates {
        sort_distinct(&tags)
    } else {
        tags
    }
}

/// What arranging does to tags: with deduplication they come out ascending, each once, and
/// they are the tags that went in; without it they come out as they went in, in source
/// order and with their duplicates.
pub proof fn lemma_arranged(tags: Seq<Seq<char>>, remove_duplicates: bool)
    ensures
        remove_duplicates ==> ascending(arranged(tags, remove_duplicates)) && arranged(
            tags,
            remove_duplicates,
        ).no_duplicates() && forall|t: Seq<char>|
            arranged(tags, remove_duplicates).contains(t) <==> tags.contains(t),
        !remove_duplicates ==> arranged(tags, remove_duplicates) == tags,
{
    if remove_duplicates {
        lemma_sorted_distinct(tags);
        lemma_ascending_distinct(sorted_distinct(tags));
    }
}

/// Puts the caption behind the joined tags, with the separator only where both exist.
pub fn append_caption(tags: String, sep: &str, caption: &str) -> (r: String)
    ensures
        r@ == with_caption(tags@, sep@, caption@),
{
    if tags.as_str().is_empty() {
        caption.to_owned()
    } else if caption.is_empty() {
        tags
    } else {
        let mut v = chars_of(tags.as_str());
        let s = chars_of(sep);
        let c = chars_of(caption);
        extend_chars(&mut v, &s);
        extend_chars(&mut v, &c);
        string_of(&v)
    }
}

/// Merges the contents of the companions of one item.
///
/// `contents` holds the trimmed text of each companion and `file_paths` the path it was
/// read from. The companion whose path has the caption extension, or the last one where
/// none has, is the caption: it is not split into tags and follows them.
pub fn concat_tags(contents: &[String], config: &ConcatConfig, file_paths: &[String]) -> (r:
    String)
    ensures
        r@ == merged_text(
            contents.deep_view(),
            config.extensions_to_concat.deep_view(),
            config.remove_duplicates,
            config.tag_separator@,
            file_paths.deep_view(),
        ),
{
    if contents.len() == 0 {
        return String::new();
    }
    let at = find_caption_index(config, file_paths, contents.len());
    let tags = arrange_tags(collect_tags(contents, at), config.remove_duplicates);
    let joined = join_text(&tags, config.tag_separator.as_str());
    assert(contents.deep_view()[at as int] == contents@[at as int]@);
    append_caption(joined, config.tag_separator.as_str(), contents[at].as_str())
}

} // verus!
