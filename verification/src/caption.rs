//! Captions from structured records: per-category tag formatting, the caption template,
//! and plain caption texts.

use vstd::prelude::*;
use crate::filter::{is_ignored_tag, should_ignore_e621_tag};
use crate::json::{json_parse, parse_json, Json, JsonValue};
use crate::paths::{file_stem, file_stem_of, sibling_file_name, sibling_name};
use crate::template::{
    cleanup, cleanup_text, fill_template, filled, is_written, should_write, Category,
    CategoryTexts, Fields, DEFAULT_FORMAT,
};
use crate::text::{
    chars_of, collapse_whitespace, collapse_whitespace_text, extend_chars, join, join_text,
    replace_all, replace_text, string_of, text_eq, trim, trim_text, CharClass,
};

verus! {

/// The value of the last entry for `key` among the first `upto` entries.
pub open spec fn lookup(entries: Seq<(String, String)>, key: Seq<char>, upto: int) -> Option<
    Seq<char>,
>
    decreases upto,
{
    if upto <= 0 || upto > entries.len() {
        None
    } else if entries[upto - 1].0@ == key {
        Some(entries[upto - 1].1@)
    } else {
        lookup(entries, key, upto - 1)
    }
}

/// A mapping from raw ratings to the words written for them.
#[derive(Debug, Clone)]
pub struct RatingConversions {
    entries: Vec<(String, String)>,
}

impl View for RatingConversions {
    type V = Map<Seq<char>, Seq<char>>;

    closed spec fn view(&self) -> Map<Seq<char>, Seq<char>> {
        Map::new(
            |key: Seq<char>| lookup(self.entries@, key, self.entries@.len() as int) is Some,
            |key: Seq<char>| lookup(self.entries@, key, self.entries@.len() as int)->0,
        )
    }
}

impl RatingConversions {
    /// A mapping without entries.
    pub fn new() -> (r: Self)
        ensures
            r@ == Map::<Seq<char>, Seq<char>>::empty(),
    {
        let r = RatingConversions { entries: Vec::new() };
        assert(r@ =~= Map::<Seq<char>, Seq<char>>::empty());
        r
    }

    /// Maps `rating` to `word`, in place of what it was mapped to before.
    pub fn insert(&mut self, rating: String, word: String)
        ensures
            final(self)@ == old(self)@.insert(rating@, word@),
    {
        let ghost before = self.entries@;
        self.entries.push((rating, word));
        proof {
            let after = self.entries@;
            assert forall|key: Seq<char>|
                lookup(after, key, after.len() as int) == (if key == rating@ {
                    Some(word@)
                } else {
                    lookup(before, key, before.len() as int)
                }) by {
                lemma_lookup_prefix(before, after, key, before.len() as int);
            }
            assert(self@ =~= old(self)@.insert(rating@, word@));
        }
    }

    /// The word for `rating`, where the mapping has one.
    pub fn get(&self, rating: &str) -> (r: Option<String>)
        ensures
            r.deep_view() == if self@.contains_key(rating@) {
                Some(self@[rating@])
            } else {
                None::<Seq<char>>
            },
    {
        let mut k: usize = self.entries.len();
        while k > 0
            invariant
                k <= self.entries.len(),
                lookup(self.entries@, rating@, self.entries@.len() as int) == lookup(
                    self.entries@,
                    rating@,
                    k as int,
                ),
            decreases k,
        {
            if text_eq(self.entries[k - 1].0.as_str(), rating) {
                return Some(self.entries[k - 1].1.clone());
            }
            k -= 1;
        }
        None
    }
}

/// A lookup among the first entries does not depend on the entries behind them.
pub proof fn lemma_lookup_prefix(
    a: Seq<(String, String)>,
    b: Seq<(String, String)>,
    key: Seq<char>,
    upto: int,
)
    requires
        upto <= a.len() <= b.len(),
        forall|i: int| 0 <= i < a.len() ==> a[i] == b[i],
    ensures
        lookup(a, key, upto) == lookup(b, key, upto),
    decreases upto,
{
    if upto > 0 && a[upto - 1].0@ != key {
        lemma_lookup_prefix(a, b, key, upto - 1);
    }
}

/// The conversions that are used where none are configured otherwise.
pub open spec fn default_conversions() -> Map<Seq<char>, Seq<char>> {
    Map::<Seq<char>, Seq<char>>::empty().insert("s"@, "safe"@).insert("q"@, "questionable"@).insert(
        "e"@,
        "explicit"@,
    )
}

/// How records are turned into captions.
#[derive(Debug, Clone)]
pub struct E621Config {
    /// Whether tags that match an ignore pattern are dropped.
    pub filter_tags: bool,
    /// The words written for raw ratings; a rating without a word is written as it is.
    pub rating_conversions: Option<RatingConversions>,
    /// The caption template, with the placeholders `{rating}`, `{artists}`,
    /// `{characters}`, `{species}`, `{copyright}`, `{general}` and `{meta}`.
    pub format: Option<String>,
    /// What is written before an artist's name.
    pub artist_prefix: Option<String>,
    /// What is written after an artist's name.
    pub artist_suffix: Option<String>,
    /// Whether underscores in tags become spaces.
    pub replace_underscores: bool,
}

/// The settings of a configuration as plain values.
pub struct Settings {
    /// Whether tags that match an ignore pattern are dropped.
    pub filter_tags: bool,
    /// The words written for raw ratings, where conversion is on.
    pub conversions: Option<Map<Seq<char>, Seq<char>>>,
    /// The caption template.
    pub format: Seq<char>,
    /// What is written before an artist's name.
    pub artist_prefix: Seq<char>,
    /// What is written after an artist's name.
    pub artist_suffix: Seq<char>,
    /// Whether underscores in tags become spaces.
    pub replace_underscores: bool,
}

/// The text of an optional string; the empty text where there is none.
pub open spec fn text_or_empty(s: Option<String>) -> Seq<char> {
    match s {
        Some(s) => s@,
        None => Seq::empty(),
    }
}

/// The settings that are used where no configuration is given.
pub open spec fn default_settings() -> Settings {
    Settings {
        filter_tags: true,
        conversions: Some(default_conversions()),
        format: DEFAULT_FORMAT@,
        artist_prefix: "by "@,
        artist_suffix: Seq::empty(),
        replace_underscores: true,
    }
}

impl View for E621Config {
    type V = Settings;

    open spec fn view(&self) -> Settings {
        Settings {
            filter_tags: self.filter_tags,
            conversions: match self.rating_conversions {
                Some(m) => Some(m@),
                None => None,
            },
            format: match self.format {
                Some(f) => f@,
                None => DEFAULT_FORMAT@,
            },
            artist_prefix: text_or_empty(self.artist_prefix),
            artist_suffix: text_or_empty(self.artist_suffix),
            replace_underscores: self.replace_underscores,
        }
    }
}

impl Default for E621Config {
    fn default() -> (config: Self)
        ensures
            config@ == default_settings(),
            config.format is None,
            config.artist_suffix is None,
    {
        let mut conversions = RatingConversions::new();
        conversions.insert("s".to_owned(), "safe".to_owned());
        conversions.insert("q".to_owned(), "questionable".to_owned());
        conversions.insert("e".to_owned(), "explicit".to_owned());
        E621Config {
            filter_tags: true,
            rating_conversions: Some(conversions),
            format: None,
            artist_prefix: Some("by ".to_owned()),
            artist_suffix: None,
            replace_underscores: true,
        }
    }
}

impl Settings {
    /// The word written for `rating`.
    pub open spec fn converted(self, rating: Seq<char>) -> Seq<char> {
        match self.conversions {
            Some(m) => if m.contains_key(rating) {
                m[rating]
            } else {
                rating
            },
            None => rating,
        }
    }

    /// An artist's name as written: without the marker ` (artist)`, with underscores as
    /// spaces, between prefix and suffix.
    pub open spec fn artist_name(self, name: Seq<char>) -> Seq<char> {
        self.artist_prefix + replace_all(replace_all(name, " (artist)"@, ""@), "_"@, " "@)
            + self.artist_suffix
    }

    /// A tag as written.
    pub open spec fn shown(self, tag: Seq<char>, artist: bool) -> Seq<char> {
        if artist {
            self.artist_name(tag)
        } else if self.replace_underscores {
            replace_all(tag, "_"@, " "@)
        } else {
            tag
        }
    }

    /// Whether a tag is kept: filtering is off, or the tag matches no ignore pattern.
    pub open spec fn keeps(self, tag: Seq<char>) -> bool {
        !self.filter_tags || !is_ignored_tag(tag)
    }

    /// The tags of one category as written: the kept ones, in order.
    pub open spec fn shown_tags(self, tags: Seq<Seq<char>>, artist: bool) -> Seq<Seq<char>>
        decreases tags.len(),
    {
        if tags.len() == 0 {
            Seq::empty()
        } else if self.keeps(tags.last()) {
            self.shown_tags(tags.drop_last(), artist).push(self.shown(tags.last(), artist))
        } else {
            self.shown_tags(tags.drop_last(), artist)
        }
    }
}

impl E621Config {
    /// The default configuration.
    pub fn new() -> (config: Self)
        ensures
            config@ == default_settings(),
            config.format is None,
            config.artist_suffix is None,
    {
        E621Config::default()
    }

    /// Sets whether tags that match an ignore pattern are dropped.
    pub fn with_filter_tags(self, filter_tags: bool) -> (config: Self)
        ensures
            config.filter_tags == filter_tags,
            config.rating_conversions == self.rating_conversions,
            config.format == self.format,
            config.artist_prefix == self.artist_prefix,
            config.artist_suffix == self.artist_suffix,
            config.replace_underscores == self.replace_underscores,
    {
        let mut config = self;
        config.filter_tags = filter_tags;
        config
    }

    /// Sets the rating conversions; `None` writes ratings as they are.
    pub fn with_rating_conversions(self, conversions: Option<RatingConversions>) -> (config: Self)
        ensures
            config.filter_tags == self.filter_tags,
            config.rating_conversions == conversions,
            config.format == self.format,
            config.artist_prefix == self.artist_prefix,
            config.artist_suffix == self.artist_suffix,
            config.replace_underscores == self.replace_underscores,
    {
        let mut config = self;
        config.rating_conversions = conversions;
        config
    }

    /// Sets the caption template; `None` stands for the default template.
    pub fn with_format(self, format: Option<String>) -> (config: Self)
        ensures
            config.filter_tags == self.filter_tags,
            config.rating_conversions == self.rating_conversions,
            config.format == format,
            config.artist_prefix == self.artist_prefix,
            config.artist_suffix == self.artist_suffix,
            config.replace_underscores == self.replace_underscores,
    {
        let mut config = self;
        config.format = format;
        config
    }

    /// Sets what is written before an artist's name.
    pub fn with_artist_prefix(self, prefix: Option<String>) -> (config: Self)
        ensures
            config.filter_tags == self.filter_tags,
            config.rating_conversions == self.rating_conversions,
            config.format == self.format,
            config.artist_prefix == prefix,
            config.artist_suffix == self.artist_suffix,
            config.replace_underscores == self.replace_underscores,
    {
        let mut config = self;
        config.artist_prefix = prefix;
        config
    }

    /// Sets what is written after an artist's name.
    pub fn with_artist_suffix(self, suffix: Option<String>) -> (config: Self)
        ensures
            config.filter_tags == self.filter_tags,
            config.rating_conversions == self.rating_conversions,
            config.format == self.format,
            config.artist_prefix == self.artist_prefix,
            config.artist_suffix == suffix,
            config.replace_underscores == self.replace_underscores,
    {
        let mut config = self;
        config.artist_suffix = suffix;
        config
    }

    /// Sets whether underscores in tags become spaces.
    pub fn with_replace_underscores(self, replace_underscores: bool) -> (config: Self)
        ensures
            config.filter_tags == self.filter_tags,
            config.rating_conversions == self.rating_conversions,
            config.format == self.format,
            config.artist_prefix == self.artist_prefix,
            config.artist_suffix == self.artist_suffix,
            config.replace_underscores == replace_underscores,
    {
        let mut config = self;
        config.replace_underscores = replace_underscores;
        config
    }

    /// The caption template in use.
    pub fn get_format(&self) -> (format: &str)
        ensures
            format@ == self@.format,
    {
        match &self.format {
            Some(f) => f.as_str(),
            None => DEFAULT_FORMAT,
        }
    }

    /// The word written for `rating`: its conversion where there is one, else the rating.
    pub fn convert_rating(&self, rating: &str) -> (word: String)
        ensures
            word@ == self@.converted(rating@),
    {
        match &self.rating_conversions {
            Some(conversions) => match conversions.get(rating) {
                Some(word) => word,
                None => rating.to_owned(),
            },
            None => rating.to_owned(),
        }
    }

    /// An artist's name as written.
    pub fn format_artist_name(&self, name: &str) -> (formatted: String)
        ensures
            formatted@ == self@.artist_name(name@),
    {
        let bare = replace_text(name, " (artist)", "");
        let spaced = replace_text(bare.as_str(), "_", " ");
        let mut out: Vec<char> = Vec::new();
        match &self.artist_prefix {
            Some(prefix) => {
                let p = chars_of(prefix.as_str());
                extend_chars(&mut out, &p);
            },
            None => {},
        }
        let middle = chars_of(spaced.as_str());
        extend_chars(&mut out, &middle);
        match &self.artist_suffix {
            Some(suffix) => {
                let s = chars_of(suffix.as_str());
                extend_chars(&mut out, &s);
            },
            None => {},
        }
        assert(out@ =~= self@.artist_name(name@));
        string_of(&out)
    }

    /// A tag as written: an artist's name formatted, any other tag with its underscores
    /// turned into spaces where that is configured.
    pub fn format_tag(&self, tag: &str, artist: bool) -> (shown: String)
        ensures
            shown@ == self@.shown(tag@, artist),
    {
        if artist {
            self.format_artist_name(tag)
        } else if self.replace_underscores {
            replace_text(tag, "_", " ")
        } else {
            tag.to_owned()
        }
    }

    /// The tags of one category as written: ignored tags dropped where filtering is on,
    /// the others formatted, in order.
    pub fn format_category(&self, tags: &Vec<String>, artist: bool) -> (shown: Vec<String>)
        ensures
            shown.deep_view() == self@.shown_tags(tags.deep_view(), artist),
    {
        let mut shown: Vec<String> = Vec::new();
        let mut i: usize = 0;
        assert(tags.deep_view().take(0) =~= Seq::<Seq<char>>::empty());
        assert(shown.deep_view() =~= Seq::<Seq<char>>::empty());
        while i < tags.len()
            invariant
                i <= tags.len(),
                shown.deep_view() == self@.shown_tags(tags.deep_view().take(i as int), artist),
            decreases tags.len() - i,
        {
            let ghost before = shown.deep_view();
            proof {
                let next = tags.deep_view().take(i + 1);
                assert(next.drop_last() =~= tags.deep_view().take(i as int));
                assert(next.last() == tags@[i as int]@);
            }
            let tag = tags[i].as_str();
            if !self.filter_tags || !should_ignore_e621_tag(tag) {
                let text = self.format_tag(tag, artist);
                shown.push(text);
                assert(shown.deep_view() =~= before.push(self@.shown(tag@, artist)));
            }
            i += 1;
        }
        assert(tags.deep_view().take(tags.len() as int) =~= tags.deep_view());
        shown
    }
}

/// The tags of one category of a record's tags as written.
pub open spec fn category_tags(settings: Settings, tags: Json, category: Category) -> Seq<
    Seq<char>,
> {
    match tags.field(category.name()) {
        Some(list) => settings.shown_tags(list.strings(), category == Category::Artist),
        None => Seq::empty(),
    }
}

/// All tags of a record as written: the categories one after another. A value that is no
/// object has no tags.
pub open spec fn processed_tags(settings: Settings, tags: Json) -> Seq<Seq<char>> {
    if tags is Object {
        category_tags(settings, tags, Category::Artist) + category_tags(
            settings,
            tags,
            Category::Character,
        ) + category_tags(settings, tags, Category::Species) + category_tags(
            settings,
            tags,
            Category::Copyright,
        ) + category_tags(settings, tags, Category::General) + category_tags(
            settings,
            tags,
            Category::Meta,
        )
    } else {
        Seq::empty()
    }
}

/// The tags of one category of a record's tags as written.
pub fn process_category(tags: &JsonValue, category: Category, config: &E621Config) -> (shown: Vec<
    String,
>)
    ensures
        shown.deep_view() == category_tags(config@, tags@, category),
{
    match tags.get(category.record_name()) {
        Some(list) => {
            let raw = list.string_list();
            let artist = match category {
                Category::Artist => true,
                _ => false,
            };
            config.format_category(&raw, artist)
        },
        None => {
            let shown: Vec<String> = Vec::new();
            assert(shown.deep_view() =~= Seq::<Seq<char>>::empty());
            shown
        },
    }
}

/// The settings of an optional configuration.
pub open spec fn settings_of(config: Option<&E621Config>) -> Settings {
    match config {
        Some(c) => c@,
        None => default_settings(),
    }
}

/// Formats the tags of a record: the categories `artist`, `character`, `species`,
/// `copyright`, `general` and `meta`, in this order, each filtered and formatted.
///
/// `tags_dict` is the record's `tags` object; without a configuration the default one
/// is used.
pub fn process_e621_tags(tags_dict: &JsonValue, config: Option<&E621Config>) -> (tags: Vec<String>)
    ensures
        tags.deep_view() == processed_tags(settings_of(config), tags_dict@),
{
    let fallback = E621Config::default();
    let config = match config {
        Some(c) => c,
        None => &fallback,
    };
    let mut all: Vec<String> = Vec::new();
    assert(all.deep_view() =~= Seq::<Seq<char>>::empty());
    match tags_dict {
        JsonValue::Object(_) => {
            let mut a = process_category(tags_dict, Category::Artist, config);
            let mut b = process_category(tags_dict, Category::Character, config);
            let mut c = process_category(tags_dict, Category::Species, config);
            let mut d = process_category(tags_dict, Category::Copyright, config);
            let mut e = process_category(tags_dict, Category::General, config);
            let mut f = process_category(tags_dict, Category::Meta, config);
            let ghost expected = a.deep_view() + b.deep_view() + c.deep_view() + d.deep_view()
                + e.deep_view() + f.deep_view();
            all.append(&mut a);
            all.append(&mut b);
            all.append(&mut c);
            all.append(&mut d);
            all.append(&mut e);
            all.append(&mut f);
            assert(all.deep_view() =~= expected);
            all
        },
        _ => all,
    }
}

/// Why no caption can be made.
#[derive(Debug, Clone, Copy, PartialEq, Eq, Structural)]
pub enum CaptionError {
    /// A JSON object has no member `caption` that is a string.
    NoCaptionField,
    /// A JSON value is neither a string nor an object.
    UnsupportedFormat,
    /// The URL of a record's file has no file name to take a stem from.
    UrlWithoutFileName,
}

impl CaptionError {
    /// The text of the error.
    pub open spec fn text(self) -> Seq<char> {
        match self {
            CaptionError::NoCaptionField => "No caption field found in JSON object"@,
            CaptionError::UnsupportedFormat => "Unsupported JSON format"@,
            CaptionError::UrlWithoutFileName => "File URL has no file name"@,
        }
    }

    /// The error as text.
    pub fn to_string(&self) -> (r: String)
        ensures
            r@ == self.text(),
    {
        match self {
            CaptionError::NoCaptionField => "No caption field found in JSON object".to_owned(),
            CaptionError::UnsupportedFormat => "Unsupported JSON format".to_owned(),
            CaptionError::UrlWithoutFileName => "File URL has no file name".to_owned(),
        }
    }
}

/// A caption that is ready to be written.
#[derive(Debug, Clone, PartialEq, Eq)]
pub struct CaptionFile {
    /// The file's name: the stem of the record's file with the extension `txt`.
    pub name: String,
    /// The caption.
    pub content: String,
}

/// The URL of a record's file: the string at `post.file.url`.
pub open spec fn record_url(data: Json) -> Option<Seq<char>> {
    match data.field("post"@) {
        Some(post) => match post.field("file"@) {
            Some(file) => match file.field("url"@) {
                Some(url) => url.text(),
                None => None,
            },
            None => None,
        },
        None => None,
    }
}

/// The raw rating of a post: the string at `rating`, and `q` where there is none.
pub open spec fn record_rating(post: Json) -> Seq<char> {
    match post.field("rating"@) {
        Some(rating) => match rating.text() {
            Some(text) => text,
            None => "q"@,
        },
        None => "q"@,
    }
}

/// The tags of a post: the member `tags`, and `null` where there is none.
pub open spec fn record_tags(post: Json) -> Json {
    match post.field("tags"@) {
        Some(tags) => tags,
        None => Json::Null,
    }
}

/// The text of one category of a post: its tags as written, joined by a comma and a
/// space.
pub open spec fn category_text(settings: Settings, tags: Json, category: Category) -> Seq<char> {
    join(category_tags(settings, tags, category), ", "@)
}

/// The texts of the six categories of a post.
pub open spec fn record_fields(settings: Settings, tags: Json) -> Fields {
    Fields {
        artists: category_text(settings, tags, Category::Artist),
        characters: category_text(settings, tags, Category::Character),
        species: category_text(settings, tags, Category::Species),
        copyright: category_text(settings, tags, Category::Copyright),
        general: category_text(settings, tags, Category::General),
        meta: category_text(settings, tags, Category::Meta),
    }
}

/// Whether some category of a post gave a tag.
pub open spec fn record_populated(settings: Settings, tags: Json) -> bool {
    ||| category_tags(settings, tags, Category::Artist).len() > 0
    ||| category_tags(settings, tags, Category::Character).len() > 0
    ||| category_tags(settings, tags, Category::Species).len() > 0
    ||| category_tags(settings, tags, Category::Copyright).len() > 0
    ||| category_tags(settings, tags, Category::General).len() > 0
    ||| category_tags(settings, tags, Category::Meta).len() > 0
}

/// The caption text of a post: the template filled and cleaned up.
pub open spec fn record_caption(settings: Settings, post: Json) -> Seq<char> {
    cleanup(
        filled(
            settings.format,
            settings.converted(record_rating(post)),
            record_fields(settings, record_tags(post)),
        ),
    )
}

/// What a record gives: nothing where it names no file; an error where the file's URL
/// has no file name; else the caption file, where the caption is written.
pub open spec fn record_output(settings: Settings, data: Json) -> Result<
    Option<(Seq<char>, Seq<char>)>,
    CaptionError,
> {
    match record_url(data) {
        None => Ok(None),
        Some(url) => match file_stem(url) {
            None => Err(CaptionError::UrlWithoutFileName),
            Some(stem) => {
                let post = data.field("post"@)->0;
                let content = record_caption(settings, post);
                if is_written(
                    content,
                    settings.filter_tags,
                    record_populated(settings, record_tags(post)),
                ) {
                    Ok(Some((sibling_name(stem, "txt"@), content)))
                } else {
                    Ok(None)
                }
            },
        },
    }
}

/// The name and content of a caption file, as plain texts.
pub open spec fn caption_texts(file: Option<CaptionFile>) -> Option<(Seq<char>, Seq<char>)> {
    match file {
        Some(f) => Some((f.name@, f.content@)),
        None => None,
    }
}

/// The settings of an optional configuration.
pub open spec fn settings_or_default(config: Option<E621Config>) -> Settings {
    match config {
        Some(c) => c@,
        None => default_settings(),
    }
}

/// The URL of a record's file.
pub fn url_of(data: &JsonValue) -> (r: Option<&str>)
    ensures
        match r {
            Some(url) => record_url(data@) == Some(url@),
            None => record_url(data@) is None,
        },
{
    match data.get("post") {
        Some(post) => match post.get("file") {
            Some(file) => match file.get("url") {
                Some(url) => url.as_str(),
                None => None,
            },
            None => None,
        },
        None => None,
    }
}

/// The raw rating of a post.
pub fn rating_of(post: &JsonValue) -> (r: &str)
    ensures
        r@ == record_rating(post@),
{
    match post.get("rating") {
        Some(rating) => match rating.as_str() {
            Some(text) => text,
            None => "q",
        },
        None => "q",
    }
}

/// The text of one category of a post, and whether the category gave a tag.
pub fn category_field(tags: &JsonValue, category: Category, config: &E621Config) -> (r: (
    String,
    bool,
))
    ensures
        r.0@ == category_text(config@, tags@, category),
        r.1 == (category_tags(config@, tags@, category).len() > 0),
{
    let shown = process_category(tags, category, config);
    (join_text(&shown, ", "), shown.len() > 0)
}

/// Makes the caption of a record.
///
/// A record without `post.file.url` gives nothing. The caption is the configured
/// template with the rating and the six category texts put in and the leftovers of
/// empty categories cleaned up; it is given only where it is not empty and, with tag
/// filtering on, some category gave a tag. The file is named after the stem of the URL's
/// file name.
pub fn process_e621_json_data(data: &JsonValue, config: Option<E621Config>) -> (r: Result<
    Option<CaptionFile>,
    CaptionError,
>)
    ensures
        match r {
            Ok(file) => Ok::<Option<(Seq<char>, Seq<char>)>, CaptionError>(caption_texts(file)),
            Err(e) => Err(e),
        } == record_output(settings_or_default(config), data@),
{
    let config = match config {
        Some(c) => c,
        None => E621Config::default(),
    };
    let url = match url_of(data) {
        Some(url) => url,
        None => {
            return Ok(None);
        },
    };
    let stem = match file_stem_of(url) {
        Some(stem) => stem,
        None => {
            return Err(CaptionError::UrlWithoutFileName);
        },
    };
    let post = match data.get("post") {
        Some(post) => post,
        None => {
            return Ok(None);
        },
    };
    let rating = config.convert_rating(rating_of(post));
    let null = JsonValue::Null;
    let tags = match post.get("tags") {
        Some(tags) => tags,
        None => &null,
    };
    let artists = category_field(tags, Category::Artist, &config);
    let characters = category_field(tags, Category::Character, &config);
    let species = category_field(tags, Category::Species, &config);
    let copyright = category_field(tags, Category::Copyright, &config);
    let general = category_field(tags, Category::General, &config);
    let meta = category_field(tags, Category::Meta, &config);
    let populated = artists.1 || characters.1 || species.1 || copyright.1 || general.1 || meta.1;
    let fields = CategoryTexts {
        artists: artists.0,
        characters: characters.0,
        species: species.0,
        copyright: copyright.0,
        general: general.0,
        meta: meta.0,
    };
    let raw = fill_template(config.get_format(), rating.as_str(), &fields);
    let content = cleanup_text(raw.as_str());
    if should_write(content.as_str(), config.filter_tags, populated) {
        Ok(Some(CaptionFile { name: sibling_file_name(stem.as_str(), "txt"), content }))
    } else {
        Ok(None)
    }
}

/// The caption that a JSON value holds: the value itself where it is a string, the member
/// `caption` where it is an object that has it as a string.
pub open spec fn caption_of(json: Json) -> Result<Seq<char>, CaptionError> {
    match json {
        Json::String(s) => Ok(s),
        Json::Object(_) => match json.field("caption"@) {
            Some(Json::String(c)) => Ok(c),
            _ => Err(CaptionError::NoCaptionField),
        },
        _ => Err(CaptionError::UnsupportedFormat),
    }
}

/// Takes the caption out of a JSON value.
pub fn json_to_text(json: &JsonValue) -> (r: Result<String, CaptionError>)
    ensures
        match r {
            Ok(text) => Ok::<Seq<char>, CaptionError>(text@),
            Err(e) => Err(e),
        } == caption_of(json@),
{
    match json {
        JsonValue::String(s) => Ok(s.clone()),
        JsonValue::Object(_) => match json.get("caption") {
            Some(JsonValue::String(c)) => Ok(c.clone()),
            _ => Err(CaptionError::NoCaptionField),
        },
        _ => Err(CaptionError::UnsupportedFormat),
    }
}

/// Normalizes the whitespace of a text: none at the ends, and one space wherever the
/// text had a run of whitespace. It never fails.
pub fn format_text_content(content: &str) -> (r: Result<String, CaptionError>)
    ensures
        r matches Ok(text) && text@ == collapse_whitespace(content@),
{
    Ok(collapse_whitespace_text(content))
}

/// Whether a caption text holds anything but whitespace.
pub fn caption_is_not_empty(content: &str) -> (r: bool)
    ensures
        r == (trim(content@).len() > 0),
{
    let trimmed = trim_text(content, CharClass::Whitespace);
    !trimmed.as_str().is_empty()
}

/// The text after replacing `search` by `replace`: unchanged for an empty `search`, and
/// with its whitespace normalized where `replace` is empty.
pub open spec fn replaced(content: Seq<char>, search: Seq<char>, replace: Seq<char>) -> Seq<char> {
    if search.len() == 0 {
        content
    } else if replace.len() == 0 {
        collapse_whitespace(replace_all(content, search, replace))
    } else {
        replace_all(content, search, replace)
    }
}

/// Replaces every occurrence of `search` in `content` by `replace`.
///
/// Returns the new text where it differs from `content`, and `None` where nothing is to
/// be written.
pub fn replace_string(content: &str, search: &str, replace: &str) -> (r: Option<String>)
    ensures
        match r {
            Some(text) => text@ == replaced(content@, search@, replace@) && text@ != content@,
            None => replaced(content@, search@, replace@) == content@,
        },
{
    if search.is_empty() {
        return None;
    }
    let mut text = replace_text(content, search, replace);
    if replace.is_empty() {
        text = collapse_whitespace_text(text.as_str());
    }
    if text_eq(text.as_str(), content) {
        None
    } else {
        Some(text)
    }
}

/// A tag with its parentheses escaped by backslashes.
pub open spec fn escaped(tag: Seq<char>) -> Seq<char> {
    replace_all(replace_all(tag, "("@, "\\("@), ")"@, "\\)"@)
}

/// Escapes the parentheses of a tag with backslashes.
pub fn escape_parentheses(tag: &str) -> (r: String)
    ensures
        r@ == escaped(tag@),
{
    let opened = replace_text(tag, "(", "\\(");
    replace_text(opened.as_str(), ")", "\\)")
}

/// The caption made of tags: each with its parentheses escaped, joined by a comma and a
/// space.
pub open spec fn tags_caption(tags: Seq<Seq<char>>) -> Seq<char> {
    join(Seq::new(tags.len(), |i: int| escaped(tags[i])), ", "@)
}

/// Writes tags as one caption.
pub fn caption_from_tags(tags: &[String]) -> (r: String)
    ensures
        r@ == tags_caption(tags.deep_view()),
{
    let mut shown: Vec<String> = Vec::new();
    let mut i: usize = 0;
    while i < tags.len()
        invariant
            i <= tags.len(),
            shown.len() == i,
            forall|k: int| 0 <= k < i ==> (#[trigger] shown@[k])@ == escaped(tags@[k]@),
        decreases tags.len() - i,
    {
        shown.push(escape_parentheses(tags[i].as_str()));
        i += 1;
    }
    assert(shown.deep_view() =~= Seq::new(
        tags.deep_view().len(),
        |i: int| escaped(tags.deep_view()[i]),
    ));
    join_text(&shown, ", ")
}

/// What a caption file holds.
#[derive(Debug, PartialEq, Eq)]
pub enum CaptionContent {
    /// The file holds JSON.
    Json(JsonValue),
    /// The file holds plain text, given here without surrounding whitespace.
    Text(String),
}

/// Reads the content of a caption file: as JSON where it parses, else as plain text.
pub fn read_caption(content: &str) -> (r: CaptionContent)
    ensures
        match r {
            CaptionContent::Json(value) => json_parse(content@) == Some(value@),
            CaptionContent::Text(text) => json_parse(content@) is None && text@ == trim(content@),
        },
{
    match parse_json(content) {
        Some(value) => CaptionContent::Json(value),
        None => CaptionContent::Text(trim_text(content, CharClass::Whitespace)),
    }
}

} // verus!
