//! The ignore patterns for tags: which tags are dropped before formatting.

use vstd::prelude::*;

verus! {

/// `fancy_regex::Regex`, carried as an opaque value.
#[verifier::external_type_specification]
#[verifier::external_body]
pub struct ExRegex(fancy_regex::Regex);

/// `fancy_regex::Error`, carried as an opaque value.
#[verifier::external_type_specification]
#[verifier::external_body]
pub struct ExRegexError(fancy_regex::Error);

/// Patterns of the tags that are ignored: a literal, years, and aspect ratios.
pub const IGNORED_E621_TAGS: [&'static str; 3] = [r"^conditional_dnp$", r"^\d{4}$", r"^\d+:\d+$"];

/// A compiled pattern together with the text it was compiled from.
struct TagPattern {
    regex: fancy_regex::Regex,
    source: Ghost<Seq<char>>,
}

impl View for TagPattern {
    type V = Seq<char>;

    closed spec fn view(&self) -> Seq<char> {
        self.source@
    }
}

/// Whether the regular expression `pattern` can be compiled.
pub uninterp spec fn pattern_compiles(pattern: Seq<char>) -> bool;

/// Whether the compiled `pattern` matches somewhere in `text`; `None` where the search
/// itself fails.
pub uninterp spec fn pattern_match(pattern: Seq<char>, text: Seq<char>) -> Option<bool>;

/// Calls `fancy_regex::Regex::new`.
///
/// Whether the pattern compiles depends on the pattern alone; what is returned on
/// success is the compiled form of that pattern.
#[verifier::external_body]
fn compile(pattern: &str) -> (r: Result<TagPattern, fancy_regex::Error>)
    ensures
        r is Ok == pattern_compiles(pattern@),
        r matches Ok(p) ==> p@ == pattern@,
{
    fancy_regex::Regex::new(pattern).map(|regex| TagPattern { regex, source: Ghost(pattern@) })
}

/// Calls `fancy_regex::Regex::is_match`.
///
/// The answer depends on the pattern and the text alone.
#[verifier::external_body]
fn is_match(pattern: &TagPattern, text: &str) -> (r: Result<bool, fancy_regex::Error>)
    ensures
        match r {
            Ok(found) => pattern_match(pattern@, text@) == Some(found),
            Err(_) => pattern_match(pattern@, text@) is None,
        },
{
    pattern.regex.is_match(text)
}

/// What searching `text` for `pattern` gives: `Some(found)` where the pattern compiles and
/// the search succeeds, `None` otherwise.
pub open spec fn search(pattern: Seq<char>, text: Seq<char>) -> Option<bool> {
    if pattern_compiles(pattern) {
        pattern_match(pattern, text)
    } else {
        None
    }
}

/// Searches `text` for `pattern`.
pub fn search_tag(pattern: &str, text: &str) -> (r: Option<bool>)
    ensures
        r == search(pattern@, text@),
{
    match compile(pattern) {
        Ok(compiled) => match is_match(&compiled, text) {
            Ok(found) => Some(found),
            Err(_) => None,
        },
        Err(_) => None,
    }
}

/// Whether one of the searches found a match. A search that failed counts as no match.
pub open spec fn any_found(outcomes: Seq<Option<bool>>) -> bool {
    exists|i: int| 0 <= i < outcomes.len() && outcomes[i] == Some(true)
}

/// Whether one of the searches found a match.
pub fn any_match(outcomes: &[Option<bool>]) -> (r: bool)
    ensures
        r == any_found(outcomes@),
{
    let mut i: usize = 0;
    while i < outcomes.len()
        invariant
            i <= outcomes.len(),
            forall|k: int| 0 <= k < i ==> outcomes@[k] != Some(true),
        decreases outcomes.len() - i,
    {
        match outcomes[i] {
            Some(true) => {
                return true;
            },
            _ => {},
        }
        i += 1;
    }
    false
}

/// Whether a tag is ignored: it matches one of the ignore patterns.
pub open spec fn is_ignored_tag(tag: Seq<char>) -> bool {
    any_found(
        seq![
            search(IGNORED_E621_TAGS[0]@, tag),
            search(IGNORED_E621_TAGS[1]@, tag),
            search(IGNORED_E621_TAGS[2]@, tag),
        ],
    )
}

/// Whether `tag` matches one of the ignore patterns.
pub fn should_ignore_e621_tag(tag: &str) -> (r: bool)
    ensures
        r == is_ignored_tag(tag@),
{
    let mut outcomes: Vec<Option<bool>> = Vec::new();
    let mut i: usize = 0;
    while i < 3
        invariant
            i <= 3,
            outcomes.len() == i,
            forall|k: int|
                0 <= k < i ==> #[trigger] outcomes@[k] == search(IGNORED_E621_TAGS[k]@, tag@),
        decreases 3 - i,
    {
        outcomes.push(search_tag(IGNORED_E621_TAGS[i], tag));
        i += 1;
    }
    assert(outcomes@ =~= seq![
        search(IGNORED_E621_TAGS[0]@, tag@),
        search(IGNORED_E621_TAGS[1]@, tag@),
        search(IGNORED_E621_TAGS[2]@, tag@),
    ]);
    any_match(&outcomes)
}

} // verus!
