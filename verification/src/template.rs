//! The caption template: placeholder substitution and the cleanup of what it leaves.

use vstd::prelude::*;
use crate::text::{
    first_rule, lemma_trim_fixed, lemma_trim_result, replace_all, replace_text, starts_with, substitute, trim_class, trim_text,
    CharClass,
};

verus! {

/// The template that is used where none is configured.
pub const DEFAULT_FORMAT: &'static str =
    "{rating}, {artists}, {characters}, {species}, {copyright}, {general}, {meta}";

/// The category that a tag of a record belongs to. The order of the variants is the order
/// in which the categories are written.
#[derive(Debug, Clone, Copy, PartialEq, Eq, Structural)]
pub enum Category {
    /// Who made the work.
    Artist,
    /// Who is shown.
    Character,
    /// What kind those shown are of.
    Species,
    /// Whose property is shown.
    Copyright,
    /// Everything else that is shown.
    General,
    /// Facts about the work itself.
    Meta,
}

impl Category {
    /// The name of the category in a record.
    pub open spec fn name(self) -> Seq<char> {
        match self {
            Category::Artist => "artist"@,
            Category::Character => "character"@,
            Category::Species => "species"@,
            Category::Copyright => "copyright"@,
            Category::General => "general"@,
            Category::Meta => "meta"@,
        }
    }

    /// The placeholder of the category in a template.
    pub open spec fn placeholder(self) -> Seq<char> {
        match self {
            Category::Artist => "{artists}"@,
            Category::Character => "{characters}"@,
            Category::Species => "{species}"@,
            Category::Copyright => "{copyright}"@,
            Category::General => "{general}"@,
            Category::Meta => "{meta}"@,
        }
    }

    /// The name of the category in a record.
    pub fn record_name(&self) -> (name: &'static str)
        ensures
            name@ == self.name(),
    {
        match self {
            Category::Artist => "artist",
            Category::Character => "character",
            Category::Species => "species",
            Category::Copyright => "copyright",
            Category::General => "general",
            Category::Meta => "meta",
        }
    }

    /// The placeholder of the category in a template.
    pub fn template_placeholder(&self) -> (token: &'static str)
        ensures
            token@ == self.placeholder(),
    {
        match self {
            Category::Artist => "{artists}",
            Category::Character => "{characters}",
            Category::Species => "{species}",
            Category::Copyright => "{copyright}",
            Category::General => "{general}",
            Category::Meta => "{meta}",
        }
    }
}

/// The text of each category of a record: its tags as written, joined.
#[derive(Debug, Clone, PartialEq, Eq)]
pub struct CategoryTexts {
    /// The artists.
    pub artists: String,
    /// The characters.
    pub characters: String,
    /// The species.
    pub species: String,
    /// The copyrights.
    pub copyright: String,
    /// The general tags.
    pub general: String,
    /// The meta tags.
    pub meta: String,
}

/// The text of each category as a plain value.
pub struct Fields {
    /// The artists.
    pub artists: Seq<char>,
    /// The characters.
    pub characters: Seq<char>,
    /// The species.
    pub species: Seq<char>,
    /// The copyrights.
    pub copyright: Seq<char>,
    /// The general tags.
    pub general: Seq<char>,
    /// The meta tags.
    pub meta: Seq<char>,
}

impl View for CategoryTexts {
    type V = Fields;

    open spec fn view(&self) -> Fields {
        Fields {
            artists: self.artists@,
            characters: self.characters@,
            species: self.species@,
            copyright: self.copyright@,
            general: self.general@,
            meta: self.meta@,
        }
    }
}

/// The placeholders of a template, each with the text that takes its place: the rating,
/// then the six category texts in category order.
pub open spec fn caption_rules(rating: Seq<char>, fields: Fields) -> Seq<(Seq<char>, Seq<char>)> {
    seq![
        ("{rating}"@, rating),
        (Category::Artist.placeholder(), fields.artists),
        (Category::Character.placeholder(), fields.characters),
        (Category::Species.placeholder(), fields.species),
        (Category::Copyright.placeholder(), fields.copyright),
        (Category::General.placeholder(), fields.general),
        (Category::Meta.placeholder(), fields.meta),
    ]
}

/// The template with every placeholder replaced by its text.
pub open spec fn filled(format: Seq<char>, rating: Seq<char>, fields: Fields) -> Seq<char> {
    substitute(format, caption_rules(rating, fields))
}

/// Fills the placeholders of `format`: `{rating}` with the rating and the placeholder of
/// each category with the text of the category; a category without tags has the empty
/// text.
pub fn fill_template(format: &str, rating: &str, fields: &CategoryTexts) -> (r: String)
    ensures
        r@ == filled(format@, rating@, fields@),
{
    let mut rules: Vec<(String, String)> = Vec::new();
    rules.push(("{rating}".to_owned(), rating.to_owned()));
    rules.push((Category::Artist.template_placeholder().to_owned(), fields.artists.clone()));
    rules.push((Category::Character.template_placeholder().to_owned(), fields.characters.clone()));
    rules.push((Category::Species.template_placeholder().to_owned(), fields.species.clone()));
    rules.push((Category::Copyright.template_placeholder().to_owned(), fields.copyright.clone()));
    rules.push((Category::General.template_placeholder().to_owned(), fields.general.clone()));
    rules.push((Category::Meta.template_placeholder().to_owned(), fields.meta.clone()));
    assert(rules.deep_view() =~= caption_rules(rating@, fields@));
    crate::text::substitute_text(format, &rules)
}

/// The text with the leftovers of empty placeholders collapsed: `, ,` then `,,` then ` ,`
/// each become `,`, and spaces and commas are removed from both ends.
pub open spec fn cleanup(s: Seq<char>) -> Seq<char> {
    trim_class(
        replace_all(replace_all(replace_all(s, ", ,"@, ","@), ",,"@, ","@), " ,"@, ","@),
        CharClass::SpaceOrComma,
    )
}

/// Collapses the leftovers of empty placeholders in `s`.
pub fn cleanup_text(s: &str) -> (r: String)
    ensures
        r@ == cleanup(s@),
{
    let a = replace_text(s, ", ,", ",");
    let b = replace_text(a.as_str(), ",,", ",");
    let c = replace_text(b.as_str(), " ,", ",");
    trim_text(c.as_str(), CharClass::SpaceOrComma)
}

/// Whether a caption is written: it is not empty, and either tags are not filtered or
/// some category gave a tag.
pub open spec fn is_written(content: Seq<char>, filter_tags: bool, populated: bool) -> bool {
    content.len() > 0 && (!filter_tags || populated)
}

/// Decides whether a cleaned caption is written.
pub fn should_write(content: &str, filter_tags: bool, populated: bool) -> (r: bool)
    ensures
        r == is_written(content@, filter_tags, populated),
{
    !content.is_empty() && (!filter_tags || populated)
}

/// Whether `pat` stands somewhere in `s`.
pub open spec fn occurs(s: Seq<char>, pat: Seq<char>) -> bool {
    exists|i: int| 0 <= i && i + pat.len() <= s.len() && #[trigger] s.subrange(
        i,
        i + pat.len(),
    ) == pat
}

/// Whether one of the leftovers that the cleanup collapses stands in `s`.
pub open spec fn has_leftover(s: Seq<char>) -> bool {
    occurs(s, ", ,"@) || occurs(s, ",,"@) || occurs(s, " ,"@)
}

/// Replacing a pattern that does not occur changes nothing.
pub proof fn lemma_replace_absent(s: Seq<char>, pat: Seq<char>, to: Seq<char>)
    requires
        !occurs(s, pat),
    ensures
        replace_all(s, pat, to) == s,
    decreases s.len(),
{
    let rules = seq![(pat, to)];
    if s.len() > 0 {
        if starts_with(s, pat) {
            assert(s.subrange(0int, 0int + pat.len()) =~= s.take(pat.len() as int));
        }
        assert(first_rule(s, rules, 1) is None);
        assert(first_rule(s, rules, 0) is None);
        let rest = s.drop_first();
        assert(!occurs(rest, pat)) by {
            if occurs(rest, pat) {
                let i = choose|i: int|
                    0 <= i && i + pat.len() <= rest.len() && #[trigger] rest.subrange(
                        i,
                        i + pat.len(),
                    ) == pat;
                assert(s.subrange(i + 1, i + 1 + pat.len()) =~= rest.subrange(i, i + pat.len()));
            }
        }
        lemma_replace_absent(rest, pat, to);
        assert(seq![s[0]] + rest =~= s);
    }
}

/// Replacing by a text that is no longer than the pattern never lengthens, and shortens
/// wherever the pattern occurs and the text is shorter.
pub proof fn lemma_replace_length(s: Seq<char>, pat: Seq<char>, to: Seq<char>)
    requires
        to.len() <= pat.len(),
    ensures
        replace_all(s, pat, to).len() <= s.len(),
        occurs(s, pat) && 0 < pat.len() && to.len() < pat.len() ==> replace_all(s, pat, to).len()
            < s.len(),
    decreases s.len(),
{
    let rules = seq![(pat, to)];
    if s.len() > 0 {
        assert(first_rule(s, rules, 1) is None);
        if starts_with(s, pat) {
            assert(first_rule(s, rules, 0) == Some(0int));
            lemma_replace_length(s.skip(pat.len() as int), pat, to);
        } else {
            assert(first_rule(s, rules, 0) is None);
            let rest = s.drop_first();
            lemma_replace_length(rest, pat, to);
            if occurs(s, pat) && 0 < pat.len() {
                let i = choose|i: int|
                    0 <= i && i + pat.len() <= s.len() && #[trigger] s.subrange(i, i + pat.len())
                        == pat;
                if i == 0 {
                    assert(s.subrange(0int, 0int + pat.len()) =~= s.take(pat.len() as int));
                } else {
                    assert(rest.subrange(i - 1, i - 1 + pat.len()) =~= s.subrange(
                        i,
                        i + pat.len(),
                    ));
                }
            }
        }
    } else {
        if occurs(s, pat) && 0 < pat.len() {
            let i = choose|i: int|
                0 <= i && i + pat.len() <= s.len() && #[trigger] s.subrange(i, i + pat.len())
                    == pat;
        }
    }
}

/// Cleaning up twice gives the same as cleaning up once exactly when the first cleanup
/// leaves no leftover behind.
///
/// The three replacements run once each, one after another, so a cleaned text can still
/// hold a leftover; a second cleanup then shortens it.
pub proof fn lemma_cleanup_stable(s: Seq<char>)
    ensures
        cleanup(cleanup(s)) == cleanup(s) <==> !has_leftover(cleanup(s)),
{
    reveal_strlit(", ,");
    reveal_strlit(",,");
    reveal_strlit(" ,");
    reveal_strlit(",");
    let class = CharClass::SpaceOrComma;
    let t = cleanup(s);
    let a = replace_all(t, ", ,"@, ","@);
    let b = replace_all(a, ",,"@, ","@);
    let c = replace_all(b, " ,"@, ","@);
    lemma_replace_length(t, ", ,"@, ","@);
    lemma_replace_length(a, ",,"@, ","@);
    lemma_replace_length(b, " ,"@, ","@);
    lemma_trim_result(c, class);
    if !occurs(t, ", ,"@) {
        lemma_replace_absent(t, ", ,"@, ","@);
        if !occurs(t, ",,"@) {
            lemma_replace_absent(a, ",,"@, ","@);
            if !occurs(t, " ,"@) {
                lemma_replace_absent(b, " ,"@, ","@);
                lemma_trim_result(
                    replace_all(replace_all(replace_all(s, ", ,"@, ","@), ",,"@, ","@), " ,"@, ","@),
                    class,
                );
                lemma_trim_fixed(t, class);
            }
        }
    }
}

} // verus!
