//! Aggregation of per-item tags, ratings and captions into normalized caption strings.

pub mod caption;
pub mod concat;
pub mod dedup;
pub mod filter;
pub mod group;
pub mod idempotence;
pub mod json;
pub mod metadata;
pub mod order;
pub mod paths;
pub mod reasoning;
pub mod rename;
pub mod run;
pub mod template;
pub mod text;

use vstd::prelude::*;
use crate::text::{
    after_first, before_first, cut_at_first, split_by, split_text, trim, trim_all, trim_each,
    trim_text, CharClass,
};

verus! {

/// The tags of a text of the form `tag1, tag2., sentence`: the pieces between the commas
/// of what stands before the first `., `, each trimmed.
pub open spec fn content_tags(content: Seq<char>) -> Seq<Seq<char>> {
    trim_each(split_by(before_first(content, "., "@), CharClass::Only(',')))
}

/// The sentence of such a text: what stands between the first `., ` and the next one,
/// trimmed; empty where there is no `., `.
pub open spec fn content_sentence(content: Seq<char>) -> Seq<char> {
    match after_first(content, "., "@) {
        Some(rest) => trim(before_first(rest, "., "@)),
        None => Seq::empty(),
    }
}

/// Splits a text of the form `tag1, tag2., sentence` into its tags and its sentence.
pub fn split_content(content: &str) -> (r: (Vec<String>, String))
    ensures
        r.0.deep_view() == content_tags(content@),
        r.1@ == content_sentence(content@),
{
    let (head, rest) = cut_at_first(content, "., ");
    let tags = trim_all(&split_text(head.as_str(), CharClass::Only(',')));
    let sentence = match rest {
        Some(rest) => {
            let (first, _) = cut_at_first(rest.as_str(), "., ");
            trim_text(first.as_str(), CharClass::Whitespace)
        },
        None => String::new(),
    };
    (tags, sentence)
}

} // verus!
