//! Reasoning datasets: conversations with the reasoning that led to the answer.

use vstd::prelude::*;
use crate::text::{chars_of, extend_chars, string_of};

verus! {

/// One message of a conversation.
#[derive(Debug, Clone, PartialEq, Eq)]
pub struct Message {
    /// The content of the message.
    pub content: String,
    /// The role of the speaker, such as `user`, `reasoning` or `assistant`.
    pub role: String,
}

/// One entry of a reasoning dataset.
#[derive(Debug, Clone, PartialEq, Eq)]
pub struct ReasoningEntry {
    /// The user's question or request.
    pub user: String,
    /// The reasoning that addresses the request, step by step.
    pub reasoning: String,
    /// The assistant's answer.
    pub assistant: String,
    /// The three parts in one template.
    pub template: String,
    /// The messages exchanged.
    pub conversations: Vec<Message>,
}

/// A collection of reasoning entries.
#[derive(Debug, Clone, PartialEq, Eq)]
pub struct ReasoningDataset {
    /// The entries, in the order in which they were added.
    pub entries: Vec<ReasoningEntry>,
}

/// The template of an entry: each part between its start mark, with the role, and the
/// end mark.
pub open spec fn template_text(user: Seq<char>, reasoning: Seq<char>, assistant: Seq<char>) -> Seq<
    char,
> {
    "<|im_start|>user\n"@ + user + "<|im_end|>\n<|im_start|>reasoning\n"@ + reasoning
        + "<|im_end|>\n<|im_start|>assistant\n"@ + assistant + "<|im_end|>"@
}

impl ReasoningDataset {
    /// A dataset without entries.
    pub fn new() -> (dataset: Self)
        ensures
            dataset.entries@ == Seq::<ReasoningEntry>::empty(),
    {
        ReasoningDataset { entries: Vec::new() }
    }

    /// Adds `entry` behind the entries that are there.
    pub fn add_entry(&mut self, entry: ReasoningEntry)
        ensures
            final(self).entries@ == old(self).entries@.push(entry),
    {
        self.entries.push(entry);
    }

    /// The number of entries.
    pub fn len(&self) -> (n: usize)
        ensures
            n == self.entries@.len(),
    {
        self.entries.len()
    }

    /// Whether the dataset has no entries.
    pub fn is_empty(&self) -> (empty: bool)
        ensures
            empty == (self.entries@.len() == 0),
    {
        self.entries.len() == 0
    }

    /// The template that holds the three parts of an entry.
    pub fn create_template(user: &str, reasoning: &str, assistant: &str) -> (template: String)
        ensures
            template@ == template_text(user@, reasoning@, assistant@),
    {
        let mut out = chars_of("<|im_start|>user\n");
        extend_chars(&mut out, &chars_of(user));
        extend_chars(&mut out, &chars_of("<|im_end|>\n<|im_start|>reasoning\n"));
        extend_chars(&mut out, &chars_of(reasoning));
        extend_chars(&mut out, &chars_of("<|im_end|>\n<|im_start|>assistant\n"));
        extend_chars(&mut out, &chars_of(assistant));
        extend_chars(&mut out, &chars_of("<|im_end|>"));
        string_of(&out)
    }
}

impl Default for ReasoningDataset {
    fn default() -> (dataset: Self)
        ensures
            dataset.entries@ == Seq::<ReasoningEntry>::empty(),
    {
        ReasoningDataset::new()
    }
}

} // verus!
