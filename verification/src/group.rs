//! Discovery of item groups: which files are base files, which companions belong to
//! them, and what becomes of a group in a run.

use vstd::prelude::*;
use crate::concat::{concat_tags, list_contains, merged_text, ConcatConfig};
use crate::dedup::{all_present, present_contents};
use crate::paths::{
    extension, file_stem, file_stem_of, path_extension, sibling_file_name, sibling_name,
};
use crate::text::{lowercased, to_lowercase, trim_all, trim_each};

verus! {

/// Whether `path` names a base file: its extension, in lowercase, is one of `bases`.
pub open spec fn is_base_path(path: Seq<char>, bases: Seq<Seq<char>>) -> bool {
    match extension(path) {
        Some(ext) => bases.contains(lowercased(ext)),
        None => false,
    }
}

/// Whether the lowercase extension `ext` is one of the configured base extensions.
pub fn is_base_extension(ext: &str, config: &ConcatConfig) -> (r: bool)
    ensures
        r == config.base_extensions.deep_view().contains(ext@),
{
    list_contains(&config.base_extensions, ext)
}

/// Whether `path` names a base file under `config`.
pub fn is_base_file(path: &str, config: &ConcatConfig) -> (r: bool)
    ensures
        r == is_base_path(path@, config.base_extensions.deep_view()),
{
    match path_extension(path) {
        Some(ext) => {
            let lowered = to_lowercase(ext.as_str());
            is_base_extension(lowered.as_str(), config)
        },
        None => false,
    }
}

/// The file names `<stem>.<ext>` for each of `extensions`, in order.
pub open spec fn companion_names(stem: Seq<char>, extensions: Seq<Seq<char>>) -> Seq<Seq<char>> {
    Seq::new(extensions.len(), |i: int| sibling_name(stem, extensions[i]))
}

/// The files that describe one dataset item, named relative to the item's directory.
#[derive(Debug, Clone, PartialEq, Eq)]
pub struct ItemGroup {
    /// The stem that the base file and its companions share.
    pub stem: String,
    /// The companion file names, one for each configured extension, in configured order.
    pub companions: Vec<String>,
    /// The name of the merged file.
    pub output: String,
}

/// Whether `group` is the item group of the stem `stem` under the given extensions.
pub open spec fn is_group_of(
    group: ItemGroup,
    stem: Seq<char>,
    extensions: Seq<Seq<char>>,
    output_extension: Seq<char>,
) -> bool {
    &&& group.stem@ == stem
    &&& group.companions.deep_view() == companion_names(stem, extensions)
    &&& group.output@ == sibling_name(stem, output_extension)
}

/// The item group of a base file, or `None` where the path has no file stem.
pub fn discover_group(image_path: &str, config: &ConcatConfig) -> (r: Option<ItemGroup>)
    ensures
        match file_stem(image_path@) {
            Some(stem) => r is Some && is_group_of(
                r->0,
                stem,
                config.extensions_to_concat.deep_view(),
                config.output_extension@,
            ),
            None => r is None,
        },
{
    let stem = match file_stem_of(image_path) {
        Some(stem) => stem,
        None => {
            return None;
        },
    };
    let mut companions: Vec<String> = Vec::new();
    let mut i: usize = 0;
    while i < config.extensions_to_concat.len()
        invariant
            i <= config.extensions_to_concat.len(),
            companions.len() == i,
            forall|k: int|
                0 <= k < i ==> (#[trigger] companions@[k])@ == sibling_name(
                    stem@,
                    config.extensions_to_concat@[k]@,
                ),
        decreases config.extensions_to_concat.len() - i,
    {
        companions.push(sibling_file_name(stem.as_str(), config.extensions_to_concat[i].as_str()));
        i += 1;
    }
    assert(companions.deep_view() =~= companion_names(
        stem@,
        config.extensions_to_concat.deep_view(),
    ));
    let output = sibling_file_name(stem.as_str(), config.output_extension.as_str());
    Some(ItemGroup { stem, companions, output })
}

/// The names among `names` whose companion is missing, in order.
pub open spec fn missing_names(names: Seq<Seq<char>>, companions: Seq<Option<Seq<char>>>) -> Seq<
    Seq<char>,
>
    decreases names.len(),
{
    if names.len() == 0 {
        Seq::empty()
    } else if names.len() <= companions.len() && companions[names.len() - 1] is Some {
        missing_names(names.drop_last(), companions)
    } else {
        missing_names(names.drop_last(), companions).push(names.last())
    }
}

/// The names of the companions that are missing, in configured order.
///
/// `companions` holds the content of each companion, and `None` for one that is missing;
/// a name without an entry counts as missing.
pub fn missing_companions(names: &[String], companions: &[Option<String>]) -> (missing: Vec<
    String,
>)
    ensures
        missing.deep_view() == missing_names(names.deep_view(), companions.deep_view()),
{
    let mut missing: Vec<String> = Vec::new();
    let mut i: usize = 0;
    assert(names.deep_view().take(0) =~= Seq::<Seq<char>>::empty());
    assert(missing.deep_view() =~= Seq::<Seq<char>>::empty());
    while i < names.len()
        invariant
            i <= names.len(),
            missing.deep_view() == missing_names(
                names.deep_view().take(i as int),
                companions.deep_view(),
            ),
        decreases names.len() - i,
    {
        let ghost before = missing.deep_view();
        proof {
            let next = names.deep_view().take(i + 1);
            assert(next.drop_last() =~= names.deep_view().take(i as int));
            assert(next.last() == names@[i as int]@);
            if i < companions.len() {
                assert(companions.deep_view()[i as int] == companions@[i as int].deep_view());
            }
        }
        let there = i < companions.len() && companions[i].is_some();
        if !there {
            missing.push(names[i].clone());
            assert(missing.deep_view() =~= before.push(names@[i as int]@));
        }
        i += 1;
    }
    assert(names.deep_view().take(names.len() as int) =~= names.deep_view());
    missing
}

/// A merged file that is ready to be written.
#[derive(Debug, Clone, PartialEq, Eq)]
pub struct MergedFile {
    /// The file's name in the item's directory.
    pub name: String,
    /// The text to write.
    pub content: String,
}

/// Why a base file yields no group.
#[derive(Debug, Clone, Copy, PartialEq, Eq, Structural)]
pub enum GroupError {
    /// The path of the base file has no file stem.
    NoFileStem,
}

/// What processing one base file yields: the merged file of a complete group, nothing
/// for a group with a missing companion, an error for a path without a stem.
pub open spec fn processed_file(
    image_path: Seq<char>,
    extensions: Seq<Seq<char>>,
    output_extension: Seq<char>,
    remove_duplicates: bool,
    sep: Seq<char>,
    companions: Seq<Option<Seq<char>>>,
) -> Result<Option<(Seq<char>, Seq<char>)>, GroupError> {
    match file_stem(image_path) {
        None => Err(GroupError::NoFileStem),
        Some(stem) => if companions.len() < extensions.len() {
            Ok(None)
        } else {
            match all_present(companions.take(extensions.len() as int)) {
                None => Ok(None),
                Some(contents) => Ok(
                    Some(
                        (
                            sibling_name(stem, output_extension),
                            merged_text(
                                trim_each(contents),
                                extensions,
                                remove_duplicates,
                                sep,
                                companion_names(stem, extensions),
                            ),
                        ),
                    ),
                ),
            }
        },
    }
}

/// The name and content of a merged file, as plain texts.
pub open spec fn file_texts(file: Option<MergedFile>) -> Option<(Seq<char>, Seq<char>)> {
    match file {
        Some(f) => Some((f.name@, f.content@)),
        None => None,
    }
}

/// Processes one base file: finds its group, and merges the group where it is complete.
///
/// `companions` holds, for each configured companion extension in order, the raw content
/// of that companion, and `None` where the file is missing. A group with a missing
/// companion yields `Ok(None)`: nothing is to be written for it.
pub fn process_image_file(
    image_path: &str,
    config: &ConcatConfig,
    companions: &[Option<String>],
) -> (r: Result<Option<MergedFile>, GroupError>)
    ensures
        match r {
            Ok(file) => Ok::<Option<(Seq<char>, Seq<char>)>, GroupError>(file_texts(file)),
            Err(e) => Err(e),
        } == processed_file(
            image_path@,
            config.extensions_to_concat.deep_view(),
            config.output_extension@,
            config.remove_duplicates,
            config.tag_separator@,
            companions.deep_view(),
        ),
{
    let group = match discover_group(image_path, config) {
        Some(group) => group,
        None => {
            return Err(GroupError::NoFileStem);
        },
    };
    let n = config.extensions_to_concat.len();
    if companions.len() < n {
        return Ok(None);
    }
    let mut given: Vec<Option<String>> = Vec::new();
    let mut i: usize = 0;
    while i < n
        invariant
            i <= n <= companions.len(),
            given.len() == i,
            forall|k: int| 0 <= k < i ==> (#[trigger] given@[k]).deep_view() == companions@[k].deep_view(),
        decreases n - i,
    {
        given.push(companions[i].clone());
        i += 1;
    }
    assert(given.deep_view() =~= companions.deep_view().take(n as int));
    match present_contents(&given) {
        None => Ok(None),
        Some(contents) => {
            let trimmed = trim_all(&contents);
            let content = concat_tags(&trimmed, config, &group.companions);
            Ok(Some(MergedFile { name: group.output, content }))
        },
    }
}

/// What became of one base file in a run.
#[derive(Debug, Clone, Copy, PartialEq, Eq, Structural)]
pub enum GroupOutcome {
    /// The group was merged and its file written, or would have been in a dry run.
    Processed,
    /// A companion was missing; nothing was written.
    Skipped,
    /// The group repeats the content of an earlier one; nothing was written.
    Duplicate,
    /// A companion could not be read, or the path had no stem; nothing was written.
    Failed,
    /// The merged file could not be written.
    WriteFailed,
}

impl GroupOutcome {
    /// Whether the outcome ends the run: only a failed write does. Every other failure
    /// concerns one group and the run goes on with the next.
    pub open spec fn ends_run(self) -> bool {
        self is WriteFailed
    }

    /// Whether the outcome ends the run.
    pub fn aborts_run(&self) -> (r: bool)
        ensures
            r == self.ends_run(),
    {
        match self {
            GroupOutcome::WriteFailed => true,
            _ => false,
        }
    }
}

/// The outcome for a base file that was found to be no duplicate, from what processing it
/// gave and whether its file could be written. In a dry run nothing is written and the
/// write counts as done.
pub open spec fn outcome_of(
    processed: Result<Option<(Seq<char>, Seq<char>)>, GroupError>,
    dry_run: bool,
    written: bool,
) -> GroupOutcome {
    match processed {
        Ok(Some(_)) => if dry_run || written {
            GroupOutcome::Processed
        } else {
            GroupOutcome::WriteFailed
        },
        Ok(None) => GroupOutcome::Skipped,
        Err(_) => GroupOutcome::Failed,
    }
}

/// The totals of a run.
#[derive(Debug, Clone, Copy, PartialEq, Eq, Structural)]
pub struct RunCounters {
    /// How many groups were merged.
    pub processed: usize,
    /// How many groups were passed over as duplicates.
    pub skipped_duplicates: usize,
}

/// `n` plus one, held at the largest value.
pub open spec fn bumped(n: usize) -> usize {
    if n < usize::MAX {
        (n + 1) as usize
    } else {
        n
    }
}

impl RunCounters {
    /// The totals after one more base file with the given outcome.
    pub open spec fn after(self, outcome: GroupOutcome) -> RunCounters {
        match outcome {
            GroupOutcome::Processed => RunCounters { processed: bumped(self.processed), ..self },
            GroupOutcome::Duplicate => RunCounters {
                skipped_duplicates: bumped(self.skipped_duplicates),
                ..self
            },
            GroupOutcome::Skipped => self,
            GroupOutcome::Failed => self,
            GroupOutcome::WriteFailed => self,
        }
    }

    /// The totals of a run that has seen no file.
    pub fn new() -> (counters: Self)
        ensures
            counters.processed == 0,
            counters.skipped_duplicates == 0,
    {
        RunCounters { processed: 0, skipped_duplicates: 0 }
    }

    /// Counts one base file with the given outcome.
    pub fn record(&mut self, outcome: GroupOutcome)
        ensures
            *final(self) == old(self).after(outcome),
    {
        match outcome {
            GroupOutcome::Processed => {
                if self.processed < usize::MAX {
                    self.processed = self.processed + 1;
                }
            },
            GroupOutcome::Duplicate => {
                if self.skipped_duplicates < usize::MAX {
                    self.skipped_duplicates = self.skipped_duplicates + 1;
                }
            },
            GroupOutcome::Skipped => {},
            GroupOutcome::Failed => {},
            GroupOutcome::WriteFailed => {},
        }
    }
}

/// A group with a missing companion is never written and never counted as processed:
/// processing it yields no file, its outcome is not `Processed` whatever the write would
/// have done, and recording that outcome leaves the totals as they were.
pub proof fn lemma_incomplete_group_is_skipped(
    image_path: Seq<char>,
    extensions: Seq<Seq<char>>,
    output_extension: Seq<char>,
    remove_duplicates: bool,
    sep: Seq<char>,
    companions: Seq<Option<Seq<char>>>,
    missing: int,
    dry_run: bool,
    written: bool,
    counters: RunCounters,
)
    requires
        0 <= missing < extensions.len(),
        missing < companions.len() ==> companions[missing] is None,
    ensures
        ({
            let processed = processed_file(
                image_path,
                extensions,
                output_extension,
                remove_duplicates,
                sep,
                companions,
            );
            let outcome = outcome_of(processed, dry_run, written);
            &&& !(processed matches Ok(Some(_)))
            &&& file_stem(image_path) is Some ==> processed == Ok::<
                Option<(Seq<char>, Seq<char>)>,
                GroupError,
            >(None) && outcome == GroupOutcome::Skipped
            &&& outcome != GroupOutcome::Processed
            &&& counters.after(outcome) == counters
        }),
{
    if companions.len() >= extensions.len() {
        let given = companions.take(extensions.len() as int);
        assert(given[missing] is None);
    }
}

/// The outcome for a base file that was found to be no duplicate.
pub fn classify_outcome(
    processed: &Result<Option<MergedFile>, GroupError>,
    dry_run: bool,
    written: bool,
) -> (r: GroupOutcome)
    ensures
        r == outcome_of(
            match *processed {
                Ok(file) => Ok(file_texts(file)),
                Err(e) => Err(e),
            },
            dry_run,
            written,
        ),
{
    match processed {
        Ok(Some(_)) => if dry_run || written {
            GroupOutcome::Processed
        } else {
            GroupOutcome::WriteFailed
        },
        Ok(None) => GroupOutcome::Skipped,
        Err(_) => GroupOutcome::Failed,
    }
}

} // verus!
