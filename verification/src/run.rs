//! One run over a directory: what is done with each file that the walk finds, and the
//! totals that the run keeps.
//!
//! The run decides; its caller reads and writes the files. For each path the caller
//! hands in what it read of the companions and gets back the step to take; after a write
//! it reports how the write went.

use vstd::prelude::*;
use crate::concat::ConcatConfig;
use crate::dedup::{
    all_present, check_duplicate_content, content_digest, duplicate_check, ContentHashes,
};
use crate::group::{
    companion_names, discover_group, is_base_file, is_base_path, missing_companions,
    missing_names, process_image_file, processed_file, GroupOutcome, MergedFile, RunCounters,
};
use crate::paths::file_stem;

verus! {

/// The state of a run: its settings, its totals, and the content digests it has seen.
pub struct Run {
    /// How companions are found and merged.
    pub config: ConcatConfig,
    /// Whether merged files are only reported, not written.
    pub dry_run: bool,
    /// The totals so far.
    pub counters: RunCounters,
    /// The digests of the groups seen so far, with their first owners.
    pub hashes: ContentHashes,
}

/// What the caller of a run is to do with a path.
#[derive(Debug, PartialEq, Eq)]
pub enum Step {
    /// The path is no base file: nothing is to be done.
    Ignore,
    /// The group repeats the content of an earlier group: nothing is to be written.
    SkipDuplicate,
    /// Companions are missing: nothing is to be written. The missing files are named.
    SkipIncomplete {
        /// The names of the missing companions.
        missing: Vec<String>,
    },
    /// The merged file is to be written, or reported in a dry run.
    Write {
        /// The file to write.
        file: MergedFile,
    },
}

/// A step with its texts as plain values.
pub enum StepForm {
    /// Nothing is to be done.
    Ignore,
    /// A duplicate is passed over.
    SkipDuplicate,
    /// An incomplete group is passed over; the missing companions are named.
    SkipIncomplete(Seq<Seq<char>>),
    /// A file with this name and content is to be written.
    Write(Seq<char>, Seq<char>),
}

impl View for Step {
    type V = StepForm;

    open spec fn view(&self) -> StepForm {
        match self {
            Step::Ignore => StepForm::Ignore,
            Step::SkipDuplicate => StepForm::SkipDuplicate,
            Step::SkipIncomplete { missing } => StepForm::SkipIncomplete(missing.deep_view()),
            Step::Write { file } => StepForm::Write(file.name@, file.content@),
        }
    }
}

/// What was read of the `count` configured companions: the entries given, in order, and
/// `None` for each one that was not given.
pub open spec fn configured(companions: Seq<Option<Seq<char>>>, count: nat) -> Seq<
    Option<Seq<char>>,
> {
    Seq::new(
        count,
        |i: int|
            if i < companions.len() {
                companions[i]
            } else {
                None
            },
    )
}

/// The step for a path, with the totals and the digest table after it.
///
/// A path that is no base file is ignored. With file deduplication on, a complete group
/// whose content was seen before is a duplicate and is counted as one; one whose content
/// is new is registered. A group that is no duplicate is merged where it is complete.
pub open spec fn next_step(
    config: ConcatConfig,
    counters: RunCounters,
    owners: Map<u128, Seq<char>>,
    path: Seq<char>,
    companions: Seq<Option<Seq<char>>>,
) -> (StepForm, RunCounters, Map<u128, Seq<char>>) {
    let extensions = config.extensions_to_concat.deep_view();
    let given = configured(companions, extensions.len());
    if !is_base_path(path, config.base_extensions.deep_view()) {
        (StepForm::Ignore, counters, owners)
    } else {
        let check = if config.deduplicate_files {
            duplicate_check(owners, given, path)
        } else {
            (false, owners)
        };
        if check.0 {
            (StepForm::SkipDuplicate, counters.after(GroupOutcome::Duplicate), check.1)
        } else {
            match processed_file(
                path,
                extensions,
                config.output_extension@,
                config.remove_duplicates,
                config.tag_separator@,
                given,
            ) {
                Ok(Some(file)) => (StepForm::Write(file.0, file.1), counters, check.1),
                _ => (
                    StepForm::SkipIncomplete(
                        missing_names(companion_names(file_stem(path)->0, extensions), given),
                    ),
                    counters,
                    check.1,
                ),
            }
        }
    }
}

/// The outcome of a write step: processed where the file was written or the run is a dry
/// run, a failed write otherwise.
pub open spec fn write_outcome(dry_run: bool, written: bool) -> GroupOutcome {
    if dry_run || written {
        GroupOutcome::Processed
    } else {
        GroupOutcome::WriteFailed
    }
}

impl Run {
    /// A run that has seen no file.
    pub fn new(config: ConcatConfig, dry_run: bool) -> (run: Self)
        ensures
            run.config == config,
            run.dry_run == dry_run,
            run.counters == (RunCounters { processed: 0, skipped_duplicates: 0 }),
            run.hashes@ == Map::<u128, Seq<char>>::empty(),
    {
        Run { config, dry_run, counters: RunCounters::new(), hashes: ContentHashes::new() }
    }

    /// Decides what is done with `path`.
    ///
    /// `companions` holds, for each configured companion extension in order, the raw
    /// content of that companion, and `None` where the file is missing.
    pub fn step(&mut self, path: &str, companions: &[Option<String>]) -> (step: Step)
        ensures
            final(self).config == old(self).config,
            final(self).dry_run == old(self).dry_run,
            (step@, final(self).counters, final(self).hashes@) == next_step(
                old(self).config,
                old(self).counters,
                old(self).hashes@,
                path@,
                companions.deep_view(),
            ),
    {
        if !is_base_file(path, &self.config) {
            return Step::Ignore;
        }
        let n = self.config.extensions_to_concat.len();
        let mut given: Vec<Option<String>> = Vec::new();
        let mut i: usize = 0;
        while i < n
            invariant
                i <= n,
                given.len() == i,
                forall|k: int|
                    0 <= k < i ==> (#[trigger] given@[k]).deep_view() == if k < companions@.len() {
                        companions@[k].deep_view()
                    } else {
                        None
                    },
            decreases n - i,
        {
            if i < companions.len() {
                given.push(companions[i].clone());
            } else {
                given.push(None);
            }
            i += 1;
        }
        assert(given.deep_view() =~= configured(
            companions.deep_view(),
            self.config.extensions_to_concat.deep_view().len(),
        ));
        if self.config.deduplicate_files {
            if check_duplicate_content(path, &given, &mut self.hashes) {
                self.counters.record(GroupOutcome::Duplicate);
                return Step::SkipDuplicate;
            }
        }
        match process_image_file(path, &self.config, &given) {
            Ok(Some(file)) => Step::Write { file },
            _ => {
                let missing = match discover_group(path, &self.config) {
                    Some(group) => missing_companions(&group.companions, &given),
                    None => Vec::new(),
                };
                Step::SkipIncomplete { missing }
            },
        }
    }

    /// Takes note of how the write of a write step went, and tells the outcome.
    ///
    /// A written file, or any file in a dry run, counts as processed. A failed write ends
    /// the run.
    pub fn finish_write(&mut self, written: bool) -> (outcome: GroupOutcome)
        ensures
            outcome == write_outcome(old(self).dry_run, written),
            final(self).counters == old(self).counters.after(outcome),
            final(self).config == old(self).config,
            final(self).dry_run == old(self).dry_run,
            final(self).hashes == old(self).hashes,
    {
        let outcome = if self.dry_run || written {
            GroupOutcome::Processed
        } else {
            GroupOutcome::WriteFailed
        };
        self.counters.record(outcome);
        outcome
    }
}

/// A group with a missing companion leads to no write and to no change of the totals,
/// whatever the run has seen before.
pub proof fn lemma_incomplete_group_never_written(
    config: ConcatConfig,
    counters: RunCounters,
    owners: Map<u128, Seq<char>>,
    path: Seq<char>,
    companions: Seq<Option<Seq<char>>>,
    missing: int,
)
    requires
        0 <= missing < config.extensions_to_concat.deep_view().len(),
        missing < companions.len() ==> companions[missing] is None,
    ensures
        !(next_step(config, counters, owners, path, companions).0 is Write),
        !(next_step(config, counters, owners, path, companions).0 is SkipDuplicate),
        next_step(config, counters, owners, path, companions).1 == counters,
        next_step(config, counters, owners, path, companions).2 == owners,
{
    let extensions = config.extensions_to_concat.deep_view();
    let given = configured(companions, extensions.len());
    assert(given[missing] is None);
    assert(given.take(extensions.len() as int) =~= given);
}

/// With file deduplication on, the second of two complete groups with the same combined
/// content is passed over as a duplicate and counted as one.
pub proof fn lemma_second_owner_is_duplicate(
    config: ConcatConfig,
    counters: RunCounters,
    owners: Map<u128, Seq<char>>,
    first_path: Seq<char>,
    second_path: Seq<char>,
    companions: Seq<Option<Seq<char>>>,
)
    requires
        config.deduplicate_files,
        is_base_path(first_path, config.base_extensions.deep_view()),
        is_base_path(second_path, config.base_extensions.deep_view()),
        companions.len() == config.extensions_to_concat.deep_view().len(),
        forall|i: int| 0 <= i < companions.len() ==> (#[trigger] companions[i]) is Some,
    ensures
        ({
            let first = next_step(config, counters, owners, first_path, companions);
            let second = next_step(config, first.1, first.2, second_path, companions);
            &&& second.0 is SkipDuplicate
            &&& second.1 == first.1.after(GroupOutcome::Duplicate)
            &&& second.2 == first.2
        }),
{
    let extensions = config.extensions_to_concat.deep_view();
    let given = configured(companions, extensions.len());
    assert(given =~= companions);
}

/// A complete group whose digest differs from that of the group before it, and from all
/// that the run had seen until then, is no duplicate.
pub proof fn lemma_new_content_is_no_duplicate(
    config: ConcatConfig,
    counters: RunCounters,
    owners: Map<u128, Seq<char>>,
    first_path: Seq<char>,
    first: Seq<Option<Seq<char>>>,
    second_path: Seq<char>,
    second: Seq<Option<Seq<char>>>,
)
    requires
        first.len() == config.extensions_to_concat.deep_view().len(),
        second.len() == config.extensions_to_concat.deep_view().len(),
        forall|i: int| 0 <= i < first.len() ==> (#[trigger] first[i]) is Some,
        forall|i: int| 0 <= i < second.len() ==> (#[trigger] second[i]) is Some,
    ensures
        ({
            let before = next_step(config, counters, owners, first_path, first);
            let after = next_step(config, before.1, before.2, second_path, second);
            let first_digest = content_digest(all_present(first)->0);
            let second_digest = content_digest(all_present(second)->0);
            second_digest != first_digest && !owners.contains_key(second_digest) ==> !(after.0
                is SkipDuplicate)
        }),
{
    let extensions = config.extensions_to_concat.deep_view();
    assert(configured(first, extensions.len()) =~= first);
    assert(configured(second, extensions.len()) =~= second);
}

} // verus!
