//! Detection of items whose companion files have identical content.
//!
//! The contents of an item's companions are concatenated and digested with MD5; a table
//! remembers the first item seen with each digest.

use std::collections::HashMap;
use vstd::prelude::*;
use vstd::utf8::encode_utf8;
use crate::text::{join, join_text};

verus! {

/// The MD5 digest of `data`, read as a big-endian number.
pub uninterp spec fn md5_digest(data: Seq<u8>) -> u128;

/// Calls `md5::compute` on the bytes.
///
/// The result is the crate's 16-byte digest, taken as one big-endian number; it depends on
/// the bytes alone.
#[verifier::external_body]
fn md5_of(data: &[u8]) -> (digest: u128)
    ensures
        digest == md5_digest(data@),
{
    u128::from_be_bytes(md5::compute(data).0)
}

/// The companions' contents written one after another.
pub open spec fn combined(contents: Seq<Seq<char>>) -> Seq<char> {
    join(contents, Seq::empty())
}

/// The digest of the companions' combined content, as UTF-8.
pub open spec fn content_digest(contents: Seq<Seq<char>>) -> u128 {
    md5_digest(encode_utf8(combined(contents)))
}

/// Digests the raw contents of an item's companions, taken in configured order.
pub fn digest_contents(contents: &[String]) -> (digest: u128)
    ensures
        digest == content_digest(contents.deep_view()),
{
    proof {
        reveal_strlit("");
        assert(""@ =~= Seq::<char>::empty());
    }
    let all = join_text(contents, "");
    md5_of(all.as_str().as_bytes())
}

/// The raw contents of the companions, where every one of them is there.
pub open spec fn all_present(companions: Seq<Option<Seq<char>>>) -> Option<Seq<Seq<char>>> {
    if forall|i: int| 0 <= i < companions.len() ==> (#[trigger] companions[i]) is Some {
        Some(Seq::new(companions.len(), |i: int| companions[i]->0))
    } else {
        None
    }
}

/// The contents of the companions, or `None` where one is missing.
pub fn present_contents(companions: &[Option<String>]) -> (r: Option<Vec<String>>)
    ensures
        r.deep_view() == all_present(companions.deep_view()),
{
    let mut contents: Vec<String> = Vec::new();
    let mut i: usize = 0;
    while i < companions.len()
        invariant
            i <= companions.len(),
            contents.len() == i,
            forall|k: int| 0 <= k < i ==> (#[trigger] companions.deep_view()[k]) is Some,
            forall|k: int|
                0 <= k < i ==> (#[trigger] contents@[k])@ == companions.deep_view()[k]->0,
        decreases companions.len() - i,
    {
        assert(companions.deep_view()[i as int] == companions@[i as int].deep_view());
        match &companions[i] {
            Some(text) => {
                contents.push(text.clone());
            },
            None => {
                return None;
            },
        }
        i += 1;
    }
    assert(contents.deep_view() =~= all_present(companions.deep_view())->0);
    Some(contents)
}

/// What a check of the table finds, and the table after it.
///
/// A digest that the table holds is a duplicate and the table stays; one that it does not
/// hold is registered for `path`.
pub open spec fn checked(owners: Map<u128, Seq<char>>, digest: u128, path: Seq<char>) -> (
    bool,
    Map<u128, Seq<char>>,
) {
    if owners.contains_key(digest) {
        (true, owners)
    } else {
        (false, owners.insert(digest, path))
    }
}

/// The digests seen in one run, each with the path of the item that first had it.
pub struct ContentHashes {
    owners: HashMap<u128, String>,
}

impl View for ContentHashes {
    type V = Map<u128, Seq<char>>;

    closed spec fn view(&self) -> Map<u128, Seq<char>> {
        self.owners@.map_values(|path: String| path@)
    }
}

impl ContentHashes {
    /// A table that holds no digest.
    pub fn new() -> (table: Self)
        ensures
            table@ == Map::<u128, Seq<char>>::empty(),
    {
        let table = ContentHashes { owners: HashMap::new() };
        assert(table@ =~= Map::<u128, Seq<char>>::empty());
        table
    }

    /// Looks `digest` up and, where it is new, registers it for `path`, in one step.
    ///
    /// Returns whether the digest was there already.
    pub fn check_and_register(&mut self, digest: u128, path: &str) -> (duplicate: bool)
        ensures
            (duplicate, final(self)@) == checked(old(self)@, digest, path@),
    {
        broadcast use vstd::std_specs::hash::group_hash_axioms;

        if self.owners.contains_key(&digest) {
            true
        } else {
            let ghost before = self.owners@;
            self.owners.insert(digest, path.to_owned());
            assert(self@ =~= old(self)@.insert(digest, path@));
            false
        }
    }

    /// The path of the item that first had `digest`.
    pub fn first_owner(&self, digest: u128) -> (owner: Option<String>)
        ensures
            owner.deep_view() == if self@.contains_key(digest) {
                Some(self@[digest])
            } else {
                None::<Seq<char>>
            },
    {
        broadcast use vstd::std_specs::hash::group_hash_axioms;

        match self.owners.get(&digest) {
            Some(path) => Some(path.clone()),
            None => None,
        }
    }
}

/// What `check_duplicate_content` finds for an item, and the table after it: an item with
/// a missing companion is no duplicate and leaves the table as it is.
pub open spec fn duplicate_check(
    owners: Map<u128, Seq<char>>,
    companions: Seq<Option<Seq<char>>>,
    path: Seq<char>,
) -> (bool, Map<u128, Seq<char>>) {
    match all_present(companions) {
        Some(contents) => checked(owners, content_digest(contents), path),
        None => (false, owners),
    }
}

/// Tells whether an item repeats the content of an earlier one, and registers it as the
/// first owner of its content where it does not.
///
/// `companions` holds the raw content of each configured companion in configured order,
/// and `None` for one that is missing.
pub fn check_duplicate_content(
    path: &str,
    companions: &[Option<String>],
    hashes: &mut ContentHashes,
) -> (duplicate: bool)
    ensures
        (duplicate, final(hashes)@) == duplicate_check(
            old(hashes)@,
            companions.deep_view(),
            path@,
        ),
{
    match present_contents(companions) {
        Some(contents) => {
            let digest = digest_contents(&contents);
            hashes.check_and_register(digest, path)
        },
        None => false,
    }
}

/// An item whose companions hold, taken together, the same text as those of an item
/// checked before it is found to be a duplicate.
pub proof fn lemma_identical_content_is_duplicate(
    owners: Map<u128, Seq<char>>,
    first: Seq<Seq<char>>,
    first_path: Seq<char>,
    second: Seq<Seq<char>>,
    second_path: Seq<char>,
)
    requires
        combined(first) == combined(second),
    ensures
        checked(
            checked(owners, content_digest(first), first_path).1,
            content_digest(second),
            second_path,
        ).0,
{
}

/// An item is found to be a duplicate exactly when its digest is that of an item checked
/// before it: after one check of a fresh table, a second item is a duplicate if and only
/// if the two digests are equal.
pub proof fn lemma_duplicate_iff_same_digest(
    first: Seq<Seq<char>>,
    first_path: Seq<char>,
    second: Seq<Seq<char>>,
    second_path: Seq<char>,
)
    ensures
        checked(
            checked(Map::empty(), content_digest(first), first_path).1,
            content_digest(second),
            second_path,
        ).0 <==> content_digest(first) == content_digest(second),
{
}

/// A check changes no digest's standing but that of the one checked: an item whose digest
/// differs from the one registered is a duplicate after the check exactly if it was before.
pub proof fn lemma_other_digest_unaffected(
    owners: Map<u128, Seq<char>>,
    digest: u128,
    path: Seq<char>,
    other: u128,
)
    requires
        other != digest,
    ensures
        checked(owners, digest, path).1.contains_key(other) == owners.contains_key(other),
{
}

} // verus!
