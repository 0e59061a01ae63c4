//! File names, stems and extensions of slash-separated paths and URLs.

use vstd::prelude::*;
use crate::text::{chars_of, copy_range, split_by, split_text, string_of, text_eq, CharClass};

verus! {

/// A path segment that names something: not empty and not the single dot.
pub open spec fn names_entry(segment: Seq<char>) -> bool {
    segment.len() > 0 && segment != seq!['.']
}

/// The last segment that names something, if there is one.
pub open spec fn last_entry(segments: Seq<Seq<char>>) -> Option<Seq<char>>
    decreases segments.len(),
{
    if segments.len() == 0 {
        None
    } else if names_entry(segments.last()) {
        Some(segments.last())
    } else {
        last_entry(segments.drop_last())
    }
}

/// The final segment of a slash-separated path.
///
/// Empty segments and single dots are passed over; a path that ends in `..`, or that
/// names nothing, has no file name.
pub open spec fn file_name(path: Seq<char>) -> Option<Seq<char>> {
    match last_entry(split_by(path, CharClass::Only('/'))) {
        Some(segment) => if segment == seq!['.', '.'] {
            None
        } else {
            Some(segment)
        },
        None => None,
    }
}

/// The index of the last dot in `name`.
pub open spec fn last_dot(name: Seq<char>) -> Option<int>
    decreases name.len(),
{
    if name.len() == 0 {
        None
    } else if name.last() == '.' {
        Some(name.len() - 1)
    } else {
        last_dot(name.drop_last())
    }
}

/// The dot that parts stem and extension: the last one, unless it starts the name.
pub open spec fn parting_dot(name: Seq<char>) -> Option<int> {
    match last_dot(name) {
        Some(i) => if i == 0 {
            None
        } else {
            Some(i)
        },
        None => None,
    }
}

/// The file name without its extension.
pub open spec fn stem_of_name(name: Seq<char>) -> Seq<char> {
    match parting_dot(name) {
        Some(i) => name.take(i),
        None => name,
    }
}

/// What follows the parting dot of a file name.
pub open spec fn extension_of_name(name: Seq<char>) -> Option<Seq<char>> {
    match parting_dot(name) {
        Some(i) => Some(name.skip(i + 1)),
        None => None,
    }
}

/// The stem of the path's file name.
pub open spec fn file_stem(path: Seq<char>) -> Option<Seq<char>> {
    match file_name(path) {
        Some(name) => Some(stem_of_name(name)),
        None => None,
    }
}

/// The extension of the path's file name.
pub open spec fn extension(path: Seq<char>) -> Option<Seq<char>> {
    match file_name(path) {
        Some(name) => extension_of_name(name),
        None => None,
    }
}

/// The name of the file that has the given stem and extension.
pub open spec fn sibling_name(stem: Seq<char>, ext: Seq<char>) -> Seq<char> {
    stem + seq!['.'] + ext
}

/// A dot at `i` with no dot after it is the last dot.
pub proof fn lemma_last_dot_at(name: Seq<char>, i: int)
    requires
        0 <= i < name.len(),
        name[i] == '.',
        forall|j: int| i < j < name.len() ==> name[j] != '.',
    ensures
        last_dot(name) == Some(i),
    decreases name.len(),
{
    if name.last() != '.' {
        lemma_last_dot_at(name.drop_last(), i);
    }
}

/// A name without dots has no last dot.
pub proof fn lemma_no_dot(name: Seq<char>)
    requires
        forall|j: int| 0 <= j < name.len() ==> name[j] != '.',
    ensures
        last_dot(name) is None,
    decreases name.len(),
{
    if name.len() > 0 {
        lemma_no_dot(name.drop_last());
    }
}

/// The final segment of a slash-separated path, where it names a file.
pub fn file_name_of(path: &str) -> (r: Option<String>)
    ensures
        r.deep_view() == file_name(path@),
{
    let segments = split_text(path, CharClass::Only('/'));
    let mut k: usize = segments.len();
    proof {
        reveal_strlit(".");
        reveal_strlit("..");
        assert("."@ =~= seq!['.']);
        assert(".."@ =~= seq!['.', '.']);
        assert(segments.deep_view().take(k as int) =~= segments.deep_view());
    }
    while k > 0
        invariant
            k <= segments.len(),
            "."@ == seq!['.'],
            ".."@ == seq!['.', '.'],
            segments.deep_view() == split_by(path@, CharClass::Only('/')),
            last_entry(segments.deep_view()) == last_entry(segments.deep_view().take(k as int)),
        decreases k,
    {
        let ghost upto = segments.deep_view().take(k as int);
        proof {
            assert(upto.last() == segments@[k - 1]@);
            assert(upto.drop_last() =~= segments.deep_view().take(k - 1));
        }
        let segment = segments[k - 1].as_str();
        if !segment.is_empty() && !text_eq(segment, ".") {
            if text_eq(segment, "..") {
                return None;
            }
            return Some(segments[k - 1].clone());
        }
        k -= 1;
    }
    None
}

/// The index of the parting dot of `name`, if it has one.
pub fn find_parting_dot(name: &Vec<char>) -> (r: Option<usize>)
    ensures
        match r {
            Some(i) => parting_dot(name@) == Some(i as int) && 0 < i < name.len(),
            None => parting_dot(name@) is None,
        },
{
    let mut k: usize = name.len();
    while k > 0
        invariant
            k <= name.len(),
            forall|j: int| k <= j < name.len() ==> name@[j] != '.',
        decreases k,
    {
        if name[k - 1] == '.' {
            proof {
                lemma_last_dot_at(name@, k - 1);
            }
            if k - 1 == 0 {
                return None;
            }
            return Some(k - 1);
        }
        k -= 1;
    }
    proof {
        lemma_no_dot(name@);
    }
    None
}

/// The file name `name` without its extension.
pub fn stem_of(name: &str) -> (r: String)
    ensures
        r@ == stem_of_name(name@),
{
    let v = chars_of(name);
    match find_parting_dot(&v) {
        Some(i) => {
            let stem = copy_range(&v, 0, i);
            assert(v@.subrange(0, i as int) =~= v@.take(i as int));
            string_of(&stem)
        },
        None => string_of(&v),
    }
}

/// The extension of the file name `name`.
pub fn extension_of(name: &str) -> (r: Option<String>)
    ensures
        r.deep_view() == extension_of_name(name@),
{
    let v = chars_of(name);
    match find_parting_dot(&v) {
        Some(i) => {
            let ext = copy_range(&v, i + 1, v.len());
            assert(v@.subrange(i + 1, v.len() as int) =~= v@.skip(i + 1));
            Some(string_of(&ext))
        },
        None => None,
    }
}

/// The stem of the file that `path` names.
pub fn file_stem_of(path: &str) -> (r: Option<String>)
    ensures
        r.deep_view() == file_stem(path@),
{
    match file_name_of(path) {
        Some(name) => Some(stem_of(name.as_str())),
        None => None,
    }
}

/// The extension of the file that `path` names.
pub fn path_extension(path: &str) -> (r: Option<String>)
    ensures
        r.deep_view() == extension(path@),
{
    match file_name_of(path) {
        Some(name) => extension_of(name.as_str()),
        None => None,
    }
}

/// The file name made of `stem`, a dot and `ext`.
pub fn sibling_file_name(stem: &str, ext: &str) -> (r: String)
    ensures
        r@ == sibling_name(stem@, ext@),
{
    let mut v = chars_of(stem);
    v.push('.');
    let e = chars_of(ext);
    crate::text::extend_chars(&mut v, &e);
    string_of(&v)
}

} // verus!
