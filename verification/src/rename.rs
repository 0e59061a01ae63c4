//! File names that kept an image extension in front of their real one, such as
//! `image.jpg.toml`.

use vstd::prelude::*;
use crate::paths::{sibling_file_name, sibling_name};
use crate::text::{lowercased, split_by, split_text, text_eq, to_lowercase, CharClass};

verus! {

/// Whether the lowercase text `ext` is one of the image extensions `jpg`, `jpeg`, `png`.
pub open spec fn names_image(ext: Seq<char>) -> bool {
    ext == "jpg"@ || ext == "jpeg"@ || ext == "png"@
}

/// Whether a part between the first and the last is an image extension in any case.
pub open spec fn has_inner_image_extension(parts: Seq<Seq<char>>) -> bool {
    exists|i: int| 1 <= i < parts.len() - 1 && names_image(lowercased(#[trigger] parts[i]))
}

/// The name without what stands between its first and its last part, where the name has
/// three parts or more and an image extension among the inner ones.
pub open spec fn without_inner_extensions(name: Seq<char>) -> Option<Seq<char>> {
    let parts = split_by(name, CharClass::Only('.'));
    if parts.len() >= 3 && has_inner_image_extension(parts) {
        Some(sibling_name(parts[0], parts.last()))
    } else {
        None
    }
}

/// Whether the lowercase text `ext` is an image extension.
pub fn is_image_extension(ext: &str) -> (r: bool)
    ensures
        r == names_image(ext@),
{
    text_eq(ext, "jpg") || text_eq(ext, "jpeg") || text_eq(ext, "png")
}

/// The name that a file is renamed to, or `None` where it keeps its name.
///
/// `image.jpg.toml` becomes `image.toml`; `image.png` stays.
pub fn name_without_image_extension(file_name: &str) -> (r: Option<String>)
    ensures
        r.deep_view() == without_inner_extensions(file_name@),
{
    let parts = split_text(file_name, CharClass::Only('.'));
    let n = parts.len();
    if n < 3 {
        return None;
    }
    let mut i: usize = 1;
    while i < n - 1
        invariant
            1 <= i <= n - 1,
            n == parts.len(),
            n >= 3,
            parts.deep_view() == split_by(file_name@, CharClass::Only('.')),
            forall|k: int| 1 <= k < i ==> !names_image(lowercased(#[trigger] parts.deep_view()[k])),
        decreases n - i,
    {
        let lowered = to_lowercase(parts[i].as_str());
        if is_image_extension(lowered.as_str()) {
            assert(names_image(lowercased(parts.deep_view()[i as int])));
            assert(parts.deep_view().last() == parts@[n - 1]@);
            return Some(sibling_file_name(parts[0].as_str(), parts[n - 1].as_str()));
        }
        i += 1;
    }
    None
}

} // verus!
