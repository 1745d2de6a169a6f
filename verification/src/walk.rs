//! Picks the files that are worth reading out of the entries of a tree.

use vstd::prelude::*;
use crate::paths::file_name_of;
use crate::paths::path_file_name;
use crate::text::same_text;
use crate::text::texts;

verus! {

/// What `str::to_lowercase` gives for a text.
pub uninterp spec fn lowercase(text: Seq<char>) -> Seq<char>;

/// Calls `str::to_lowercase`. Trusted: the result is what `lowercase` names
/// for the text.
#[verifier::external_body]
fn to_lowercase(text: &str) -> (r: String)
    ensures
        r@ == lowercase(text@),
{
    text.to_lowercase()
}

/// The last segment of the path is `name`, whatever the case of its letters.
pub open spec fn is_named(path: Seq<char>, name: Seq<char>) -> bool {
    match path_file_name(path) {
        Some(last) => lowercase(last) == name,
        None => false,
    }
}

/// The paths whose last segment is `name`, in the order in which they stand
/// in `paths`.
pub open spec fn named(paths: Seq<Seq<char>>, name: Seq<char>) -> Seq<Seq<char>>
    decreases paths.len(),
{
    if paths.len() == 0 {
        Seq::empty()
    } else if is_named(paths.last(), name) {
        named(paths.drop_last(), name).push(paths.last())
    } else {
        named(paths.drop_last(), name)
    }
}

/// Sorts the entries of a tree into the readme files and the funding
/// manifests among them, each list in the order of the entries. A file
/// counts by its name alone, whatever the case of its letters and wherever
/// in the tree it lies.
pub fn walk_dir(entries: Vec<String>) -> (found: (Vec<String>, Vec<String>))
    ensures
        texts(found.0@) == named(texts(entries@), "readme.md"@),
        texts(found.1@) == named(texts(entries@), "funding.yml"@),
{
    let mut readme_files: Vec<String> = Vec::new();
    let mut funding_files: Vec<String> = Vec::new();
    let ghost all = texts(entries@);
    let mut i: usize = 0;
    assert(all.take(0) =~= Seq::<Seq<char>>::empty());
    assert(texts(readme_files@) =~= Seq::<Seq<char>>::empty());
    assert(texts(funding_files@) =~= Seq::<Seq<char>>::empty());
    while i < entries.len()
        invariant
            i <= entries.len(),
            all == texts(entries@),
            texts(readme_files@) == named(all.take(i as int), "readme.md"@),
            texts(funding_files@) == named(all.take(i as int), "funding.yml"@),
        decreases entries.len() - i,
    {
        let ghost readmes = texts(readme_files@);
        let ghost fundings = texts(funding_files@);
        proof {
            assert(all.take(i + 1).drop_last() =~= all.take(i as int));
            assert(all.take(i + 1).last() == entries@[i as int]@);
            reveal_strlit("readme.md");
            reveal_strlit("funding.yml");
            assert("readme.md"@.len() != "funding.yml"@.len());
        }
        match file_name_of(entries[i].as_str()) {
            Some(last) => {
                let lower = to_lowercase(last.as_str());
                if same_text(lower.as_str(), "readme.md") {
                    readme_files.push(entries[i].clone());
                    assert(texts(readme_files@) =~= readmes.push(entries@[i as int]@));
                } else if same_text(lower.as_str(), "funding.yml") {
                    funding_files.push(entries[i].clone());
                    assert(texts(funding_files@) =~= fundings.push(entries@[i as int]@));
                }
            },
            None => {},
        }
        i += 1;
    }
    assert(all.take(entries.len() as int) =~= all);
    (readme_files, funding_files)
}

} // verus!
