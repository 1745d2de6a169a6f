//! Fills a result store from the files of a tree.
//!
//! Funding manifests are read first and readme files afterwards. A manifest
//! puts all its addresses into one row, one address on a line; a readme
//! writes its row once for each link in it, so the last link stays.

use vstd::prelude::*;
use regex::Regex;
use crate::links::blocklisted;
use crate::links::find_links;
use crate::links::lemma_blocklisted_pieces;
use crate::links::link_finder;
use crate::links::links_by;
use crate::links::regex_compiled;
use crate::links::regex_matches;
use crate::links::LinkError;
use crate::links::URL_PATTERN;
use crate::manifest::manifest_urls;
use crate::manifest::parse_funding_yaml;
use crate::paths::dependency_dir;
use crate::paths::dependency_name;
use crate::paths::get_dependency_name;
use crate::store::distinct_names;
use crate::store::lemma_upserted_distinct;
use crate::store::lemma_upserted_overwrites;
use crate::store::lemma_upserted_lookup;
use crate::store::lookup;
use crate::store::upserted;
use crate::store::ResultStore;
use crate::store::Row;
use crate::text::join;
use crate::text::joined;
use crate::text::texts;

verus! {

/// A file of the tree: where it lies and what it holds.
#[derive(Debug, PartialEq, Eq)]
pub struct SourceFile {
    /// The path of the file, as the walk of the tree gave it.
    pub path: String,
    /// The text of the file.
    pub contents: String,
}

/// A file as contracts see it: its path and its contents.
pub type FileView = (Seq<char>, Seq<char>);

/// The files of a vector, each as its path and its contents.
pub open spec fn file_views(files: Seq<SourceFile>) -> Seq<FileView> {
    Seq::new(files.len(), |i: int| (files[i].path@, files[i].contents@))
}

/// The rows after `text` was written for the dependency that the file at
/// `path` belongs to. Where the path names no dependency, nothing is written.
pub open spec fn recorded(
    rows: Seq<Row>,
    path: Seq<char>,
    root: bool,
    text: Seq<char>,
) -> Seq<Row> {
    match dependency_name(path, root) {
        Some(name) => upserted(rows, name, text),
        None => rows,
    }
}

/// Writes `url` into the store for the dependency that the file at `path`
/// belongs to, and cuts `path` back to the directory of that dependency.
pub fn insert_dependency(path: &mut String, url: String, root: bool, store: &mut ResultStore)
    ensures
        final(path)@ == dependency_dir(old(path)@, root),
        final(store)@ == recorded(old(store)@, old(path)@, root, url@),
{
    let dep_name = get_dependency_name(path, root);
    match dep_name {
        Some(dep_name) => {
            store.upsert(dep_name, url);
        },
        None => (),
    }
}

/// The rows after one funding manifest was read: where it declares
/// addresses, they stand in the row of its dependency, one on each line. A
/// manifest lies one directory below the root of its dependency.
pub open spec fn funding_recorded(
    rows: Seq<Row>,
    path: Seq<char>,
    contents: Seq<char>,
) -> Seq<Row> {
    match manifest_urls(contents) {
        Some(urls) => if urls.len() > 0 {
            recorded(rows, path, false, joined(urls, "\n"@))
        } else {
            rows
        },
        None => rows,
    }
}

/// The rows after the funding manifests were read one after the other.
pub open spec fn after_funding_files(rows: Seq<Row>, files: Seq<FileView>) -> Seq<Row>
    decreases files.len(),
{
    if files.len() == 0 {
        rows
    } else {
        funding_recorded(
            after_funding_files(rows, files.drop_last()),
            files.last().0,
            files.last().1,
        )
    }
}

/// Reads the funding manifests and writes what each declares into the
/// store. A manifest that cannot be read, or declares nothing, is passed
/// over.
pub fn funding_yml_files(files: Vec<SourceFile>, store: &mut ResultStore)
    ensures
        final(store)@ == after_funding_files(old(store)@, file_views(files@)),
{
    let ghost all = file_views(files@);
    let mut i: usize = 0;
    assert(all.take(0) =~= Seq::<FileView>::empty());
    while i < files.len()
        invariant
            i <= files.len(),
            all == file_views(files@),
            store@ == after_funding_files(old(store)@, all.take(i as int)),
        decreases files.len() - i,
    {
        proof {
            assert(all.take(i + 1).drop_last() =~= all.take(i as int));
            assert(all.take(i + 1).last() == (files@[i as int].path@, files@[i as int].contents@));
        }
        let support_urls = parse_funding_yaml(files[i].contents.as_str());
        match support_urls {
            Some(urls) => {
                if urls.len() > 0 {
                    let mut path = files[i].path.clone();
                    insert_dependency(&mut path, join(&urls, "\n"), false, store);
                }
            },
            None => (),
        }
        i += 1;
    }
    assert(all.take(files.len() as int) =~= all);
}

/// The rows after the links of one readme were written, each in its turn,
/// for the dependency of the readme. A readme lies at the root of its
/// dependency.
pub open spec fn links_recorded(
    rows: Seq<Row>,
    path: Seq<char>,
    links: Seq<Seq<char>>,
) -> Seq<Row>
    decreases links.len(),
{
    if links.len() == 0 {
        rows
    } else {
        recorded(links_recorded(rows, path, links.drop_last()), path, true, links.last())
    }
}

/// The rows after the readme files were read one after the other, their
/// links found by `re`.
pub open spec fn after_readme_files(rows: Seq<Row>, files: Seq<FileView>, re: Regex) -> Seq<Row>
    decreases files.len(),
{
    if files.len() == 0 {
        rows
    } else {
        links_recorded(
            after_readme_files(rows, files.drop_last(), re),
            files.last().0,
            links_by(re, files.last().1),
        )
    }
}

/// Writes the links of one readme into the store, each in its turn, for the
/// dependency of the readme.
pub fn record_links(path: &str, links: &Vec<String>, store: &mut ResultStore)
    ensures
        final(store)@ == links_recorded(old(store)@, path@, texts(links@)),
{
    let ghost all = texts(links@);
    let mut i: usize = 0;
    assert(all.take(0) =~= Seq::<Seq<char>>::empty());
    while i < links.len()
        invariant
            i <= links.len(),
            all == texts(links@),
            store@ == links_recorded(old(store)@, path@, all.take(i as int)),
        decreases links.len() - i,
    {
        proof {
            assert(all.take(i + 1).drop_last() =~= all.take(i as int));
            assert(all.take(i + 1).last() == links@[i as int]@);
        }
        let mut file = String::from_str(path);
        insert_dependency(&mut file, links[i].clone(), true, store);
        i += 1;
    }
    assert(all.take(links.len() as int) =~= all);
}

/// Reads the readme files and writes each support link in them into the
/// store. The expression by which addresses are found is built once, before
/// the first file is read; where its pattern is rejected, nothing is
/// written, and the error says why.
pub fn parse_urls(files: Vec<SourceFile>, store: &mut ResultStore) -> (r: Result<(), LinkError>)
    ensures
        match regex_compiled(URL_PATTERN@) {
            Some(re) => r is Ok && final(store)@ == after_readme_files(
                old(store)@,
                file_views(files@),
                re,
            ),
            None => r == Err::<(), LinkError>(LinkError::Pattern) && final(store)@ == old(store)@,
        },
{
    let url_regex = match link_finder(URL_PATTERN) {
        Ok(re) => re,
        Err(e) => {
            return Err(e);
        },
    };
    let ghost all = file_views(files@);
    let mut i: usize = 0;
    assert(all.take(0) =~= Seq::<FileView>::empty());
    while i < files.len()
        invariant
            i <= files.len(),
            all == file_views(files@),
            store@ == after_readme_files(old(store)@, all.take(i as int), url_regex),
        decreases files.len() - i,
    {
        proof {
            assert(all.take(i + 1).drop_last() =~= all.take(i as int));
            assert(all.take(i + 1).last() == all[i as int]);
        }
        let links = find_links(&url_regex, files[i].contents.as_str());
        record_links(files[i].path.as_str(), &links, store);
        i += 1;
    }
    assert(all.take(files.len() as int) =~= all);
    Ok(())
}

/// A manifest that cannot be read, or that declares no address, leaves the
/// store as it was.
pub proof fn lemma_silent_manifest(rows: Seq<Row>, path: Seq<char>, contents: Seq<char>)
    requires
        manifest_urls(contents) is None || manifest_urls(contents).unwrap().len() == 0,
    ensures
        funding_recorded(rows, path, contents) == rows,
{
}

/// Of two writes for files of the same dependency the second stays: the
/// rows are those that the second write alone would give.
pub proof fn lemma_second_write_stays(
    rows: Seq<Row>,
    first_path: Seq<char>,
    first_root: bool,
    first: Seq<char>,
    second_path: Seq<char>,
    second_root: bool,
    second: Seq<char>,
)
    requires
        distinct_names(rows),
        dependency_name(first_path, first_root) is Some,
        dependency_name(first_path, first_root) == dependency_name(second_path, second_root),
    ensures
        recorded(
            recorded(rows, first_path, first_root, first),
            second_path,
            second_root,
            second,
        ) == recorded(rows, second_path, second_root, second),
        lookup(
            recorded(rows, second_path, second_root, second),
            dependency_name(second_path, second_root).unwrap(),
        ) == Some(second),
{
    let name = dependency_name(first_path, first_root).unwrap();
    lemma_upserted_overwrites(rows, name, first, second);
    lemma_upserted_lookup(rows, name, second, name);
}

/// A readme in which every piece that looks like an address holds an entry
/// of the blocklist leaves the store as it was, whatever the hosts of the
/// pieces are: there are no links in it, and nothing is written under any
/// name.
pub proof fn lemma_blocklisted_readme(rows: Seq<Row>, path: Seq<char>, contents: Seq<char>, re: Regex)
    requires
        forall|i: int|
            0 <= i < regex_matches(re, contents).len() ==> blocklisted(
                #[trigger] regex_matches(re, contents)[i],
            ),
    ensures
        links_by(re, contents) == Seq::<Seq<char>>::empty(),
        after_readme_files(rows, seq![(path, contents)], re) == rows,
{
    lemma_blocklisted_pieces(regex_matches(re, contents));
    let files = seq![(path, contents)];
    assert(files.drop_last() =~= Seq::<FileView>::empty());
    assert(after_readme_files(rows, files.drop_last(), re) == rows);
}

/// Writing the links of a readme keeps names distinct.
pub proof fn lemma_links_recorded_distinct(rows: Seq<Row>, path: Seq<char>, links: Seq<Seq<char>>)
    requires
        distinct_names(rows),
    ensures
        distinct_names(links_recorded(rows, path, links)),
    decreases links.len(),
{
    if links.len() > 0 {
        lemma_links_recorded_distinct(rows, path, links.drop_last());
        if let Some(name) = dependency_name(path, true) {
            lemma_upserted_distinct(links_recorded(rows, path, links.drop_last()), name, links.last());
        }
    }
}

/// Of the links of one readme the last one stays: after they were written,
/// the row of the readme's dependency holds the last link, and every other
/// row holds what it held.
pub proof fn lemma_last_link_stays(
    rows: Seq<Row>,
    path: Seq<char>,
    links: Seq<Seq<char>>,
    other: Seq<char>,
)
    requires
        distinct_names(rows),
        links.len() > 0,
        dependency_name(path, true) is Some,
    ensures
        lookup(links_recorded(rows, path, links), dependency_name(path, true).unwrap()) == Some(
            links.last(),
        ),
        other != dependency_name(path, true).unwrap() ==> lookup(
            links_recorded(rows, path, links),
            other,
        ) == lookup(rows, other),
    decreases links.len(),
{
    let name = dependency_name(path, true).unwrap();
    let before = links_recorded(rows, path, links.drop_last());
    lemma_links_recorded_distinct(rows, path, links.drop_last());
    lemma_upserted_lookup(before, name, links.last(), other);
    if links.len() > 1 {
        lemma_last_link_stays(rows, path, links.drop_last(), other);
    }
}

/// The addresses of one manifest stay together: after a manifest that
/// declares addresses was read, the row of its dependency holds all of them,
/// in order, one on each line. Two addresses `a` and `b` are stored as `a`,
/// a line break, and `b`.
pub proof fn lemma_manifest_links_joined(rows: Seq<Row>, path: Seq<char>, contents: Seq<char>)
    requires
        distinct_names(rows),
        manifest_urls(contents) is Some,
        manifest_urls(contents).unwrap().len() > 0,
        dependency_name(path, false) is Some,
    ensures
        lookup(funding_recorded(rows, path, contents), dependency_name(path, false).unwrap())
            == Some(joined(manifest_urls(contents).unwrap(), "\n"@)),
        manifest_urls(contents).unwrap().len() == 2 ==> joined(
            manifest_urls(contents).unwrap(),
            "\n"@,
        ) == manifest_urls(contents).unwrap()[0] + "\n"@ + manifest_urls(contents).unwrap()[1],
{
    let urls = manifest_urls(contents).unwrap();
    let name = dependency_name(path, false).unwrap();
    lemma_upserted_lookup(rows, name, joined(urls, "\n"@), name);
    if urls.len() == 2 {
        assert(urls.drop_last().len() == 1);
        assert(urls.drop_last()[0] == urls[0]);
        assert(joined(urls.drop_last(), "\n"@) == urls[0]);
    }
}

/// One dependency, one row: where a tree holds one manifest that declares
/// addresses and one readme without support links, the store that starts
/// empty ends with the row of the manifest and no other.
pub proof fn lemma_manifest_and_silent_readme(manifest: FileView, readme: FileView, re: Regex)
    requires
        manifest_urls(manifest.1) is Some,
        manifest_urls(manifest.1).unwrap().len() > 0,
        dependency_name(manifest.0, false) is Some,
        links_by(re, readme.1).len() == 0,
    ensures
        after_readme_files(
            after_funding_files(Seq::<Row>::empty(), seq![manifest]),
            seq![readme],
            re,
        ) == seq![
            (
                dependency_name(manifest.0, false).unwrap(),
                joined(manifest_urls(manifest.1).unwrap(), "\n"@),
            ),
        ],
{
    let none = Seq::<Row>::empty();
    let name = dependency_name(manifest.0, false).unwrap();
    let text = joined(manifest_urls(manifest.1).unwrap(), "\n"@);
    assert(seq![manifest].drop_last() =~= Seq::<FileView>::empty());
    assert(seq![readme].drop_last() =~= Seq::<FileView>::empty());
    assert(after_funding_files(none, seq![manifest].drop_last()) == none);
    assert(!crate::store::has_name(none, name));
    let filled = after_funding_files(none, seq![manifest]);
    assert(filled =~= seq![(name, text)]);
    assert(after_readme_files(filled, seq![readme].drop_last(), re) == filled);
}

} // verus!
