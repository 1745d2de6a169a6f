use paydept::paths::get_dependency_name;
use paydept::walk::walk_dir;

fn name_of(path: &str, root: bool) -> (Option<String>, String) {
    let mut path = String::from(path);
    let name = get_dependency_name(&mut path, root);
    (name, path)
}

#[test]
fn manifest_path_names_the_directory_two_up() {
    assert_eq!(name_of("a/b/FUNDING.yml", false), (Some(String::from("a")), String::from("a")));
    assert_eq!(
        name_of("./vendor/libfoo/.github/FUNDING.yml", false),
        (Some(String::from("libfoo")), String::from("./vendor/libfoo"))
    );
}

#[test]
fn readme_path_names_the_directory_one_up() {
    assert_eq!(name_of("a/README.md", true), (Some(String::from("a")), String::from("a")));
    assert_eq!(
        name_of("/srv/deps/libfoo/README.md", true),
        (Some(String::from("libfoo")), String::from("/srv/deps/libfoo"))
    );
}

#[test]
fn path_with_too_few_segments_names_nothing() {
    assert_eq!(name_of("README.md", true), (None, String::from("")));
    assert_eq!(name_of("./README.md", true), (None, String::from(".")));
    assert_eq!(name_of("/README.md", true), (None, String::from("/")));
    assert_eq!(name_of("a/FUNDING.yml", false), (None, String::from("")));
    assert_eq!(name_of("./a/FUNDING.yml", false), (None, String::from(".")));
    assert_eq!(name_of("FUNDING.yml", false), (None, String::from("")));
    assert_eq!(name_of("", true), (None, String::from("")));
}

#[test]
fn parent_directory_is_no_name() {
    assert_eq!(name_of("../README.md", true), (None, String::from("..")));
}

#[test]
fn walk_sorts_files_by_name() {
    let entries = vec![
        String::from("."),
        String::from("./a"),
        String::from("./a/README.md"),
        String::from("./a/.github"),
        String::from("./a/.github/FUNDING.yml"),
        String::from("./a/src/main.rs"),
        String::from("./b/readme.MD"),
        String::from("./b/.github/funding.YML"),
        String::from("./c/README.markdown"),
        String::from("./c/FUNDING.yaml"),
        String::from("./d/ReadMe.md"),
    ];
    let (readme_files, funding_files) = walk_dir(entries);
    assert_eq!(
        readme_files,
        vec![
            String::from("./a/README.md"),
            String::from("./b/readme.MD"),
            String::from("./d/ReadMe.md"),
        ]
    );
    assert_eq!(
        funding_files,
        vec![String::from("./a/.github/FUNDING.yml"), String::from("./b/.github/funding.YML")]
    );
}

#[test]
fn walk_of_nothing_finds_nothing() {
    let (readme_files, funding_files) = walk_dir(Vec::new());
    assert_eq!(readme_files, Vec::<String>::new());
    assert_eq!(funding_files, Vec::<String>::new());
}

#[test]
fn walk_goes_by_the_last_segment_only() {
    let entries = vec![
        String::from("readme.md/notes.txt"),
        String::from("funding.yml/.."),
        String::from("x/readme.md/"),
    ];
    let (readme_files, funding_files) = walk_dir(entries);
    assert_eq!(readme_files, vec![String::from("x/readme.md/")]);
    assert_eq!(funding_files, Vec::<String>::new());
}
