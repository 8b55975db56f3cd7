use depsweep::fs_model::{FsEntry, FsTree};
use depsweep::language::{has_extension, marker_language_of, str_eq_ignore_ascii_case};
use depsweep::language::RepoLanguage;
use depsweep::repo::Repo;

fn file(size: u64) -> FsTree {
    FsTree::File { size }
}

fn dir(entries: Vec<(&str, FsTree)>) -> FsTree {
    FsTree::Dir {
        entries: entries
            .into_iter()
            .map(|(name, node)| FsEntry { name: String::from(name), node })
            .collect(),
    }
}

#[test]
fn cargo_toml_marks_rust() {
    let d = dir(vec![("src", dir(vec![])), ("Cargo.toml", file(42))]);
    assert_eq!(Repo::get_language(&d), Some(RepoLanguage::Rust));
    assert!(Repo::is_repo(&d));
}

#[test]
fn marker_match_is_case_insensitive() {
    let d = dir(vec![("cargo.TOML", file(1))]);
    assert_eq!(Repo::get_language(&d), Some(RepoLanguage::Rust));
    let j = dir(vec![("Package.JSON", file(1))]);
    assert_eq!(Repo::get_language(&j), Some(RepoLanguage::Javascript));
}

#[test]
fn empty_marker_file_still_counts() {
    // matching is by name only, not content: a zero-byte manifest matches
    let d = dir(vec![("package.json", file(0))]);
    assert_eq!(Repo::get_language(&d), Some(RepoLanguage::Javascript));
}

#[test]
fn solution_and_project_extensions_mark_dotnet() {
    let s = dir(vec![("App.sln", file(9))]);
    assert_eq!(Repo::get_language(&s), Some(RepoLanguage::Dotnet));
    let c = dir(vec![("App.Web.csproj", file(9))]);
    assert_eq!(Repo::get_language(&c), Some(RepoLanguage::Dotnet));
}

#[test]
fn leading_dot_alone_is_no_extension() {
    // ".sln" has no extension in the Path::extension sense
    let d = dir(vec![(".sln", file(9)), (".gitignore", file(1))]);
    assert_eq!(Repo::get_language(&d), None);
}

#[test]
fn unrelated_names_do_not_classify() {
    let d = dir(vec![("README.md", file(10)), ("Makefile", file(5)), ("src", dir(vec![]))]);
    assert_eq!(Repo::get_language(&d), None);
    assert!(!Repo::is_repo(&d));
}

#[test]
fn directory_named_like_a_marker_does_not_classify() {
    // only files count as manifest markers
    let d = dir(vec![("Cargo.toml", dir(vec![]))]);
    assert_eq!(Repo::get_language(&d), None);
}

#[test]
fn first_marker_entry_wins() {
    let d = dir(vec![("package.json", file(1)), ("Cargo.toml", file(1))]);
    assert_eq!(Repo::get_language(&d), Some(RepoLanguage::Javascript));
    let e = dir(vec![("Cargo.toml", file(1)), ("package.json", file(1))]);
    assert_eq!(Repo::get_language(&e), Some(RepoLanguage::Rust));
}

#[test]
fn plain_file_is_no_repo() {
    let f = file(7);
    assert_eq!(Repo::get_language(&f), None);
}

#[test]
fn case_insensitive_string_comparison() {
    assert!(str_eq_ignore_ascii_case("CaRgO.tOmL", "cargo.toml"));
    assert!(str_eq_ignore_ascii_case("", ""));
    assert!(!str_eq_ignore_ascii_case("cargo.toml", "cargo.tom"));
    assert!(!str_eq_ignore_ascii_case("cargo_toml", "cargo.toml"));
}

#[test]
fn extension_is_the_part_after_the_last_dot() {
    assert!(has_extension("App.sln", "sln"));
    assert!(has_extension("a.b.sln", "sln"));
    assert!(!has_extension("sln", "sln"));
    assert!(!has_extension(".sln", "sln"));
    assert!(!has_extension("App.sln.bak", "sln"));
    // unlike marker names, the extension match is case-sensitive
    assert!(!has_extension("App.SLN", "sln"));
}

#[test]
fn marker_names_map_to_their_ecosystems() {
    assert_eq!(marker_language_of("Cargo.toml"), Some(RepoLanguage::Rust));
    assert_eq!(marker_language_of("thing.csproj"), Some(RepoLanguage::Dotnet));
    assert_eq!(marker_language_of("package.json"), Some(RepoLanguage::Javascript));
    assert_eq!(marker_language_of("README.md"), None);
}

#[test]
fn dep_paths_per_language() {
    assert_eq!(RepoLanguage::Dotnet.get_dep_paths(), vec!["bin", "obj"]);
    assert_eq!(RepoLanguage::Javascript.get_dep_paths(), vec!["node_modules"]);
    assert_eq!(RepoLanguage::Rust.get_dep_paths(), vec!["target"]);
}
