use depsweep::delete::DeleteOutcome;
use depsweep::fs_model::{FsEntry, FsTree};
use depsweep::language::RepoLanguage;
use depsweep::repo::Repo;

fn file(size: u64) -> FsTree {
    FsTree::File { size }
}

fn dir(entries: Vec<(&str, FsTree)>) -> FsTree {
    FsTree::Dir {
        entries: entries
            .into_iter()
            .map(|(name, node)| FsEntry { name: String::from(name), node })
            .collect(),
    }
}

fn entry_names(t: &FsTree) -> Vec<String> {
    match t {
        FsTree::Dir { entries } => entries.iter().map(|e| e.name.clone()).collect(),
        FsTree::File { .. } => panic!("expected a directory"),
    }
}

fn rust_repo(dir: &str, deps_size: u64) -> Repo {
    Repo { language: RepoLanguage::Rust, dir: String::from(dir), deps_size }
}

#[test]
fn empty_dependency_subpath_is_skipped_and_untouched() {
    // a pre-created empty "target" directory must survive the deletion
    let root = dir(vec![("Cargo.toml", file(1)), ("target", dir(vec![]))]);
    let repo = rust_repo("/p", 0);
    let (outcomes, after) = repo.delete_deps(root);
    assert_eq!(outcomes.len(), 1);
    match &outcomes[0] {
        DeleteOutcome::SkippedEmpty { path } => assert_eq!(path, "/p/target"),
        DeleteOutcome::Removed { .. } => panic!("an empty subpath must not be removed"),
    }
    assert_eq!(entry_names(&after), vec!["Cargo.toml", "target"]);
}

#[test]
fn missing_dependency_subpath_is_skipped() {
    let root = dir(vec![("Cargo.toml", file(1))]);
    let repo = rust_repo("/p", 0);
    let (outcomes, after) = repo.delete_deps(root);
    assert_eq!(outcomes.len(), 1);
    assert!(matches!(&outcomes[0], DeleteOutcome::SkippedEmpty { path } if path == "/p/target"));
    assert_eq!(entry_names(&after), vec!["Cargo.toml"]);
}

#[test]
fn non_empty_dependency_subpath_is_removed_and_siblings_kept() {
    let root = dir(vec![
        ("Cargo.toml", file(1)),
        ("src", dir(vec![("main.rs", file(30))])),
        ("target", dir(vec![("debug", dir(vec![("app", file(400))]))])),
    ]);
    let repo = rust_repo("/p", 400);
    let (outcomes, after) = repo.delete_deps(root);
    assert_eq!(outcomes.len(), 1);
    match &outcomes[0] {
        DeleteOutcome::Removed { path } => assert_eq!(path, "/p/target"),
        DeleteOutcome::SkippedEmpty { .. } => panic!("a non-empty subpath must be removed"),
    }
    // the removed subpath no longer exists; siblings are untouched
    assert_eq!(entry_names(&after), vec!["Cargo.toml", "src"]);
    match &after {
        FsTree::Dir { entries } => match &entries[1].node {
            FsTree::Dir { entries } => {
                assert_eq!(entries.len(), 1);
                assert_eq!(entries[0].name, "main.rs");
            }
            FsTree::File { .. } => panic!("src must stay a directory"),
        },
        FsTree::File { .. } => panic!("the root must stay a directory"),
    }
}

#[test]
fn each_subpath_gets_its_own_outcome() {
    let root = dir(vec![
        ("App.sln", file(1)),
        ("bin", dir(vec![("a.dll", file(10))])),
        ("obj", dir(vec![])),
    ]);
    let repo = Repo { language: RepoLanguage::Dotnet, dir: String::from("/d"), deps_size: 10 };
    let (outcomes, after) = repo.delete_deps(root);
    assert_eq!(outcomes.len(), 2);
    assert!(matches!(&outcomes[0], DeleteOutcome::Removed { path } if path == "/d/bin"));
    assert!(matches!(&outcomes[1], DeleteOutcome::SkippedEmpty { path } if path == "/d/obj"));
    assert_eq!(entry_names(&after), vec!["App.sln", "obj"]);
}

#[test]
fn deletion_uses_current_sizes_not_the_recorded_snapshot() {
    // the record remembers 400 bytes, but the fresh snapshot is empty:
    // nothing may be removed
    let fresh = dir(vec![("Cargo.toml", file(1)), ("target", dir(vec![]))]);
    let repo = rust_repo("/p", 400);
    let (outcomes, after) = repo.delete_deps(fresh);
    assert!(matches!(&outcomes[0], DeleteOutcome::SkippedEmpty { .. }));
    assert_eq!(entry_names(&after), vec!["Cargo.toml", "target"]);
}
