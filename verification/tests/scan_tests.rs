use depsweep::fs_model::{FsEntry, FsTree};
use depsweep::language::RepoLanguage;
use depsweep::repo::Repo;
use depsweep::report::total_size;
use depsweep::scan::find_repos;

fn file(size: u64) -> FsTree {
    FsTree::File { size }
}

fn dir(entries: Vec<(&str, FsTree)>) -> FsTree {
    FsTree::Dir {
        entries: entries
            .into_iter()
            .map(|(name, node)| FsEntry { name: String::from(name), node })
            .collect(),
    }
}

#[test]
fn scan_without_markers_is_empty() {
    let tree = dir(vec![
        ("docs", dir(vec![("guide.md", file(100))])),
        ("misc", dir(vec![("deep", dir(vec![("notes.txt", file(3))]))])),
    ]);
    let repos = find_repos(&tree, &String::from("/work"));
    assert!(repos.is_empty());
}

#[test]
fn scan_reports_one_record_per_marked_directory() {
    let tree = dir(vec![("Cargo.toml", file(20)), ("target", dir(vec![("out.o", file(500))]))]);
    let repos = find_repos(&tree, &String::from("/work/proj"));
    assert_eq!(repos.len(), 1);
    assert_eq!(repos[0].language, RepoLanguage::Rust);
    assert_eq!(repos[0].dir, "/work/proj");
    assert_eq!(repos[0].deps_size, 500);
}

#[test]
fn scan_finds_nested_roots_independently() {
    let inner = dir(vec![
        ("package.json", file(2)),
        ("node_modules", dir(vec![("left-pad", dir(vec![("index.js", file(40))]))])),
    ]);
    let tree = dir(vec![
        ("Cargo.toml", file(1)),
        ("target", dir(vec![("debug", dir(vec![("app", file(100))]))])),
        ("web", dir(vec![("frontend", inner)])),
    ]);
    let repos = find_repos(&tree, &String::from("/r"));
    assert_eq!(repos.len(), 2);
    // pre-order: the outer root comes first
    assert_eq!(repos[0].language, RepoLanguage::Rust);
    assert_eq!(repos[0].dir, "/r");
    assert_eq!(repos[0].deps_size, 100);
    assert_eq!(repos[1].language, RepoLanguage::Javascript);
    assert_eq!(repos[1].dir, "/r/web/frontend");
    assert_eq!(repos[1].deps_size, 40);
    // the reported total is the sum of the per-record sizes
    assert_eq!(total_size(&repos), 140);
}

#[test]
fn scan_does_not_stop_at_a_matched_root() {
    // a root whose dependency directory hides another recognized root
    let vendored = dir(vec![("Cargo.toml", file(1))]);
    let tree = dir(vec![
        ("package.json", file(1)),
        ("node_modules", dir(vec![("vendored", vendored)])),
    ]);
    let repos = find_repos(&tree, &String::from("/p"));
    assert_eq!(repos.len(), 2);
    assert_eq!(repos[0].dir, "/p");
    assert_eq!(repos[1].dir, "/p/node_modules/vendored");
    assert_eq!(repos[1].language, RepoLanguage::Rust);
}

#[test]
fn repo_new_builds_the_record_or_nothing() {
    let d = dir(vec![("App.sln", file(4)), ("bin", dir(vec![("a", file(7))])), ("obj", dir(vec![("b", file(5))]))]);
    let repo = Repo::new(&d, &String::from("/x")).expect("a .NET root");
    assert_eq!(repo.language, RepoLanguage::Dotnet);
    assert_eq!(repo.dir, "/x");
    assert_eq!(repo.deps_size, 12);

    let plain = dir(vec![("README", file(1))]);
    assert!(Repo::new(&plain, &String::from("/x")).is_none());
}

#[test]
fn deps_size_counts_missing_subpaths_as_zero() {
    let d = dir(vec![("Cargo.toml", file(1))]);
    assert_eq!(Repo::get_deps_size(&d, &RepoLanguage::Rust), 0);
    let e = dir(vec![("App.sln", file(1)), ("bin", dir(vec![("a", file(3))]))]);
    // "obj" is missing and contributes 0
    assert_eq!(Repo::get_deps_size(&e, &RepoLanguage::Dotnet), 3);
}
