use depsweep::fs_model::{get_size, node_size, FsEntry, FsTree};

fn file(size: u64) -> FsTree {
    FsTree::File { size }
}

fn dir(entries: Vec<(&str, FsTree)>) -> FsTree {
    FsTree::Dir {
        entries: entries
            .into_iter()
            .map(|(name, node)| FsEntry { name: String::from(name), node })
            .collect(),
    }
}

#[test]
fn size_of_missing_path_is_zero() {
    assert_eq!(get_size(None), 0);
}

#[test]
fn size_of_regular_file_is_its_length() {
    let f = file(1234);
    assert_eq!(get_size(Some(&f)), 1234);
    assert_eq!(node_size(&f), 1234);
}

#[test]
fn size_of_empty_directory_is_zero() {
    let d = dir(vec![]);
    assert_eq!(node_size(&d), 0);
}

#[test]
fn size_of_directory_sums_children_recursively() {
    // three files of 10, 20 and 30 bytes under two nested directories
    let tree = dir(vec![
        ("a.bin", file(10)),
        ("nested", dir(vec![("b.bin", file(20)), ("deeper", dir(vec![("c.bin", file(30))]))])),
    ]);
    assert_eq!(node_size(&tree), 60);
}

#[test]
fn size_saturates_instead_of_overflowing() {
    let tree = dir(vec![("a", file(u64::MAX)), ("b", file(7))]);
    assert_eq!(node_size(&tree), u64::MAX);
}
