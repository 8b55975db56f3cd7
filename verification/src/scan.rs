//! The recursive repository scan: a depth-first pre-order walk of a
//! directory-tree snapshot that emits one record per recognized project root.

use vstd::prelude::*;
use crate::fs_model::FsTree;
use crate::fs_model::FsEntry;
use crate::repo::Repo;
use crate::repo::RepoModel;
use crate::repo::classify_entries;
use crate::repo::classify_spec;
use crate::repo::repo_model_of;
use crate::language::RepoLanguage;
use crate::language::marker_language;

verus! {

/// The display path of the child `name` of the directory at path `p`.
pub open spec fn join_path(p: Seq<char>, name: Seq<char>) -> Seq<char> {
    p + "/"@ + name
}

/// The records that a scan of the subtree `t`, rooted at display path `p`,
/// emits: one for `t` itself when it is a recognized project root, then the
/// records of its subdirectories, in entry order.
pub open spec fn scan_spec(t: FsTree, p: Seq<char>) -> Seq<RepoModel>
    decreases t,
{
    match t {
        FsTree::File { .. } => Seq::<RepoModel>::empty(),
        FsTree::Dir { entries } => (match classify_entries(entries@) {
            Some(l) => seq![repo_model_of(t, p, l)],
            None => Seq::<RepoModel>::empty(),
        }) + scan_entries(entries@, p),
    }
}

/// The records emitted below the entries `s` of a directory at path `p`.
pub open spec fn scan_entries(s: Seq<FsEntry>, p: Seq<char>) -> Seq<RepoModel>
    decreases s,
{
    if s.len() == 0 {
        Seq::<RepoModel>::empty()
    } else {
        scan_sub(s[0], p) + scan_entries(s.drop_first(), p)
    }
}

/// The records emitted below one entry of a directory at path `p`: only
/// subdirectories are descended into.
pub open spec fn scan_sub(e: FsEntry, p: Seq<char>) -> Seq<RepoModel>
    decreases e,
{
    match e.node {
        FsTree::Dir { .. } => scan_spec(e.node, join_path(p, e.name@)),
        FsTree::File { .. } => Seq::<RepoModel>::empty(),
    }
}

proof fn lemma_scan_entries_take_succ(s: Seq<FsEntry>, p: Seq<char>, i: int)
    requires
        0 <= i < s.len(),
    ensures
        scan_entries(s.take(i + 1), p) == scan_entries(s.take(i), p) + scan_sub(s[i], p),
    decreases i,
{
    if i == 0 {
        assert(s.take(1).drop_first() =~= s.take(0));
        assert(scan_entries(s.take(0), p) == Seq::<RepoModel>::empty());
        assert(scan_sub(s[0], p) + Seq::<RepoModel>::empty() =~= scan_sub(s[0], p));
        assert(Seq::<RepoModel>::empty() + scan_sub(s[0], p) =~= scan_sub(s[0], p));
    } else {
        lemma_scan_entries_take_succ(s.drop_first(), p, i - 1);
        assert(s.take(i + 1).drop_first() =~= s.drop_first().take(i));
        assert(s.take(i).drop_first() =~= s.drop_first().take(i - 1));
        assert(s.drop_first()[i - 1] == s[i]);
        assert(scan_sub(s.take(i + 1)[0], p) + scan_entries(s.drop_first().take(i), p) =~= scan_sub(
            s[0],
            p,
        ) + (scan_entries(s.drop_first().take(i - 1), p) + scan_sub(s[i], p)));
    }
}

/// No recognized manifest marker file anywhere in the subtree `t`.
pub open spec fn no_marker_in_tree(t: FsTree) -> bool
    decreases t,
{
    match t {
        FsTree::File { .. } => true,
        FsTree::Dir { entries } => no_marker_in_entries(entries@),
    }
}

/// No recognized manifest marker file among the entries `s` or anywhere
/// below them.
pub open spec fn no_marker_in_entries(s: Seq<FsEntry>) -> bool
    decreases s,
{
    if s.len() == 0 {
        true
    } else {
        !(s[0].node is File && marker_language(s[0].name@) is Some) && no_marker_in_tree(s[0].node)
            && no_marker_in_entries(s.drop_first())
    }
}

proof fn lemma_classify_none_without_markers(s: Seq<FsEntry>)
    requires
        no_marker_in_entries(s),
    ensures
        classify_entries(s) is None,
    decreases s,
{
    if s.len() > 0 {
        lemma_classify_none_without_markers(s.drop_first());
    }
}

/// A scan of a directory tree that holds no recognized manifest marker
/// anywhere in its subtree returns no records.
pub proof fn lemma_scan_empty_without_markers(t: FsTree, p: Seq<char>)
    requires
        no_marker_in_tree(t),
    ensures
        scan_spec(t, p) == Seq::<RepoModel>::empty(),
    decreases t,
{
    match t {
        FsTree::File { .. } => {
        },
        FsTree::Dir { entries } => {
            lemma_classify_none_without_markers(entries@);
            lemma_scan_entries_empty_without_markers(entries@, p);
            assert(scan_spec(t, p) =~= Seq::<RepoModel>::empty());
        },
    }
}

proof fn lemma_scan_entries_empty_without_markers(s: Seq<FsEntry>, p: Seq<char>)
    requires
        no_marker_in_entries(s),
    ensures
        scan_entries(s, p) == Seq::<RepoModel>::empty(),
    decreases s,
{
    if s.len() > 0 {
        match s[0].node {
            FsTree::Dir { .. } => {
                lemma_scan_empty_without_markers(s[0].node, join_path(p, s[0].name@));
                assert(scan_sub(s[0], p) =~= Seq::<RepoModel>::empty());
            },
            FsTree::File { .. } => {
                assert(scan_sub(s[0], p) =~= Seq::<RepoModel>::empty());
            },
        }
        lemma_scan_entries_empty_without_markers(s.drop_first(), p);
        assert(scan_entries(s, p) =~= Seq::<RepoModel>::empty());
    }
}

proof fn lemma_scan_paths_at_least(t: FsTree, p: Seq<char>)
    ensures
        forall|k: int|
            0 <= k < scan_spec(t, p).len() ==> (#[trigger] scan_spec(t, p)[k]).dir.len()
                >= p.len(),
    decreases t,
{
    match t {
        FsTree::File { .. } => {
        },
        FsTree::Dir { entries } => {
            lemma_scan_entries_paths_longer(entries@, p);
        },
    }
}

proof fn lemma_scan_entries_paths_longer(s: Seq<FsEntry>, p: Seq<char>)
    ensures
        forall|k: int|
            0 <= k < scan_entries(s, p).len() ==> (#[trigger] scan_entries(s, p)[k]).dir.len()
                > p.len(),
    decreases s,
{
    reveal_strlit("/");
    if s.len() > 0 {
        match s[0].node {
            FsTree::Dir { .. } => {
                lemma_scan_paths_at_least(s[0].node, join_path(p, s[0].name@));
            },
            FsTree::File { .. } => {
            },
        }
        lemma_scan_entries_paths_longer(s.drop_first(), p);
        assert forall|k: int| 0 <= k < scan_entries(s, p).len() implies (#[trigger] scan_entries(
            s,
            p,
        )[k]).dir.len() > p.len() by {
            if k < scan_sub(s[0], p).len() {
                assert(scan_entries(s, p)[k] == scan_sub(s[0], p)[k]);
            } else {
                assert(scan_entries(s, p)[k] == scan_entries(s.drop_first(), p)[k - scan_sub(
                    s[0],
                    p,
                ).len()]);
            }
        }
    }
}

/// A directory whose immediate entries include a recognized manifest
/// marker yields exactly one record for itself — the first record, with the
/// marker's ecosystem and the directory's own path — whatever the marker
/// file's content; every other record of the scan names a longer path.
pub proof fn lemma_scan_root_record(t: FsTree, p: Seq<char>, l: RepoLanguage)
    requires
        classify_spec(t) == Some(l),
    ensures
        scan_spec(t, p).len() >= 1,
        scan_spec(t, p)[0] == repo_model_of(t, p, l),
        forall|k: int| 0 < k < scan_spec(t, p).len() ==> (#[trigger] scan_spec(t, p)[k]).dir != p,
{
    match t {
        FsTree::File { .. } => {
        },
        FsTree::Dir { entries } => {
            lemma_scan_entries_paths_longer(entries@, p);
            assert forall|k: int| 0 < k < scan_spec(t, p).len() implies (#[trigger] scan_spec(
                t,
                p,
            )[k]).dir != p by {
                assert(scan_spec(t, p)[k] == scan_entries(entries@, p)[k - 1]);
                assert(scan_spec(t, p)[k].dir.len() > p.len());
            }
        },
    }
}

/// The subtree reached from `t` by following the entry indices `cs`.
pub open spec fn node_at(t: FsTree, cs: Seq<int>) -> Option<FsTree>
    decreases cs.len(),
{
    if cs.len() == 0 {
        Some(t)
    } else {
        match t {
            FsTree::Dir { entries } => if 0 <= cs[0] < entries@.len() {
                node_at(entries@[cs[0]].node, cs.drop_first())
            } else {
                None
            },
            FsTree::File { .. } => None,
        }
    }
}

/// The display path of the subtree reached from `t`, at path `p`, by the
/// entry indices `cs`.
pub open spec fn path_at(t: FsTree, cs: Seq<int>, p: Seq<char>) -> Seq<char>
    decreases cs.len(),
{
    if cs.len() == 0 {
        p
    } else {
        match t {
            FsTree::Dir { entries } => if 0 <= cs[0] < entries@.len() {
                path_at(entries@[cs[0]].node, cs.drop_first(), join_path(p, entries@[cs[0]].name@))
            } else {
                p
            },
            FsTree::File { .. } => p,
        }
    }
}

proof fn lemma_scan_entries_contain_sub(s: Seq<FsEntry>, p: Seq<char>, j: int, rec: RepoModel)
    requires
        0 <= j < s.len(),
        scan_sub(s[j], p).contains(rec),
    ensures
        scan_entries(s, p).contains(rec),
    decreases j,
{
    if j == 0 {
        let i = choose|i: int| 0 <= i < scan_sub(s[0], p).len() && scan_sub(s[0], p)[i] == rec;
        assert(scan_entries(s, p)[i] == rec);
    } else {
        assert(s.drop_first()[j - 1] == s[j]);
        lemma_scan_entries_contain_sub(s.drop_first(), p, j - 1, rec);
        let i = choose|i: int|
            0 <= i < scan_entries(s.drop_first(), p).len() && scan_entries(s.drop_first(), p)[i]
                == rec;
        assert(scan_entries(s, p)[scan_sub(s[0], p).len() + i] == rec);
    }
}

/// Nested project roots are discovered independently: every subtree of `t`
/// that is itself a recognized project root contributes its own record,
/// with its own path and ecosystem, to the scan of `t`.
pub proof fn lemma_scan_finds_nested_roots(
    t: FsTree,
    cs: Seq<int>,
    p: Seq<char>,
    sub: FsTree,
    l: RepoLanguage,
)
    requires
        node_at(t, cs) == Some(sub),
        classify_spec(sub) == Some(l),
    ensures
        scan_spec(t, p).contains(repo_model_of(sub, path_at(t, cs, p), l)),
    decreases cs.len(),
{
    reveal_with_fuel(node_at, 3);
    reveal_with_fuel(path_at, 3);
    if cs.len() == 0 {
        lemma_scan_root_record(t, p, l);
        assert(scan_spec(t, p)[0] == repo_model_of(sub, path_at(t, cs, p), l));
    } else {
        match t {
            FsTree::File { .. } => {
                assert(false);
            },
            FsTree::Dir { entries } => {
                let j = cs[0];
                let child = entries@[j];
                match child.node {
                    FsTree::File { .. } => {
                        if cs.drop_first().len() == 0 {
                            assert(sub == child.node);
                        }
                        assert(false);
                    },
                    FsTree::Dir { .. } => {
                        let q = join_path(p, child.name@);
                        lemma_scan_finds_nested_roots(child.node, cs.drop_first(), q, sub, l);
                        let rec = repo_model_of(sub, path_at(child.node, cs.drop_first(), q), l);
                        assert(scan_sub(child, p).contains(rec));
                        lemma_scan_entries_contain_sub(entries@, p, j, rec);
                        let i = choose|i: int|
                            0 <= i < scan_entries(entries@, p).len() && scan_entries(entries@, p)[i]
                                == rec;
                        let ghost head_len = (match classify_entries(entries@) {
                            Some(m) => 1int,
                            None => 0int,
                        });
                        assert(scan_spec(t, p)[head_len + i] == rec);
                    },
                }
            },
        }
    }
}

/// Scans the subtree `t`, whose display path is `path`, and returns one
/// record per recognized project root, in depth-first pre-order.
#[verifier::loop_isolation(false)]
pub fn find_repos(t: &FsTree, path: &String) -> (r: Vec<Repo>)
    ensures
        r.deep_view() == scan_spec(*t, path@),
    decreases *t,
{
    let mut repos: Vec<Repo> = Vec::new();
    match t {
        FsTree::File { .. } => {
            assert(repos.deep_view() =~= scan_spec(*t, path@));
            repos
        },
        FsTree::Dir { entries } => {
            if let Some(repo) = Repo::new(t, path) {
                repos.push(repo);
            }
            let ghost head = match classify_entries(entries@) {
                Some(l) => seq![repo_model_of(*t, path@, l)],
                None => Seq::<RepoModel>::empty(),
            };
            assert(repos.deep_view() =~= head);
            let mut i: usize = 0;
            proof {
                assert(entries@.take(0) =~= Seq::<FsEntry>::empty());
                assert(head + scan_entries(entries@.take(0), path@) =~= head);
            }
            while i < entries.len()
                invariant
                    0 <= i <= entries@.len(),
                    repos.deep_view() == head + scan_entries(entries@.take(i as int), path@),
                decreases entries@.len() - i,
            {
                let is_dir = match &entries[i].node {
                    FsTree::Dir { .. } => true,
                    FsTree::File { .. } => false,
                };
                if is_dir {
                    let mut child_path = path.clone();
                    child_path.append("/");
                    child_path.append(entries[i].name.as_str());
                    proof {
                        assert(decreases_to!(*t => (*t)->Dir_entries));
                        assert((*t)->Dir_entries == *entries);
                        assert(decreases_to!(*entries => entries@[i as int]));
                        assert(decreases_to!(entries@[i as int] => entries@[i as int].node));
                    }
                    let mut sub = find_repos(&entries[i].node, &child_path);
                    proof {
                        assert(sub.deep_view() == scan_sub(entries@[i as int], path@));
                    }
                    let ghost old_repos = repos.deep_view();
                    let ghost sub_models = sub.deep_view();
                    repos.append(&mut sub);
                    proof {
                        assert(repos.deep_view() =~= old_repos + sub_models);
                    }
                } else {
                    proof {
                        assert(scan_sub(entries@[i as int], path@) =~= Seq::<RepoModel>::empty());
                        assert(repos.deep_view() + scan_sub(entries@[i as int], path@)
                            =~= repos.deep_view());
                    }
                }
                proof {
                    lemma_scan_entries_take_succ(entries@, path@, i as int);
                }
                i = i + 1;
            }
            proof {
                assert(entries@.take(entries@.len() as int) =~= entries@);
            }
            repos
        },
    }
}

} // verus!
