//! Discovered-project records: classification of a directory snapshot and
//! the size of its removable dependency subpaths.

use vstd::prelude::*;
use crate::fs_model::FsTree;
use crate::fs_model::FsEntry;
use crate::fs_model::cap_u64;
use crate::fs_model::subpath_size;
use crate::fs_model::find_child;
use crate::fs_model::get_size;
use crate::language::RepoLanguage;
use crate::language::marker_language;
use crate::language::marker_language_of;
use crate::language::dep_paths_spec;

verus! {

/// One discovered project: its ecosystem, the path of its root directory,
/// and a snapshot of the total size of its dependency subpaths.
pub struct Repo {
    pub language: RepoLanguage,
    pub dir: String,
    pub deps_size: u64,
}

/// The mathematical content of a [`Repo`] record.
pub ghost struct RepoModel {
    pub language: RepoLanguage,
    pub dir: Seq<char>,
    pub deps_size: u64,
}

impl View for Repo {
    type V = RepoModel;

    open spec fn view(&self) -> RepoModel {
        RepoModel { language: self.language, dir: self.dir@, deps_size: self.deps_size }
    }
}

impl DeepView for Repo {
    type V = RepoModel;

    open spec fn deep_view(&self) -> RepoModel {
        self.view()
    }
}

/// The ecosystem of the first entry of `s` that is a file whose name is a
/// recognized manifest marker, if any.
pub open spec fn classify_entries(s: Seq<FsEntry>) -> Option<RepoLanguage>
    decreases s,
{
    if s.len() == 0 {
        None
    } else if s[0].node is File && marker_language(s[0].name@) is Some {
        marker_language(s[0].name@)
    } else {
        classify_entries(s.drop_first())
    }
}

/// Whether the directory `t` is a recognized project root, and of which
/// ecosystem: decided by its immediate entries alone.
pub open spec fn classify_spec(t: FsTree) -> Option<RepoLanguage> {
    match t {
        FsTree::Dir { entries } => classify_entries(entries@),
        FsTree::File { .. } => None,
    }
}

/// Sum of the sizes of the subpaths `ps` of `t`; missing ones count 0.
pub open spec fn subpaths_sizes_sum(t: FsTree, ps: Seq<Seq<char>>) -> nat
    decreases ps,
{
    if ps.len() == 0 {
        0
    } else {
        subpath_size(t, ps[0]) + subpaths_sizes_sum(t, ps.drop_first())
    }
}

/// The total dependency size of a project root `t` of ecosystem `l`.
pub open spec fn deps_size_spec(t: FsTree, l: RepoLanguage) -> nat {
    subpaths_sizes_sum(t, dep_paths_spec(l))
}

/// The record that a scan emits for a project root `t` of ecosystem `l` at
/// path `p`.
pub open spec fn repo_model_of(t: FsTree, p: Seq<char>, l: RepoLanguage) -> RepoModel {
    RepoModel { language: l, dir: p, deps_size: cap_u64(deps_size_spec(t, l)) }
}

proof fn lemma_subpaths_sum_take_succ(t: FsTree, ps: Seq<Seq<char>>, i: int)
    requires
        0 <= i < ps.len(),
    ensures
        subpaths_sizes_sum(t, ps.take(i + 1)) == subpaths_sizes_sum(t, ps.take(i)) + subpath_size(
            t,
            ps[i],
        ),
    decreases i,
{
    if i == 0 {
        assert(ps.take(1).drop_first() =~= ps.take(0));
    } else {
        lemma_subpaths_sum_take_succ(t, ps.drop_first(), i - 1);
        assert(ps.take(i + 1).drop_first() =~= ps.drop_first().take(i));
        assert(ps.take(i).drop_first() =~= ps.drop_first().take(i - 1));
    }
}

impl Repo {
    /// Classifies the directory snapshot `t`: the ecosystem of the first
    /// marker file among its immediate entries, if any.
    #[verifier::loop_isolation(false)]
    pub fn get_language(t: &FsTree) -> (r: Option<RepoLanguage>)
        ensures
            r == classify_spec(*t),
    {
        match t {
            FsTree::File { .. } => None,
            FsTree::Dir { entries } => {
                let ghost s = entries@;
                let mut i: usize = 0;
                proof {
                    assert(s.skip(0) =~= s);
                }
                while i < entries.len()
                    invariant
                        0 <= i <= s.len(),
                        s == entries@,
                        classify_entries(s) == classify_entries(s.skip(i as int)),
                    decreases s.len() - i,
                {
                    proof {
                        assert(s.skip(i as int).drop_first() =~= s.skip(i as int + 1));
                        assert(s.skip(i as int)[0] == s[i as int]);
                    }
                    let is_file = match &entries[i].node {
                        FsTree::File { .. } => true,
                        FsTree::Dir { .. } => false,
                    };
                    if is_file {
                        let m = marker_language_of(entries[i].name.as_str());
                        if m.is_some() {
                            return m;
                        }
                    }
                    i = i + 1;
                }
                None
            },
        }
    }

    /// Whether `t` is a recognized project root.
    pub fn is_repo(t: &FsTree) -> (r: bool)
        ensures
            r == (classify_spec(*t) is Some),
    {
        Repo::get_language(t).is_some()
    }

    /// The total size of the dependency subpaths of the project root `t` of
    /// ecosystem `language`, saturating at `u64::MAX`; subpaths that do not
    /// exist contribute 0.
    pub fn get_deps_size(t: &FsTree, language: &RepoLanguage) -> (r: u64)
        ensures
            r == cap_u64(deps_size_spec(*t, *language)),
    {
        let dps = language.get_dep_paths();
        let ghost ps = dep_paths_spec(*language);
        let mut acc: u64 = 0;
        let mut i: usize = 0;
        proof {
            assert(ps.take(0) =~= Seq::<Seq<char>>::empty());
        }
        while i < dps.len()
            invariant
                0 <= i <= ps.len(),
                dps.deep_view() == ps,
                ps.len() == dps@.len(),
                acc == cap_u64(subpaths_sizes_sum(*t, ps.take(i as int))),
            decreases ps.len() - i,
        {
            let node = match t {
                FsTree::Dir { entries } => find_child(entries, &dps[i]),
                FsTree::File { .. } => None,
            };
            let c = get_size(node);
            proof {
                assert(dps@[i as int]@ == ps[i as int]);
                assert(c == cap_u64(subpath_size(*t, ps[i as int])));
                lemma_subpaths_sum_take_succ(*t, ps, i as int);
            }
            acc = acc.saturating_add(c);
            i = i + 1;
        }
        proof {
            assert(ps.take(ps.len() as int) =~= ps);
        }
        acc
    }

    /// Builds the record for the directory snapshot `t` at path `dir`:
    /// `None` when `t` is not a recognized project root.
    pub fn new(t: &FsTree, dir: &String) -> (r: Option<Repo>)
        ensures
            match classify_spec(*t) {
                Some(l) => r matches Some(rep) && rep@ == repo_model_of(*t, dir@, l),
                None => r is None,
            },
    {
        if let Some(language) = Repo::get_language(t) {
            Some(
                Repo {
                    dir: dir.clone(),
                    deps_size: Repo::get_deps_size(t, &language),
                    language,
                },
            )
        } else {
            None
        }
    }
}

} // verus!
