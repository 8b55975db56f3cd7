//! Best-effort deletion of a project's dependency subpaths: per-path
//! outcomes, and the snapshot tree that a successful removal leaves behind.

use vstd::prelude::*;
use crate::fs_model::FsTree;
use crate::fs_model::FsEntry;
use crate::fs_model::cap_u64;
use crate::fs_model::child_named;
use crate::fs_model::subpath_size;
use crate::fs_model::find_child;
use crate::fs_model::get_size;
use crate::language::dep_paths_spec;
use crate::repo::Repo;
use crate::scan::join_path;

verus! {

/// The reported fate of one dependency subpath: removed, or skipped because
/// its current size was 0 (so no removal is ever attempted for it).
pub enum DeleteOutcome {
    Removed { path: String },
    SkippedEmpty { path: String },
}

/// The mathematical content of a [`DeleteOutcome`].
pub ghost enum DeleteOutcomeModel {
    Removed { path: Seq<char> },
    SkippedEmpty { path: Seq<char> },
}

impl View for DeleteOutcome {
    type V = DeleteOutcomeModel;

    open spec fn view(&self) -> DeleteOutcomeModel {
        match self {
            DeleteOutcome::Removed { path } => (DeleteOutcomeModel::Removed { path: path@ }),
            DeleteOutcome::SkippedEmpty { path } => (DeleteOutcomeModel::SkippedEmpty {
                path: path@,
            }),
        }
    }
}

impl DeepView for DeleteOutcome {
    type V = DeleteOutcomeModel;

    open spec fn deep_view(&self) -> DeleteOutcomeModel {
        self.view()
    }
}

/// The outcome owed to each subpath of `ps` under the root `t` at display
/// path `root`: removal when its current size is positive, a skip otherwise
/// (a missing subpath has size 0 and is skipped).
pub open spec fn delete_outcomes_spec(t: FsTree, root: Seq<char>, ps: Seq<Seq<char>>) -> Seq<
    DeleteOutcomeModel,
>
    decreases ps,
{
    if ps.len() == 0 {
        Seq::<DeleteOutcomeModel>::empty()
    } else {
        seq![
            if subpath_size(t, ps[0]) > 0 {
                DeleteOutcomeModel::Removed { path: join_path(root, ps[0]) }
            } else {
                DeleteOutcomeModel::SkippedEmpty { path: join_path(root, ps[0]) }
            },
        ] + delete_outcomes_spec(t, root, ps.drop_first())
    }
}

/// Whether the entry name `n` is slated for removal: it is one of the
/// subpaths `ps` and its current size under `t` is positive.
pub open spec fn should_remove(t: FsTree, ps: Seq<Seq<char>>, n: Seq<char>) -> bool {
    exists|k: int| 0 <= k < ps.len() && ps[k] == n && subpath_size(t, ps[k]) > 0
}

/// The entries that remain after the slated subpaths are removed, in their
/// original order.
pub open spec fn kept_entries(s: Seq<FsEntry>, t: FsTree, ps: Seq<Seq<char>>) -> Seq<FsEntry>
    decreases s,
{
    if s.len() == 0 {
        s
    } else if should_remove(t, ps, s[0].name@) {
        kept_entries(s.drop_first(), t, ps)
    } else {
        seq![s[0]] + kept_entries(s.drop_first(), t, ps)
    }
}

/// Whether `new_t` is the snapshot that removing the slated subpaths of
/// `ps` from `old_t` leaves behind, assuming every removal succeeds.
pub open spec fn delete_result_ok(old_t: FsTree, new_t: FsTree, ps: Seq<Seq<char>>) -> bool {
    match old_t {
        FsTree::Dir { entries } => new_t is Dir && new_t->Dir_entries@ == kept_entries(
            entries@,
            old_t,
            ps,
        ),
        FsTree::File { .. } => new_t == old_t,
    }
}

proof fn lemma_outcomes_at(t: FsTree, root: Seq<char>, ps: Seq<Seq<char>>, k: int)
    requires
        0 <= k < ps.len(),
    ensures
        delete_outcomes_spec(t, root, ps).len() == ps.len(),
        delete_outcomes_spec(t, root, ps)[k] == (if subpath_size(t, ps[k]) > 0 {
            DeleteOutcomeModel::Removed { path: join_path(root, ps[k]) }
        } else {
            DeleteOutcomeModel::SkippedEmpty { path: join_path(root, ps[k]) }
        }),
    decreases k,
{
    lemma_outcomes_len(t, root, ps);
    if k > 0 {
        lemma_outcomes_at(t, root, ps.drop_first(), k - 1);
    }
}

proof fn lemma_outcomes_len(t: FsTree, root: Seq<char>, ps: Seq<Seq<char>>)
    ensures
        delete_outcomes_spec(t, root, ps).len() == ps.len(),
    decreases ps,
{
    if ps.len() > 0 {
        lemma_outcomes_len(t, root, ps.drop_first());
    }
}

/// Each dependency subpath gets exactly one outcome, at its own position:
/// removal only when its current size is positive; a skip — so no removal
/// is ever attempted — when its size is 0 or it is missing.
pub proof fn lemma_outcome_per_subpath(t: FsTree, root: Seq<char>, ps: Seq<Seq<char>>, k: int)
    requires
        0 <= k < ps.len(),
    ensures
        delete_outcomes_spec(t, root, ps).len() == ps.len(),
        subpath_size(t, ps[k]) > 0 ==> delete_outcomes_spec(t, root, ps)[k]
            == (DeleteOutcomeModel::Removed { path: join_path(root, ps[k]) }),
        subpath_size(t, ps[k]) == 0 ==> delete_outcomes_spec(t, root, ps)[k]
            == (DeleteOutcomeModel::SkippedEmpty { path: join_path(root, ps[k]) }),
{
    lemma_outcomes_at(t, root, ps, k);
}

proof fn lemma_kept_unslated(s: Seq<FsEntry>, t: FsTree, ps: Seq<Seq<char>>, n: Seq<char>)
    requires
        !should_remove(t, ps, n),
    ensures
        child_named(kept_entries(s, t, ps), n) == child_named(s, n),
    decreases s,
{
    if s.len() > 0 {
        lemma_kept_unslated(s.drop_first(), t, ps, n);
        if !should_remove(t, ps, s[0].name@) {
            assert((seq![s[0]] + kept_entries(s.drop_first(), t, ps)).drop_first()
                =~= kept_entries(s.drop_first(), t, ps));
        }
    }
}

proof fn lemma_kept_slated(s: Seq<FsEntry>, t: FsTree, ps: Seq<Seq<char>>, n: Seq<char>)
    requires
        should_remove(t, ps, n),
    ensures
        child_named(kept_entries(s, t, ps), n) is None,
    decreases s,
{
    if s.len() > 0 {
        lemma_kept_slated(s.drop_first(), t, ps, n);
        if !should_remove(t, ps, s[0].name@) {
            assert(s[0].name@ != n);
            assert((seq![s[0]] + kept_entries(s.drop_first(), t, ps)).drop_first()
                =~= kept_entries(s.drop_first(), t, ps));
        }
    }
}

/// After the removals of a `delete_deps` plan succeed, a previously
/// non-empty dependency subpath no longer exists in the snapshot, while a
/// path outside the slated set — a sibling, or a subpath that was skipped
/// as empty — is looked up unchanged.
pub proof fn lemma_delete_result(old_t: FsTree, new_t: FsTree, ps: Seq<Seq<char>>, n: Seq<char>)
    requires
        delete_result_ok(old_t, new_t, ps),
        old_t is Dir,
    ensures
        should_remove(old_t, ps, n) ==> child_named(new_t->Dir_entries@, n) is None,
        !should_remove(old_t, ps, n) ==> child_named(new_t->Dir_entries@, n) == child_named(
            old_t->Dir_entries@,
            n,
        ),
{
    if should_remove(old_t, ps, n) {
        lemma_kept_slated(old_t->Dir_entries@, old_t, ps, n);
    } else {
        lemma_kept_unslated(old_t->Dir_entries@, old_t, ps, n);
    }
}

/// Decides whether `name` is one of the subpaths `dps` whose recorded size
/// in `sizes` is positive.
fn name_slated(name: &String, dps: &Vec<String>, sizes: &Vec<u64>, Ghost(t): Ghost<FsTree>) -> (r:
    bool)
    requires
        dps@.len() == sizes@.len(),
        forall|k: int|
            0 <= k < dps@.len() ==> sizes@[k] == cap_u64(subpath_size(t, dps@[k]@)),
    ensures
        r == should_remove(t, dps.deep_view(), name@),
{
    let mut k: usize = 0;
    while k < dps.len()
        invariant
            0 <= k <= dps@.len(),
            dps@.len() == sizes@.len(),
            forall|m: int|
                0 <= m < dps@.len() ==> sizes@[m] == cap_u64(subpath_size(t, dps@[m]@)),
            forall|m: int|
                0 <= m < k ==> !(dps@[m]@ == name@ && subpath_size(t, dps@[m]@) > 0),
        decreases dps@.len() - k,
    {
        if dps[k].eq(name) && sizes[k] > 0 {
            proof {
                assert(dps.deep_view()[k as int] == dps@[k as int]@);
                assert(subpath_size(t, dps.deep_view()[k as int]) > 0);
            }
            return true;
        }
        k = k + 1;
    }
    proof {
        assert forall|m: int| 0 <= m < dps.deep_view().len() implies !(dps.deep_view()[m] == name@
            && subpath_size(t, dps.deep_view()[m]) > 0) by {
            assert(dps.deep_view()[m] == dps@[m]@);
        }
    }
    false
}

impl Repo {
    /// Plans the removal of this record's dependency subpaths from the
    /// fresh snapshot `root` of its root directory: sizes are taken from
    /// `root`, not from the recorded scan-time size. Returns one outcome
    /// per subpath, and the snapshot that the removals, if they all
    /// succeed, leave behind; a subpath of size 0 is reported skipped and
    /// its entry is left untouched.
    pub fn delete_deps(&self, root: FsTree) -> (r: (Vec<DeleteOutcome>, FsTree))
        ensures
            r.0.deep_view() == delete_outcomes_spec(root, self.dir@, dep_paths_spec(self.language)),
            delete_result_ok(root, r.1, dep_paths_spec(self.language)),
    {
        let dps = self.language.get_dep_paths();
        let ghost ps = dep_paths_spec(self.language);
        let mut sizes: Vec<u64> = Vec::new();
        let mut outcomes: Vec<DeleteOutcome> = Vec::new();
        let mut i: usize = 0;
        while i < dps.len()
            invariant
                0 <= i <= dps@.len(),
                dps.deep_view() == ps,
                sizes@.len() == i,
                forall|k: int|
                    0 <= k < i ==> sizes@[k] == cap_u64(subpath_size(root, dps@[k]@)),
                outcomes.deep_view() == delete_outcomes_spec(root, self.dir@, ps.take(i as int)),
            decreases dps@.len() - i,
        {
            let node = match &root {
                FsTree::Dir { entries } => find_child(entries, &dps[i]),
                FsTree::File { .. } => None,
            };
            let sz = get_size(node);
            proof {
                assert(dps@[i as int]@ == ps[i as int]);
                assert(sz == cap_u64(subpath_size(root, ps[i as int])));
            }
            let mut path = self.dir.clone();
            path.append("/");
            path.append(dps[i].as_str());
            if sz > 0 {
                outcomes.push(DeleteOutcome::Removed { path });
            } else {
                outcomes.push(DeleteOutcome::SkippedEmpty { path });
            }
            sizes.push(sz);
            proof {
                lemma_outcomes_take_succ(root, self.dir@, ps, i as int);
                assert(outcomes.deep_view() =~= delete_outcomes_spec(
                    root,
                    self.dir@,
                    ps.take(i as int + 1),
                ));
            }
            i = i + 1;
        }
        proof {
            assert(ps.take(ps.len() as int) =~= ps);
        }
        let new_tree = match root {
            FsTree::File { size } => FsTree::File { size },
            FsTree::Dir { entries } => {
                let ghost t0 = FsTree::Dir { entries };
                let ghost orig = entries@;
                let mut rest = entries;
                let mut out: Vec<FsEntry> = Vec::new();
                proof {
                    assert(subpaths_sizes_agree(t0, ps, dps@, sizes@));
                }
                while rest.len() > 0
                    invariant
                        dps@.len() == sizes@.len(),
                        dps.deep_view() == ps,
                        subpaths_sizes_agree(t0, ps, dps@, sizes@),
                        kept_entries(orig, t0, ps) == out@ + kept_entries(rest@, t0, ps),
                    decreases rest@.len(),
                {
                    let ghost before = rest@;
                    let e = rest.remove(0);
                    proof {
                        assert(before.drop_first() =~= rest@);
                    }
                    if name_slated(&e.name, &dps, &sizes, Ghost(t0)) {
                        proof {
                            assert(out@ + kept_entries(rest@, t0, ps) =~= kept_entries(
                                orig,
                                t0,
                                ps,
                            ));
                        }
                    } else {
                        out.push(e);
                        proof {
                            assert(out@ + kept_entries(rest@, t0, ps) =~= (out@.drop_last() + (
                            seq![before[0]] + kept_entries(rest@, t0, ps))));
                            assert(out@ + kept_entries(rest@, t0, ps) =~= kept_entries(
                                orig,
                                t0,
                                ps,
                            ));
                        }
                    }
                }
                proof {
                    assert(out@ + kept_entries(rest@, t0, ps) =~= out@);
                }
                FsTree::Dir { entries: out }
            },
        };
        (outcomes, new_tree)
    }
}

/// Whether `sizes` records, entry for entry, the clamped sizes of the
/// subpaths `dps` under `t`.
pub open spec fn subpaths_sizes_agree(
    t: FsTree,
    ps: Seq<Seq<char>>,
    dps: Seq<String>,
    sizes: Seq<u64>,
) -> bool {
    dps.len() == sizes.len() && (forall|k: int|
        0 <= k < dps.len() ==> sizes[k] == cap_u64(subpath_size(t, dps[k]@)))
}

proof fn lemma_outcomes_take_succ(t: FsTree, root: Seq<char>, ps: Seq<Seq<char>>, i: int)
    requires
        0 <= i < ps.len(),
    ensures
        delete_outcomes_spec(t, root, ps.take(i + 1)) == delete_outcomes_spec(t, root, ps.take(i))
            + seq![
            if subpath_size(t, ps[i]) > 0 {
                DeleteOutcomeModel::Removed { path: join_path(root, ps[i]) }
            } else {
                DeleteOutcomeModel::SkippedEmpty { path: join_path(root, ps[i]) }
            },
        ],
    decreases i,
{
    if i == 0 {
        assert(ps.take(1).drop_first() =~= ps.take(0));
        assert(delete_outcomes_spec(t, root, ps.take(1)) =~= delete_outcomes_spec(
            t,
            root,
            ps.take(0),
        ) + seq![
            if subpath_size(t, ps[0]) > 0 {
                DeleteOutcomeModel::Removed { path: join_path(root, ps[0]) }
            } else {
                DeleteOutcomeModel::SkippedEmpty { path: join_path(root, ps[0]) }
            },
        ]);
    } else {
        lemma_outcomes_take_succ(t, root, ps.drop_first(), i - 1);
        assert(ps.take(i + 1).drop_first() =~= ps.drop_first().take(i));
        assert(ps.take(i).drop_first() =~= ps.drop_first().take(i - 1));
        assert(delete_outcomes_spec(t, root, ps.take(i + 1)) =~= delete_outcomes_spec(
            t,
            root,
            ps.take(i),
        ) + seq![
            if subpath_size(t, ps[i]) > 0 {
                DeleteOutcomeModel::Removed { path: join_path(root, ps[i]) }
            } else {
                DeleteOutcomeModel::SkippedEmpty { path: join_path(root, ps[i]) }
            },
        ]);
    }
}

} // verus!
