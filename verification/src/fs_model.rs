//! Snapshot model of a directory tree, and the size accumulator.

use vstd::prelude::*;

verus! {

/// One node of a directory-tree snapshot: a regular file with its apparent
/// size in bytes, or a directory with its immediate entries in listing order.
pub enum FsTree {
    File { size: u64 },
    Dir { entries: Vec<FsEntry> },
}

/// One named entry of a directory.
pub struct FsEntry {
    pub name: String,
    pub node: FsTree,
}

/// The mathematical size of a subtree: a file counts its own byte size, a
/// directory the sum of the sizes of its immediate entries.
pub open spec fn tree_size(t: FsTree) -> nat
    decreases t,
{
    match t {
        FsTree::File { size } => size as nat,
        FsTree::Dir { entries } => entry_sizes_sum(entries@),
    }
}

/// Sum of the subtree sizes of a sequence of entries.
pub open spec fn entry_sizes_sum(s: Seq<FsEntry>) -> nat
    decreases s,
{
    if s.len() == 0 {
        0
    } else {
        tree_size(s[0].node) + entry_sizes_sum(s.drop_first())
    }
}

/// The subtree of the first entry of `s` named `n`, if any.
pub open spec fn child_named(s: Seq<FsEntry>, n: Seq<char>) -> Option<FsTree>
    decreases s,
{
    if s.len() == 0 {
        None
    } else if s[0].name@ == n {
        Some(s[0].node)
    } else {
        child_named(s.drop_first(), n)
    }
}

/// The size of the immediate subpath `n` of `t`: 0 when `t` is not a
/// directory or has no entry named `n` (a missing path has size 0).
pub open spec fn subpath_size(t: FsTree, n: Seq<char>) -> nat {
    match t {
        FsTree::Dir { entries } => match child_named(entries@, n) {
            Some(c) => tree_size(c),
            None => 0,
        },
        FsTree::File { .. } => 0,
    }
}

/// A natural number clamped to the `u64` range.
pub open spec fn cap_u64(n: nat) -> u64 {
    if n <= u64::MAX {
        n as u64
    } else {
        u64::MAX
    }
}

proof fn lemma_entry_sizes_sum_take_succ(s: Seq<FsEntry>, i: int)
    requires
        0 <= i < s.len(),
    ensures
        entry_sizes_sum(s.take(i + 1)) == entry_sizes_sum(s.take(i)) + tree_size(s[i].node),
    decreases i,
{
    if i == 0 {
        assert(s.take(1).drop_first() =~= s.take(0));
    } else {
        lemma_entry_sizes_sum_take_succ(s.drop_first(), i - 1);
        assert(s.take(i + 1).drop_first() =~= s.drop_first().take(i));
        assert(s.take(i).drop_first() =~= s.drop_first().take(i - 1));
    }
}

/// Apparent size of a subtree that exists in the snapshot, saturating at
/// `u64::MAX`.
#[verifier::loop_isolation(false)]
pub fn node_size(t: &FsTree) -> (r: u64)
    ensures
        r == cap_u64(tree_size(*t)),
    decreases *t,
{
    match t {
        FsTree::File { size } => *size,
        FsTree::Dir { entries } => {
            let mut acc: u64 = 0;
            let mut i: usize = 0;
            while i < entries.len()
                invariant
                    0 <= i <= entries@.len(),
                    acc == cap_u64(entry_sizes_sum(entries@.take(i as int))),
                decreases entries@.len() - i,
            {
                proof {
                    assert(decreases_to!(*t => (*t)->Dir_entries));
                    assert((*t)->Dir_entries == *entries);
                    assert(decreases_to!(*entries => entries@[i as int]));
                    assert(decreases_to!(entries@[i as int] => entries@[i as int].node));
                }
                let c = node_size(&entries[i].node);
                proof {
                    lemma_entry_sizes_sum_take_succ(entries@, i as int);
                }
                acc = acc.saturating_add(c);
                i = i + 1;
            }
            proof {
                assert(entries@.take(entries@.len() as int) =~= entries@);
            }
            acc
        },
    }
}

/// The size of a directory is exactly the sum of the sizes of its
/// immediate entries, each taken recursively.
pub proof fn lemma_dir_size_is_sum_of_entries(t: FsTree)
    requires
        t is Dir,
    ensures
        tree_size(t) == entry_sizes_sum(t->Dir_entries@),
{
}

/// Apparent size of a possibly missing node: a missing path has size 0,
/// never an error.
pub fn get_size(node: Option<&FsTree>) -> (r: u64)
    ensures
        node is None ==> r == 0,
        node matches Some(t) ==> r == cap_u64(tree_size(*t)),
{
    match node {
        None => 0,
        Some(t) => node_size(t),
    }
}

/// Looks up the first entry of `entries` named `name`.
pub fn find_child<'a>(entries: &'a Vec<FsEntry>, name: &String) -> (r: Option<&'a FsTree>)
    ensures
        match r {
            Some(c) => child_named(entries@, name@) == Some(*c),
            None => child_named(entries@, name@) is None,
        },
{
    let mut i: usize = 0;
    proof {
        assert(entries@.skip(0) =~= entries@);
    }
    while i < entries.len()
        invariant
            0 <= i <= entries@.len(),
            child_named(entries@, name@) == child_named(entries@.skip(i as int), name@),
        decreases entries@.len() - i,
    {
        proof {
            assert(entries@.skip(i as int).drop_first() =~= entries@.skip(i as int + 1));
            assert(entries@.skip(i as int)[0] == entries@[i as int]);
        }
        if entries[i].name.eq(name) {
            return Some(&entries[i].node);
        }
        i = i + 1;
    }
    None
}

} // verus!
