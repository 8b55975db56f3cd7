//! Ordering, filtering and totalling of scan results, and path shortening
//! for display.

use vstd::prelude::*;
use crate::fs_model::cap_u64;
use crate::language::RepoLanguage;
use crate::repo::Repo;

verus! {

/// Whether the records are in weakly descending order of dependency size.
pub open spec fn sorted_by_size_desc(s: Seq<Repo>) -> bool {
    forall|a: int, b: int| 0 <= a < b < s.len() ==> s[a].deps_size >= s[b].deps_size
}

/// Weakly descending except that position `j` may be out of place.
spec fn sorted_up_to_except(s: Seq<Repo>, hi: int, j: int) -> bool {
    forall|a: int, b: int| 0 <= a < b <= hi && b != j ==> s[a].deps_size >= s[b].deps_size
}

/// Reorders the records into weakly descending order of dependency size.
/// The collection of records is unchanged.
#[verifier::loop_isolation(false)]
pub fn sort_repos_by_size(repos: &mut Vec<Repo>)
    ensures
        final (repos)@.to_multiset() == old(repos)@.to_multiset(),
        sorted_by_size_desc(final (repos)@),
{
    broadcast use vstd::seq_lib::group_to_multiset_ensures;

    let ghost orig_ms = repos@.to_multiset();
    let mut i: usize = 1;
    while i < repos.len()
        invariant
            1 <= i,
            repos@.len() == old(repos)@.len(),
            repos@.to_multiset() == orig_ms,
            sorted_up_to_except(repos@, i as int - 1, i as int),
        decreases repos@.len() - i,
    {
        let mut j: usize = i;
        while j > 0 && repos[j - 1].deps_size < repos[j].deps_size
            invariant
                0 <= j <= i < repos@.len(),
                repos@.len() == old(repos)@.len(),
                repos@.to_multiset() == orig_ms,
                sorted_up_to_except(repos@, i as int, j as int),
            decreases j,
        {
            let ghost before = repos@;
            let x = repos.remove(j);
            repos.insert(j - 1, x);
            proof {
                assert(repos@ =~= before.update(j - 1, before[j as int]).update(
                    j as int,
                    before[j - 1],
                ));
                assert(repos@.to_multiset() =~= before.to_multiset());
            }
            j = j - 1;
        }
        i = i + 1;
    }
}

/// The subsequence of records of ecosystem `l`, in their given order.
pub open spec fn keep_language(s: Seq<Repo>, l: RepoLanguage) -> Seq<Repo>
    decreases s,
{
    if s.len() == 0 {
        s
    } else if s[0].language == l {
        seq![s[0]] + keep_language(s.drop_first(), l)
    } else {
        keep_language(s.drop_first(), l)
    }
}

/// Restricts the records to one ecosystem, keeping their order.
pub fn filter_by_language(repos: Vec<Repo>, language: &RepoLanguage) -> (r: Vec<Repo>)
    ensures
        r@ == keep_language(repos@, *language),
{
    let ghost orig = repos@;
    let mut rest = repos;
    let mut out: Vec<Repo> = Vec::new();
    while rest.len() > 0
        invariant
            keep_language(orig, *language) == out@ + keep_language(rest@, *language),
        decreases rest@.len(),
    {
        let ghost before = rest@;
        let x = rest.remove(0);
        proof {
            assert(before.drop_first() =~= rest@);
        }
        if x.language == *language {
            out.push(x);
            proof {
                assert(out@ + keep_language(rest@, *language) =~= (out@.drop_last() + (seq![
                    before[0],
                ] + keep_language(rest@, *language))));
            }
        }
        proof {
            assert(out@ + keep_language(rest@, *language) =~= keep_language(orig, *language));
        }
    }
    proof {
        assert(out@ + keep_language(rest@, *language) =~= out@);
    }
    out
}

/// Sum of the recorded dependency sizes of the records.
pub open spec fn repos_size_sum(s: Seq<Repo>) -> nat
    decreases s,
{
    if s.len() == 0 {
        0
    } else {
        s[0].deps_size as nat + repos_size_sum(s.drop_first())
    }
}

proof fn lemma_repos_size_sum_take_succ(s: Seq<Repo>, i: int)
    requires
        0 <= i < s.len(),
    ensures
        repos_size_sum(s.take(i + 1)) == repos_size_sum(s.take(i)) + s[i].deps_size,
    decreases i,
{
    if i == 0 {
        assert(s.take(1).drop_first() =~= s.take(0));
    } else {
        lemma_repos_size_sum_take_succ(s.drop_first(), i - 1);
        assert(s.take(i + 1).drop_first() =~= s.drop_first().take(i));
        assert(s.take(i).drop_first() =~= s.drop_first().take(i - 1));
    }
}

/// The total of the recorded dependency sizes, saturating at `u64::MAX`.
/// Overlapping nested projects may count shared bytes once per record.
pub fn total_size(repos: &Vec<Repo>) -> (r: u64)
    ensures
        r == cap_u64(repos_size_sum(repos@)),
{
    let mut acc: u64 = 0;
    let mut i: usize = 0;
    proof {
        assert(repos@.take(0) =~= Seq::<Repo>::empty());
    }
    while i < repos.len()
        invariant
            0 <= i <= repos@.len(),
            acc == cap_u64(repos_size_sum(repos@.take(i as int))),
        decreases repos@.len() - i,
    {
        proof {
            lemma_repos_size_sum_take_succ(repos@, i as int);
        }
        acc = acc.saturating_add(repos[i].deps_size);
        i = i + 1;
    }
    proof {
        assert(repos@.take(repos@.len() as int) =~= repos@);
    }
    acc
}

/// Shortens a path to at most `max_length` characters for display: a path
/// that fits is returned whole, a longer one keeps its beginning and end
/// around a `[...]` mark.
pub fn truncate_path_for_display(path: &str, max_length: usize) -> (r: String)
    requires
        max_length >= 10,
    ensures
        path@.len() <= max_length ==> r@ == path@,
        path@.len() > max_length ==> r@ == path@.subrange(0, max_length as int / 2 - 5) + "[...]"@
            + path@.subrange(path@.len() - max_length as int / 2, path@.len() as int),
{
    let len = path.unicode_len();
    if len <= max_length {
        String::from_str(path)
    } else {
        let head = path.substring_char(0, max_length / 2 - 5);
        let mut r = String::from_str(head);
        r.append("[...]");
        r.append(path.substring_char(len - max_length / 2, len));
        r
    }
}

} // verus!
