//! Project-ecosystem classification by manifest marker file names, and the
//! table of removable dependency subpaths for each ecosystem.

use vstd::prelude::*;

verus! {

/// A recognized project ecosystem.
#[derive(Clone, Copy, Debug, PartialEq, Eq, Structural)]
pub enum RepoLanguage {
    Dotnet,
    Rust,
    Javascript,
}

/// Whether two characters are equal up to ASCII case.
pub open spec fn chars_eq_ignore_ascii_case(a: char, b: char) -> bool {
    a == b || ('A' as int <= a as int && a as int <= 'Z' as int && b as int == a as int + 32) || (
    'A' as int <= b as int && b as int <= 'Z' as int && a as int == b as int + 32)
}

/// Whether two character sequences are equal up to ASCII case.
pub open spec fn seq_eq_ignore_ascii_case(a: Seq<char>, b: Seq<char>) -> bool {
    a.len() == b.len() && forall|i: int|
        0 <= i < a.len() ==> chars_eq_ignore_ascii_case(a[i], b[i])
}

/// Compares two strings for equality ignoring ASCII case.
pub fn str_eq_ignore_ascii_case(a: &str, b: &str) -> (r: bool)
    ensures
        r == seq_eq_ignore_ascii_case(a@, b@),
{
    let a_len = a.unicode_len();
    let b_len = b.unicode_len();
    if a_len != b_len {
        return false;
    }
    let mut i: usize = 0;
    while i < a_len
        invariant
            a_len == a@.len(),
            b_len == b@.len(),
            a_len == b_len,
            0 <= i <= a_len,
            forall|j: int| 0 <= j < i ==> chars_eq_ignore_ascii_case(a@[j], b@[j]),
        decreases a_len - i,
    {
        let ca = a.get_char(i);
        let cb = b.get_char(i);
        let x = ca as u32;
        let y = cb as u32;
        let eq_ic = x == y || (65 <= x && x <= 90 && y == x + 32) || (65 <= y && y <= 90 && x == y
            + 32);
        if !eq_ic {
            return false;
        }
        i = i + 1;
    }
    true
}

/// Whether `name` splits at position `i` into a stem and a final-dot
/// extension: `i` is the last dot of `name` and is not its first character.
pub open spec fn ext_split_at(name: Seq<char>, i: int) -> bool {
    0 < i < name.len() && name[i] == '.' && forall|j: int| i < j < name.len() ==> name[j] != '.'
}

/// Whether the extension of `name` (the part after its last dot, absent when
/// there is no dot or only a leading one) equals `ext`.
pub open spec fn name_has_ext(name: Seq<char>, ext: Seq<char>) -> bool {
    exists|i: int| ext_split_at(name, i) && name.subrange(i + 1, name.len() as int) == ext
}

/// Decides whether the file name `name` has extension `ext` (the part after
/// the last dot, as `Path::extension` reports it).
pub fn has_extension(name: &str, ext: &str) -> (r: bool)
    ensures
        r == name_has_ext(name@, ext@),
{
    let n_len = name.unicode_len();
    let e_len = ext.unicode_len();
    let mut k: usize = n_len;
    // scan backwards for the last dot
    while k > 0
        invariant
            n_len == name@.len(),
            0 <= k <= n_len,
            forall|j: int| k <= j < n_len ==> name@[j] != '.',
        ensures
            0 <= k <= n_len,
            k > 0 ==> name@[k - 1] == '.',
            forall|j: int| k <= j < n_len ==> name@[j] != '.',
        decreases k,
    {
        if name.get_char(k - 1) == '.' {
            break ;
        }
        k = k - 1;
    }
    if k <= 1 {
        // no dot at all, or only a leading one
        assert(forall|i: int| !ext_split_at(name@, i));
        return false;
    }
    let dot: usize = k - 1;
    assert(ext_split_at(name@, dot as int));
    assert(forall|i: int|
        ext_split_at(name@, i) ==> i == dot as int) by {
        assert forall|i: int| ext_split_at(name@, i) implies i == dot as int by {
            if i < dot as int {
                assert(name@[dot as int] == '.');
            } else if i > dot as int {
                assert(name@[i] != '.');
            }
        }
    }
    if n_len - dot - 1 != e_len {
        assert(name@.subrange(dot as int + 1, name@.len() as int).len() != ext@.len());
        return false;
    }
    let mut i: usize = 0;
    while i < e_len
        invariant
            n_len == name@.len(),
            e_len == ext@.len(),
            0 < dot < n_len,
            n_len - dot - 1 == e_len,
            0 <= i <= e_len,
            forall|j: int| 0 <= j < i ==> name@[dot + 1 + j] == ext@[j],
        decreases e_len - i,
    {
        if name.get_char(dot + 1 + i) != ext.get_char(i) {
            assert(name@.subrange(dot as int + 1, name@.len() as int)[i as int] != ext@[i as int]);
            return false;
        }
        i = i + 1;
    }
    assert(name@.subrange(dot as int + 1, name@.len() as int) =~= ext@);
    true
}

/// The ecosystem that a single marker file name designates, if any, in the
/// priority order the classifier uses.
pub open spec fn marker_language(name: Seq<char>) -> Option<RepoLanguage> {
    if seq_eq_ignore_ascii_case(name, "Cargo.toml"@) {
        Some(RepoLanguage::Rust)
    } else if name_has_ext(name, "sln"@) {
        Some(RepoLanguage::Dotnet)
    } else if name_has_ext(name, "csproj"@) {
        Some(RepoLanguage::Dotnet)
    } else if seq_eq_ignore_ascii_case(name, "package.json"@) {
        Some(RepoLanguage::Javascript)
    } else {
        None
    }
}

/// Classifies one file name against the marker table.
pub fn marker_language_of(name: &str) -> (r: Option<RepoLanguage>)
    ensures
        r == marker_language(name@),
{
    if str_eq_ignore_ascii_case(name, "Cargo.toml") {
        Some(RepoLanguage::Rust)
    } else if has_extension(name, "sln") {
        Some(RepoLanguage::Dotnet)
    } else if has_extension(name, "csproj") {
        Some(RepoLanguage::Dotnet)
    } else if str_eq_ignore_ascii_case(name, "package.json") {
        Some(RepoLanguage::Javascript)
    } else {
        None
    }
}

/// The removable dependency subpaths of each ecosystem, in reporting order.
pub open spec fn dep_paths_spec(l: RepoLanguage) -> Seq<Seq<char>> {
    match l {
        RepoLanguage::Dotnet => seq!["bin"@, "obj"@],
        RepoLanguage::Javascript => seq!["node_modules"@],
        RepoLanguage::Rust => seq!["target"@],
    }
}

impl RepoLanguage {
    /// The relative subpaths under a project root of this ecosystem that hold
    /// removable dependency/build artifacts.
    pub fn get_dep_paths(&self) -> (r: Vec<String>)
        ensures
            r.deep_view() == dep_paths_spec(*self),
    {
        let mut r: Vec<String> = Vec::new();
        match self {
            RepoLanguage::Dotnet => {
                r.push(String::from_str("bin"));
                r.push(String::from_str("obj"));
            },
            RepoLanguage::Javascript => {
                r.push(String::from_str("node_modules"));
            },
            RepoLanguage::Rust => {
                r.push(String::from_str("target"));
            },
        }
        proof {
            assert(r.deep_view() =~= dep_paths_spec(*self));
        }
        r
    }
}

} // verus!
