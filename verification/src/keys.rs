//! Key derivation: the deterministic ignore-list signature, the cache and
//! scan identities, and the entry filter.
//!
//! The cache key is built from an already-normalized path; resolving a path
//! to its canonical form (with the raw path as fallback) is filesystem work
//! that the caller performs. The scan key is built from the raw requested
//! path on purpose: it tags outbound events so a front end can discard stale
//! notifications, and de-duplicates in-flight requests.

use vstd::prelude::*;

use crate::strutil::{
    contains_substr, has_substring, join_comma, join_with, sort_strings, sort_strs,
};
use crate::types::{CacheKey, CacheKeyV};

verus! {

/// The signature of an ignore list: its patterns sorted and comma-joined,
/// so that two lists with the same members in any order describe the same
/// filter.
pub open spec fn sig_of(igs: Seq<Seq<char>>) -> Seq<char> {
    join_with(sort_strs(igs), ',')
}

/// The cache identity derived from a normalized path and the filters.
pub open spec fn spec_cache_key(path: Seq<char>, show_hidden: bool, igs: Seq<Seq<char>>) -> CacheKeyV {
    CacheKeyV { path, show_hidden, ignores_sig: sig_of(igs) }
}

/// `true` and `false` spelled out, as the scan key embeds them.
pub open spec fn bool_chars(b: bool) -> Seq<char> {
    if b {
        seq!['t', 'r', 'u', 'e']
    } else {
        seq!['f', 'a', 'l', 's', 'e']
    }
}

/// The scan identity: raw path, show-hidden flag and ignore signature,
/// joined with `|`.
pub open spec fn spec_scan_key(raw_path: Seq<char>, show_hidden: bool, igs: Seq<Seq<char>>) -> Seq<
    char,
> {
    raw_path + seq!['|'] + bool_chars(show_hidden) + seq!['|'] + sig_of(igs)
}

/// An entry is filtered out when it is hidden (its name starts with `.`)
/// and hidden entries were not requested, or when any ignore pattern occurs
/// in its name as a substring. Substring containment, not glob matching, is
/// the intended semantics.
pub open spec fn spec_should_skip(name: Seq<char>, show_hidden: bool, igs: Seq<Seq<char>>) -> bool {
    (!show_hidden && name.len() > 0 && name[0] == '.') || exists|i: int|
        0 <= i < igs.len() && has_substring(name, igs[i])
}

/// Signature determinism: two ignore lists with the same members, in any
/// order, produce the same signature — so requests that spell the filters
/// differently collapse to one cache slot.
pub proof fn lemma_sig_of_permutation(a: Seq<Seq<char>>, b: Seq<Seq<char>>)
    requires
        a.to_multiset() == b.to_multiset(),
    ensures
        sig_of(a) == sig_of(b),
{
    crate::strutil::lemma_sort_strs_props(a);
    crate::strutil::lemma_sort_strs_props(b);
    crate::strutil::lemma_sorted_strs_unique(sort_strs(a), sort_strs(b));
}

/// Deterministic signature of the ignore patterns (sorted, comma-joined).
pub fn ignores_sig(ignores: &Vec<String>) -> (r: String)
    ensures
        r@ == sig_of(ignores.deep_view()),
{
    let sorted = sort_strings(ignores);
    join_comma(&sorted)
}

/// Builds the cache identity for a normalized path and the given filters.
pub fn make_cache_key(path: &str, show_hidden: bool, ignores: &Vec<String>) -> (r: CacheKey)
    ensures
        r@ == spec_cache_key(path@, show_hidden, ignores.deep_view()),
{
    let r = CacheKey { path: path.to_owned(), show_hidden, ignores_sig: ignores_sig(ignores) };
    proof {
        assert(r@ =~= spec_cache_key(path@, show_hidden, ignores.deep_view()));
    }
    r
}

/// Builds the scan identity for the raw requested path and the filters.
pub fn make_scan_key(raw_path: &str, show_hidden: bool, ignores: &Vec<String>) -> (r: String)
    ensures
        r@ == spec_scan_key(raw_path@, show_hidden, ignores.deep_view()),
{
    proof {
        reveal_strlit("|");
        reveal_strlit("true");
        reveal_strlit("false");
    }
    let mut r = raw_path.to_owned();
    r.append("|");
    if show_hidden {
        r.append("true");
    } else {
        r.append("false");
    }
    r.append("|");
    let sig = ignores_sig(ignores);
    r.append(sig.as_str());
    proof {
        assert(r@ =~= spec_scan_key(raw_path@, show_hidden, ignores.deep_view()));
    }
    r
}

/// Decides whether a directory entry is excluded by the filters.
pub fn should_skip(name: &str, show_hidden: bool, ignores: &Vec<String>) -> (r: bool)
    ensures
        r == spec_should_skip(name@, show_hidden, ignores.deep_view()),
{
    if !show_hidden && name.unicode_len() > 0 {
        let c = name.get_char(0);
        if c == '.' {
            return true;
        }
    }
    let mut i: usize = 0;
    while i < ignores.len()
        invariant
            i <= ignores@.len(),
            forall|j: int| 0 <= j < i ==> !has_substring(name@, ignores.deep_view()[j]),
        decreases ignores@.len() - i,
    {
        if contains_substr(name, ignores[i].as_str()) {
            proof {
                assert(has_substring(name@, ignores.deep_view()[i as int]));
            }
            return true;
        }
        i += 1;
    }
    false
}

} // verus!
