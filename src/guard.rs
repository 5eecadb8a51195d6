use vstd::prelude::*;
use vstd::string::*;

verus! {

pub open spec fn has_prefix(s: Seq<char>, p: Seq<char>) -> bool {
    p.len() <= s.len() && s.subrange(0, p.len() as int) == p
}

pub open spec fn has_suffix(s: Seq<char>, p: Seq<char>) -> bool {
    p.len() <= s.len() && s.subrange(s.len() - p.len(), s.len() as int) == p
}

/// A rule protects a path that equals it, starts with it or ends with it.
pub open spec fn protects(rule: Seq<char>, path: Seq<char>) -> bool {
    path == rule || has_prefix(path, rule) || has_suffix(path, rule)
}

/// A path is protected when some rule of the list protects it.
pub open spec fn protected_by(path: Seq<char>, rules: Seq<String>) -> bool {
    exists|k: int| 0 <= k < rules.len() && protects(rules[k]@, path)
}

fn starts_with(s: &str, p: &str) -> (r: bool)
    ensures
        r == has_prefix(s@, p@),
{
    let n = s.unicode_len();
    let m = p.unicode_len();
    if m > n {
        return false;
    }
    let mut i: usize = 0;
    while i < m
        invariant
            i <= m <= n,
            n == s@.len(),
            m == p@.len(),
            forall|k: int| 0 <= k < i ==> s@[k] == p@[k],
        decreases m - i,
    {
        if s.get_char(i) != p.get_char(i) {
            assert(s@.subrange(0, m as int)[i as int] != p@[i as int]);
            return false;
        }
        i += 1;
    }
    assert(s@.subrange(0, m as int) =~= p@);
    true
}

fn ends_with(s: &str, p: &str) -> (r: bool)
    ensures
        r == has_suffix(s@, p@),
{
    let n = s.unicode_len();
    let m = p.unicode_len();
    if m > n {
        return false;
    }
    let off = n - m;
    let mut i: usize = 0;
    while i < m
        invariant
            i <= m <= n,
            off == n - m,
            n == s@.len(),
            m == p@.len(),
            forall|k: int| 0 <= k < i ==> s@[off + k] == p@[k],
        decreases m - i,
    {
        if s.get_char(off + i) != p.get_char(i) {
            assert(s@.subrange(off as int, n as int)[i as int] != p@[i as int]);
            return false;
        }
        i += 1;
    }
    assert(s@.subrange(off as int, n as int) =~= p@);
    true
}

/// Whether some entry of `unsafe_paths` equals `candidate`, begins it or ends it.
pub fn is_protected(candidate: &str, unsafe_paths: &Vec<String>) -> (r: bool)
    ensures
        r == protected_by(candidate@, unsafe_paths@),
{
    let mut k: usize = 0;
    while k < unsafe_paths.len()
        invariant
            0 <= k <= unsafe_paths@.len(),
            forall|j: int| 0 <= j < k ==> !protects(#[trigger] unsafe_paths@[j]@, candidate@),
        decreases unsafe_paths.len() - k,
    {
        let rule = unsafe_paths[k].as_str();
        if starts_with(candidate, rule) || ends_with(candidate, rule) {
            assert(protects(unsafe_paths@[k as int]@, candidate@));
            return true;
        }
        assert(candidate@ != rule@) by {
            if candidate@ == rule@ {
                assert(candidate@.subrange(0, rule@.len() as int) =~= candidate@);
            }
        }
        k += 1;
    }
    false
}

} // verus!
