//! Path eligibility: volatile pseudo-filesystem paths are never digested.

use vstd::prelude::*;
use vstd::string::StrSliceExecFns;

verus! {

pub open spec fn sys_prefix() -> Seq<char> {
    seq!['/', 's', 'y', 's', '/']
}

pub open spec fn dev_prefix() -> Seq<char> {
    seq!['/', 'd', 'e', 'v', '/']
}

pub open spec fn run_prefix() -> Seq<char> {
    seq!['/', 'r', 'u', 'n', '/']
}

pub open spec fn proc_prefix() -> Seq<char> {
    seq!['/', 'p', 'r', 'o', 'c', '/']
}

/// A path is excluded when its literal string form starts with one of the
/// reserved prefixes; no canonicalization is applied.
pub open spec fn spec_is_excluded(p: Seq<char>) -> bool {
    sys_prefix().is_prefix_of(p) || dev_prefix().is_prefix_of(p) || run_prefix().is_prefix_of(p)
        || proc_prefix().is_prefix_of(p)
}

/// Every path not matching a reserved prefix is eligible for digesting.
pub open spec fn spec_is_eligible(p: Seq<char>) -> bool {
    !spec_is_excluded(p)
}

/// Character-exact prefix test on string slices.
fn str_has_prefix(s: &str, p: &str) -> (b: bool)
    ensures
        b == p@.is_prefix_of(s@),
{
    let sl = s.unicode_len();
    let pl = p.unicode_len();
    if pl > sl {
        return false;
    }
    let mut i: usize = 0;
    while i < pl
        invariant
            i <= pl,
            pl == p@.len(),
            pl <= sl,
            sl == s@.len(),
            forall|j: int| 0 <= j < i ==> s@[j] == p@[j],
        decreases pl - i,
    {
        if s.get_char(i) != p.get_char(i) {
            proof {
                assert(s@.subrange(0, pl as int)[i as int] == s@[i as int]);
            }
            return false;
        }
        i += 1;
    }
    proof {
        assert(p@ =~= s@.subrange(0, pl as int));
    }
    true
}

/// Pure predicate deciding whether a path may be digested: rejects exactly
/// the paths whose string form begins with `/sys/`, `/dev/`, `/run/` or
/// `/proc/`, and accepts every other path.
pub fn is_eligible(path: &str) -> (b: bool)
    ensures
        b == spec_is_eligible(path@),
{
    proof {
        reveal_strlit("/sys/");
        reveal_strlit("/dev/");
        reveal_strlit("/run/");
        reveal_strlit("/proc/");
        assert("/sys/"@ =~= sys_prefix());
        assert("/dev/"@ =~= dev_prefix());
        assert("/run/"@ =~= run_prefix());
        assert("/proc/"@ =~= proc_prefix());
    }
    let excluded = str_has_prefix(path, "/sys/") || str_has_prefix(path, "/dev/")
        || str_has_prefix(path, "/run/") || str_has_prefix(path, "/proc/");
    !excluded
}

} // verus!
