//! Small verified text helpers: substring search and the blank-text test
//! that gates what the watcher forwards to the store.

use vstd::prelude::*;
use vstd::string::StrSliceExecFns;

verus! {

/// `needle` occurs in `hay` starting at position `k`.
pub open spec fn match_at(hay: Seq<char>, needle: Seq<char>, k: int) -> bool {
    0 <= k && k + needle.len() <= hay.len() && hay.subrange(k, k + needle.len()) == needle
}

/// `needle` occurs somewhere in `hay` as a contiguous run of characters.
pub open spec fn has_substring(hay: Seq<char>, needle: Seq<char>) -> bool {
    exists|k: int| match_at(hay, needle, k)
}

/// Substring search by character positions.
pub fn str_contains(hay: &str, needle: &str) -> (b: bool)
    ensures
        b == has_substring(hay@, needle@),
{
    let hn = hay.unicode_len();
    let nn = needle.unicode_len();
    if nn > hn {
        return false;
    }
    let mut k: usize = 0;
    while k <= hn - nn
        invariant
            nn <= hn,
            hn == hay@.len(),
            nn == needle@.len(),
            k <= hn - nn + 1,
            forall|k2: int| 0 <= k2 < k ==> !match_at(hay@, needle@, k2),
        decreases hn - nn - k + 1,
    {
        let mut j: usize = 0;
        while j < nn && hay.get_char(k + j) == needle.get_char(j)
            invariant
                nn <= hn,
                hn == hay@.len(),
                nn == needle@.len(),
                k <= hn - nn,
                j <= nn,
                forall|t: int| 0 <= t < j ==> hay@[k + t] == needle@[t],
            decreases nn - j,
        {
            j += 1;
        }
        if j == nn {
            proof {
                assert(hay@.subrange(k as int, k + nn as int) =~= needle@);
                assert(match_at(hay@, needle@, k as int));
            }
            return true;
        }
        proof {
            assert(hay@[k + j] != needle@[j as int]);
            assert(!match_at(hay@, needle@, k as int)) by {
                if match_at(hay@, needle@, k as int) {
                    assert(hay@.subrange(k as int, k + nn as int)[j as int] == hay@[k + j]);
                }
            }
        }
        k += 1;
    }
    proof {
        assert forall|k2: int| !match_at(hay@, needle@, k2) by {
            if match_at(hay@, needle@, k2) {
                assert(k2 + nn <= hn);
            }
        }
    }
    false
}

/// Character-wise string equality.
pub fn str_eq(a: &str, b: &str) -> (r: bool)
    ensures
        r == (a@ == b@),
{
    let an = a.unicode_len();
    let bn = b.unicode_len();
    if an != bn {
        return false;
    }
    let mut i: usize = 0;
    while i < an
        invariant
            an == a@.len(),
            an == b@.len(),
            i <= an,
            forall|k: int| 0 <= k < i ==> a@[k] == b@[k],
        decreases an - i,
    {
        if a.get_char(i) != b.get_char(i) {
            return false;
        }
        i += 1;
    }
    proof {
        assert(a@ =~= b@);
    }
    true
}

/// The whitespace characters the watcher strips before judging a capture
/// empty.
pub open spec fn is_space_char(c: char) -> bool {
    c == ' ' || c == '\t' || c == '\n' || c == '\r'
}

/// Text that trims to nothing: every character is whitespace.
pub open spec fn blank_text(s: Seq<char>) -> bool {
    forall|i: int| 0 <= i < s.len() ==> is_space_char(#[trigger] s[i])
}

/// Whether `s` trims to the empty string.
pub fn is_blank(s: &str) -> (b: bool)
    ensures
        b == blank_text(s@),
{
    let n = s.unicode_len();
    let mut i: usize = 0;
    while i < n
        invariant
            n == s@.len(),
            i <= n,
            forall|k: int| 0 <= k < i ==> is_space_char(#[trigger] s@[k]),
        decreases n - i,
    {
        let c = s.get_char(i);
        if !(c == ' ' || c == '\t' || c == '\n' || c == '\r') {
            return false;
        }
        i += 1;
    }
    true
}

} // verus!
