use vstd::prelude::*;
use vstd::string::*;

verus! {

/// Whether `p` is a namespace pattern: at least two characters, the last two `:*`.
pub open spec fn is_namespace_pattern(p: Seq<char>) -> bool {
    p.len() >= 2 && p[p.len() - 2] == ':' && p[p.len() - 1] == '*'
}

/// Whether `n` begins with `prefix`.
pub open spec fn starts_with(n: Seq<char>, prefix: Seq<char>) -> bool {
    prefix.len() <= n.len() && n.subrange(0, prefix.len() as int) == prefix
}

/// The meaning of a subscription or rule pattern on a signal name:
/// `*` matches every name, `ns:*` every name that starts with `ns:`,
/// and anything else only the identical name.
pub open spec fn pattern_matches(p: Seq<char>, n: Seq<char>) -> bool {
    if p == seq!['*'] {
        true
    } else if is_namespace_pattern(p) {
        starts_with(n, p.subrange(0, p.len() - 1))
    } else {
        p == n
    }
}

/// Decides whether `pattern` matches `signal_name`.
pub fn pattern_match(pattern: &str, signal_name: &str) -> (r: bool)
    ensures
        r == pattern_matches(pattern@, signal_name@),
{
    let plen = pattern.unicode_len();
    let nlen = signal_name.unicode_len();
    if plen == 1 && pattern.get_char(0) == '*' {
        assert(pattern@ =~= seq!['*']);
        return true;
    }
    if plen >= 2 && pattern.get_char(plen - 2) == ':' && pattern.get_char(plen - 1) == '*' {
        let k = plen - 1;
        if nlen < k {
            return false;
        }
        let mut i: usize = 0;
        while i < k
            invariant
                k == pattern@.len() - 1,
                k <= signal_name@.len(),
                i <= k,
                plen == pattern@.len(),
                nlen == signal_name@.len(),
                forall|j: int| 0 <= j < i ==> pattern@[j] == signal_name@[j],
            decreases k - i,
        {
            if pattern.get_char(i) != signal_name.get_char(i) {
                assert(signal_name@.subrange(0, k as int)[i as int] != pattern@.subrange(0, k as int)[i as int]);
                return false;
            }
            i = i + 1;
        }
        assert(signal_name@.subrange(0, k as int) =~= pattern@.subrange(0, k as int));
        return true;
    }
    assert(!is_namespace_pattern(pattern@));
    assert(pattern@ != seq!['*']) by {
        if pattern@ == seq!['*'] {
            assert(pattern@[0] == '*');
        }
    }
    if plen != nlen {
        return false;
    }
    let mut i: usize = 0;
    while i < plen
        invariant
            plen == pattern@.len(),
            plen == signal_name@.len(),
            i <= plen,
            !is_namespace_pattern(pattern@),
            pattern@ != seq!['*'],
            forall|j: int| 0 <= j < i ==> pattern@[j] == signal_name@[j],
        decreases plen - i,
    {
        if pattern.get_char(i) != signal_name.get_char(i) {
            assert(pattern@[i as int] != signal_name@[i as int]);
            return false;
        }
        i = i + 1;
    }
    assert(pattern@ =~= signal_name@);
    true
}

/// Whether two strings hold the same characters.
pub fn same_chars(a: &str, b: &str) -> (r: bool)
    ensures
        r == (a@ == b@),
{
    let n = a.unicode_len();
    if n != b.unicode_len() {
        return false;
    }
    let mut i: usize = 0;
    while i < n
        invariant
            n == a@.len(),
            n == b@.len(),
            i <= n,
            forall|j: int| 0 <= j < i ==> a@[j] == b@[j],
        decreases n - i,
    {
        if a.get_char(i) != b.get_char(i) {
            assert(a@[i as int] != b@[i as int]);
            return false;
        }
        i = i + 1;
    }
    assert(a@ =~= b@);
    true
}

/// Matching is total and depends on the pattern and the name alone: it is
/// defined for every pair (and `pattern_match` has no precondition), and
/// deciding the same pair twice gives the same answer.
pub proof fn lemma_match_total_and_stable(p1: Seq<char>, n1: Seq<char>, p2: Seq<char>, n2: Seq<char>)
    requires
        p1 == p2,
        n1 == n2,
    ensures
        pattern_matches(p1, n1) == pattern_matches(p2, n2),
{
}

} // verus!
