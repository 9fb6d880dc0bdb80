//! Longest common literal prefix of two strings.

use vstd::prelude::*;

verus! {

/// The length of the longest common prefix of `a` and `b`: the first index at
/// which the two sequences differ, or the length of the shorter one.
pub open spec fn common_prefix_len(a: Seq<char>, b: Seq<char>) -> nat
    decreases a.len(),
{
    if a.len() == 0 || b.len() == 0 {
        0
    } else if a[0] == b[0] {
        1 + common_prefix_len(a.drop_first(), b.drop_first())
    } else {
        0
    }
}

/// `common_prefix_len` marks a common prefix: the sequences agree at every
/// position before it and, when both continue, disagree right at it.
pub proof fn lemma_common_prefix_len_props(a: Seq<char>, b: Seq<char>)
    ensures
        common_prefix_len(a, b) <= a.len(),
        common_prefix_len(a, b) <= b.len(),
        forall|k: int| 0 <= k < common_prefix_len(a, b) ==> a[k] == b[k],
        common_prefix_len(a, b) < a.len() && common_prefix_len(a, b) < b.len() ==> a[
            common_prefix_len(a, b) as int
        ] != b[common_prefix_len(a, b) as int],
    decreases a.len(),
{
    if a.len() == 0 || b.len() == 0 {
    } else if a[0] == b[0] {
        lemma_common_prefix_len_props(a.drop_first(), b.drop_first());
        let n = common_prefix_len(a, b);
        assert forall|k: int| 0 <= k < n implies a[k] == b[k] by {
            if k > 0 {
                assert(a.drop_first()[k - 1] == b.drop_first()[k - 1]);
            }
        }
        if n < a.len() && n < b.len() {
            assert(a.drop_first()[n - 1] != b.drop_first()[n - 1]);
        }
    }
}

/// `common_prefix_len` marks the longest common prefix: no longer common
/// prefix exists.
pub proof fn lemma_common_prefix_len_longest(a: Seq<char>, b: Seq<char>, n: int)
    requires
        0 <= n <= a.len(),
        n <= b.len(),
        forall|k: int| 0 <= k < n ==> a[k] == b[k],
    ensures
        n <= common_prefix_len(a, b),
    decreases n,
{
    if n > 0 {
        assert(a[0] == b[0]);
        assert forall|k: int| 0 <= k < n - 1 implies a.drop_first()[k] == b.drop_first()[k] by {
            assert(a[k + 1] == b[k + 1]);
        }
        lemma_common_prefix_len_longest(a.drop_first(), b.drop_first(), n - 1);
    }
}

/// A sequence is its own longest common prefix.
pub proof fn lemma_common_prefix_len_self(a: Seq<char>)
    ensures
        common_prefix_len(a, a) == a.len(),
{
    lemma_common_prefix_len_props(a, a);
    lemma_common_prefix_len_longest(a, a, a.len() as int);
}

/// Returns the longest common prefix of `s1` and `s2`, as a slice of `s1`.
pub fn common_prefix<'a>(s1: &'a str, s2: &str) -> (r: &'a str)
    ensures
        r@ == s1@.subrange(0, common_prefix_len(s1@, s2@) as int),
        r@ == s2@.subrange(0, common_prefix_len(s1@, s2@) as int),
        r@.len() == common_prefix_len(s1@, s2@),
{
    let len1 = s1.unicode_len();
    let len2 = s2.unicode_len();
    let n = if len1 < len2 {
        len1
    } else {
        len2
    };
    let mut i: usize = 0;
    while i < n
        invariant
            i <= n,
            n <= len1 == s1@.len(),
            n <= len2 == s2@.len(),
            n == len1 || n == len2,
            forall|k: int| 0 <= k < i ==> s1@[k] == s2@[k],
        decreases n - i,
    {
        if s1.get_char(i) != s2.get_char(i) {
            proof {
                lemma_common_prefix_len_props(s1@, s2@);
                lemma_common_prefix_len_longest(s1@, s2@, i as int);
                assert(common_prefix_len(s1@, s2@) == i);
                assert forall|k: int| 0 <= k < i implies s1@.subrange(0, i as int)[k] == s2@.subrange(
                    0,
                    i as int,
                )[k] by {}
                assert(s1@.subrange(0, i as int) =~= s2@.subrange(0, i as int));
            }
            return s1.substring_char(0, i);
        }
        i = i + 1;
    }
    proof {
        lemma_common_prefix_len_props(s1@, s2@);
        lemma_common_prefix_len_longest(s1@, s2@, n as int);
        assert(common_prefix_len(s1@, s2@) == n);
        assert(s1@.subrange(0, n as int) =~= s2@.subrange(0, n as int));
    }
    s1.substring_char(0, n)
}

} // verus!
