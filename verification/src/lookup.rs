//! Finding a value in a sequence by its last occurrence, the way a map that
//! is filled in order keeps the last value written under a key.
use vstd::prelude::*;

verus! {

/// `i` is the position of the last occurrence of `x` in `s`.
pub open spec fn is_last_index<A>(s: Seq<A>, x: A, i: int) -> bool {
    &&& 0 <= i < s.len()
    &&& s[i] == x
    &&& forall|k: int| i < k < s.len() ==> #[trigger] s[k] != x
}

/// The position of the last occurrence of `x` in `s`, or -1 where `s` does
/// not hold `x`.
pub open spec fn last_index<A>(s: Seq<A>, x: A) -> int {
    if exists|i: int| is_last_index(s, x, i) {
        choose|i: int| is_last_index(s, x, i)
    } else {
        -1
    }
}

/// The last occurrence is unique.
pub proof fn lemma_last_index_is<A>(s: Seq<A>, x: A, i: int)
    requires
        is_last_index(s, x, i),
    ensures
        last_index(s, x) == i,
{
    let j = choose|j: int| is_last_index(s, x, j);
    assert(is_last_index(s, x, j));
    if j < i {
        assert(s[i] != x);
    }
    if i < j {
        assert(s[j] != x);
    }
}

/// `last_index` is -1 or a last occurrence.
pub proof fn lemma_last_index_range<A>(s: Seq<A>, x: A)
    ensures
        -1 <= last_index(s, x) < s.len(),
        last_index(s, x) >= 0 ==> is_last_index(s, x, last_index(s, x)),
{
}

/// Where `x` occurs at `i`, its last occurrence is at `i` or later.
pub proof fn lemma_last_index_found<A>(s: Seq<A>, x: A, i: int)
    requires
        0 <= i < s.len(),
        s[i] == x,
    ensures
        i <= last_index(s, x),
        is_last_index(s, x, last_index(s, x)),
    decreases s.len() - i,
{
    if is_last_index(s, x, i) {
        lemma_last_index_is(s, x, i);
    } else {
        let k = choose|k: int| i < k < s.len() && #[trigger] s[k] == x;
        lemma_last_index_found(s, x, k);
    }
}

/// Where `x` does not occur, `last_index` is -1.
pub proof fn lemma_last_index_absent<A>(s: Seq<A>, x: A)
    requires
        forall|k: int| 0 <= k < s.len() ==> #[trigger] s[k] != x,
    ensures
        last_index(s, x) == -1,
{
}

} // verus!
