//! Facts about sequences that the proofs of the layout lean on.

use vstd::prelude::*;

verus! {

/// Appending two sequences one after the other appends their concatenation.
pub proof fn lemma_append_twice<T>(a: Seq<T>, b: Seq<T>, c: Seq<T>)
    ensures
        a + b + c == a + (b + c),
{
    assert(a + b + c =~= a + (b + c));
}

/// A part of a part of a sequence is a part of the sequence.
pub proof fn lemma_subrange_of_subrange<T>(s: Seq<T>, a: int, b: int, c: int, d: int)
    requires
        0 <= a <= b <= s.len(),
        0 <= c <= d <= b - a,
    ensures
        s.subrange(a, b).subrange(c, d) == s.subrange(a + c, a + d),
{
    assert(s.subrange(a, b).subrange(c, d) =~= s.subrange(a + c, a + d));
}

/// Where a stretch of a sequence is two sequences one after the other,
/// each of them is a stretch of the sequence.
pub proof fn lemma_split<T>(s: Seq<T>, from: int, to: int, x: Seq<T>, y: Seq<T>)
    requires
        0 <= from <= to <= s.len(),
        s.subrange(from, to) == x + y,
    ensures
        to - from == x.len() + y.len(),
        s.subrange(from, from + x.len()) == x,
        s.subrange(from + x.len(), to) == y,
{
    let whole = s.subrange(from, to);
    assert(whole.len() == x.len() + y.len());
    assert(whole.subrange(0, x.len() as int) =~= x);
    assert(whole.subrange(x.len() as int, whole.len() as int) =~= y);
    lemma_subrange_of_subrange(s, from, to, 0, x.len() as int);
    lemma_subrange_of_subrange(s, from, to, x.len() as int, whole.len() as int);
}

} // verus!
