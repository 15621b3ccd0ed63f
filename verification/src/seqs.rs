//! What a longer piece of a sequence holds.
use vstd::prelude::*;

verus! {

/// One element more of a sequence without duplicates: it is new, and besides it
/// the longer piece holds what the shorter one held.
pub proof fn lemma_take_next<A>(s: Seq<A>, i: int)
    requires
        s.no_duplicates(),
        0 <= i < s.len(),
    ensures
        !s.take(i).contains(s[i]),
        forall|x: A| #[trigger]
            s.take(i + 1).contains(x) == (s.take(i).contains(x) || x == s[i]),
{
    assert forall|x: A| #[trigger]
        s.take(i + 1).contains(x) == (s.take(i).contains(x) || x == s[i]) by {
        if s.take(i).contains(x) {
            let k = choose|k: int| 0 <= k < i && s.take(i)[k] == x;
            assert(s.take(i + 1)[k] == x);
        }
        assert(s.take(i + 1)[i] == s[i]);
    }
}

/// A sequence with one element more holds that element besides its own.
pub proof fn lemma_push_contains<A>(s: Seq<A>, next: A)
    ensures
        forall|x: A| #[trigger] s.push(next).contains(x) == (s.contains(x) || x == next),
{
    assert forall|x: A| #[trigger]
        s.push(next).contains(x) == (s.contains(x) || x == next) by {
        if s.contains(x) {
            let k = choose|k: int| 0 <= k < s.len() && s[k] == x;
            assert(s.push(next)[k] == x);
        }
        assert(s.push(next)[s.len() as int] == next);
    }
}

} // verus!
