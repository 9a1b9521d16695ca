use vstd::prelude::*;

verus! {

/// Filtering one more element extends the filtered prefix by at most that
/// element.
pub proof fn lemma_filter_take_step<A>(s: Seq<A>, pred: spec_fn(A) -> bool, k: int)
    requires
        0 <= k < s.len(),
    ensures
        s.take(k + 1).filter(pred) == if pred(s[k]) {
            s.take(k).filter(pred).push(s[k])
        } else {
            s.take(k).filter(pred)
        },
{
    reveal(Seq::filter);
    assert(s.take(k + 1).drop_last() =~= s.take(k));
    assert(s.take(k + 1).last() == s[k]);
}

/// Filtering a sequence extended by one element keeps the filtered prefix
/// and appends the element exactly when it matches.
pub proof fn lemma_filter_push<A>(s: Seq<A>, pred: spec_fn(A) -> bool, x: A)
    ensures
        s.push(x).filter(pred) == if pred(x) {
            s.filter(pred).push(x)
        } else {
            s.filter(pred)
        },
{
    reveal(Seq::filter);
    assert(s.push(x).drop_last() =~= s);
    assert(s.push(x).last() == x);
}

/// A filter nothing matches keeps nothing.
pub proof fn lemma_filter_all_false<A>(s: Seq<A>, pred: spec_fn(A) -> bool)
    requires
        forall|i: int| 0 <= i < s.len() ==> !pred(#[trigger] s[i]),
    ensures
        s.filter(pred) == Seq::<A>::empty(),
    decreases s.len(),
{
    reveal(Seq::filter);
    if s.len() != 0 {
        assert forall|i: int| 0 <= i < s.len() - 1 implies !pred(#[trigger] s.drop_last()[i]) by {
            assert(s.drop_last()[i] == s[i]);
        }
        lemma_filter_all_false(s.drop_last(), pred);
        assert(!pred(s[s.len() - 1]));
    }
}

/// When at most one element can match, the filter keeps at most one.
pub proof fn lemma_filter_len_le_one<A>(s: Seq<A>, pred: spec_fn(A) -> bool)
    requires
        forall|i: int, j: int|
            #![trigger s[i], s[j]]
            0 <= i < j < s.len() ==> !(pred(s[i]) && pred(s[j])),
    ensures
        s.filter(pred).len() <= 1,
{
    broadcast use vstd::seq_lib::group_filter_ensures;

    lemma_filter_subsequence(s, pred);
    let fs = s.filter(pred);
    if fs.len() >= 2 {
        assert(pred(fs[0]) && pred(fs[1]));
        let (i, j) = choose|i: int, j: int|
            0 <= i < j < s.len() && #[trigger] fs[0] == s[i] && #[trigger] fs[1] == s[j];
    }
}

/// A filtered sequence is a subsequence: its elements occur in the original
/// sequence, in the same relative order.
pub proof fn lemma_filter_subsequence<A>(s: Seq<A>, pred: spec_fn(A) -> bool)
    ensures
        forall|k: int|
            0 <= k < s.filter(pred).len() ==> exists|i: int|
                0 <= i < s.len() && #[trigger] s.filter(pred)[k] == s[i],
        forall|k: int, l: int|
            #![trigger s.filter(pred)[k], s.filter(pred)[l]]
            0 <= k < l < s.filter(pred).len() ==> exists|i: int, j: int|
                0 <= i < j < s.len() && s.filter(pred)[k] == s[i] && s.filter(pred)[l] == s[j],
    decreases s.len(),
{
    broadcast use vstd::seq_lib::group_filter_ensures;

    reveal(Seq::filter);
    let fs = s.filter(pred);
    if s.len() == 0 {
    } else {
        let t = s.drop_last();
        let ft = t.filter(pred);
        lemma_filter_subsequence(t, pred);
        assert forall|k: int| 0 <= k < fs.len() implies exists|i: int|
            0 <= i < s.len() && #[trigger] fs[k] == s[i] by {
            if pred(s.last()) && k == fs.len() - 1 {
                assert(fs[k] == s[s.len() - 1]);
            } else {
                assert(fs[k] == ft[k]);
                let i = choose|i: int| 0 <= i < t.len() && #[trigger] ft[k] == t[i];
                assert(fs[k] == s[i]);
            }
        }
        assert forall|k: int, l: int|
            #![trigger fs[k], fs[l]]
            0 <= k < l < fs.len() implies exists|i: int, j: int|
            0 <= i < j < s.len() && fs[k] == s[i] && fs[l] == s[j] by {
            if pred(s.last()) && l == fs.len() - 1 {
                assert(fs[k] == ft[k]);
                let i = choose|i: int| 0 <= i < t.len() && #[trigger] ft[k] == t[i];
                assert(fs[k] == s[i] && fs[l] == s[s.len() - 1]);
            } else {
                assert(fs[k] == ft[k] && fs[l] == ft[l]);
                let (i, j) = choose|i: int, j: int|
                    0 <= i < j < t.len() && #[trigger] ft[k] == t[i] && #[trigger] ft[l] == t[j];
                assert(fs[k] == s[i] && fs[l] == s[j]);
            }
        }
    }
}

} // verus!
