use vstd::prelude::*;

verus! {

/// Filtering one more element appends it to the filtered prefix exactly
/// when the element passes the predicate.
pub proof fn lemma_filter_step<T>(s: Seq<T>, pred: spec_fn(T) -> bool, i: int)
    requires
        0 <= i < s.len(),
    ensures
        s.take(i + 1).filter(pred) == if pred(s[i]) {
            s.take(i as int).filter(pred).push(s[i])
        } else {
            s.take(i as int).filter(pred)
        },
{
    reveal(Seq::filter);
    assert(s.take(i + 1).drop_last() =~= s.take(i as int));
    assert(s.take(i + 1).last() == s[i]);
}

/// Every member of a filtered sequence stands somewhere in the original.
pub proof fn lemma_filter_member_index<T>(s: Seq<T>, pred: spec_fn(T) -> bool, i: int)
    requires
        0 <= i < s.filter(pred).len(),
    ensures
        exists|k: int| 0 <= k < s.len() && s[k] == s.filter(pred)[i],
    decreases s.len(),
{
    reveal(Seq::filter);
    if s.len() > 0 {
        let prefix = s.drop_last();
        if i < prefix.filter(pred).len() {
            lemma_filter_member_index(prefix, pred, i);
            let k = choose|k: int| 0 <= k < prefix.len() && prefix[k] == prefix.filter(pred)[i];
            assert(s[k] == s.filter(pred)[i]);
        } else {
            assert(s[s.len() - 1] == s.filter(pred)[i]);
        }
    }
}

/// A sequence of pairwise-distinct `u32` values cannot be longer than the
/// number of `u32` values there are.
pub proof fn lemma_distinct_u32_len(s: Seq<u32>)
    requires
        forall|i: int, j: int| 0 <= i < j < s.len() ==> s[i] != s[j],
    ensures
        s.len() <= 0x1_0000_0000,
{
    let t = s.map(|_i: int, x: u32| x as int);
    assert(t.no_duplicates()) by {
        assert forall|i: int, j: int| 0 <= i < t.len() && 0 <= j < t.len() && i != j implies t[i]
            != t[j] by {
            assert(t[i] == s[i] as int && t[j] == s[j] as int);
        }
    }
    t.unique_seq_to_set();
    let range = vstd::set_lib::set_int_range(0, 0x1_0000_0000);
    vstd::set_lib::lemma_int_range(0, 0x1_0000_0000);
    assert(t.to_set().subset_of(range)) by {
        assert forall|x: int| t.to_set().contains(x) implies range.contains(x) by {
            assert(t.contains(x));
            let i = choose|i: int| 0 <= i < t.len() && t[i] == x;
            assert(0 <= (s[i] as int) < 0x1_0000_0000);
        }
    }
    vstd::set_lib::lemma_len_subset(t.to_set(), range);
    assert(s.len() == t.len());
}

} // verus!
