//! Ascending order of chunk indices.

use vstd::prelude::*;

verus! {

broadcast use vstd::seq_lib::group_to_multiset_ensures;

/// Whether `s` is sorted in ascending order.
pub open spec fn sorted_ascending(s: Seq<i32>) -> bool {
    forall|i: int, j: int| 0 <= i < j < s.len() ==> s[i] <= s[j]
}

/// Whether `s` is strictly ascending: sorted and free of duplicates.
pub open spec fn strictly_ascending(s: Seq<i32>) -> bool {
    forall|i: int, j: int| 0 <= i < j < s.len() ==> s[i] < s[j]
}

/// An enumeration law: a strictly ascending sequence is determined by its
/// membership alone, so any two enumerations of the same chunk set — sorted
/// ascending, without duplicates — are the same sequence.
pub proof fn lemma_strictly_ascending_unique(x: Seq<i32>, y: Seq<i32>)
    requires
        strictly_ascending(x),
        strictly_ascending(y),
        forall|c: i32| #![auto] x.contains(c) <==> y.contains(c),
    ensures
        x =~= y,
    decreases x.len(),
{
    if x.len() == 0 {
        if y.len() > 0 {
            assert(y.contains(y[0]));
            assert(x.contains(y[0]));
        }
    } else if y.len() == 0 {
        assert(x.contains(x[0]));
        assert(y.contains(x[0]));
    } else {
        assert(x.contains(x[0]));
        assert(y.contains(y[0]));
        let kx = choose|k: int| 0 <= k < y.len() && y[k] == x[0];
        let ky = choose|k: int| 0 <= k < x.len() && x[k] == y[0];
        assert(y[0] <= y[kx]);
        assert(x[0] <= x[ky]);
        assert(x[0] == y[0]);
        let xt = x.drop_first();
        let yt = y.drop_first();
        assert forall|c: i32| #![auto] xt.contains(c) implies yt.contains(c) by {
            let j = choose|j: int| 0 <= j < xt.len() && xt[j] == c;
            assert(x[j + 1] == c);
            assert(x.contains(c));
            assert(x[0] < c);
            let k = choose|k: int| 0 <= k < y.len() && y[k] == c;
            assert(k > 0);
            assert(yt[k - 1] == c);
        }
        assert forall|c: i32| #![auto] yt.contains(c) implies xt.contains(c) by {
            let j = choose|j: int| 0 <= j < yt.len() && yt[j] == c;
            assert(y[j + 1] == c);
            assert(y.contains(c));
            assert(y[0] < c);
            let k = choose|k: int| 0 <= k < x.len() && x[k] == c;
            assert(k > 0);
            assert(xt[k - 1] == c);
        }
        lemma_strictly_ascending_unique(xt, yt);
        assert(x =~= seq![x[0]] + xt);
        assert(y =~= seq![y[0]] + yt);
    }
}

/// Sorts chunk indices ascending, keeping exactly the same elements.
pub fn sort_i32(input: &Vec<i32>) -> (r: Vec<i32>)
    ensures
        sorted_ascending(r@),
        r@.to_multiset() == input@.to_multiset(),
{
    let mut out: Vec<i32> = Vec::new();
    let mut i: usize = 0;
    while i < input.len()
        invariant
            i <= input.len(),
            sorted_ascending(out@),
            out@.to_multiset() == input@.take(i as int).to_multiset(),
        decreases input.len() - i,
    {
        let x = input[i];
        let mut pos: usize = 0;
        while pos < out.len() && out[pos] <= x
            invariant
                pos <= out.len(),
                sorted_ascending(out@),
                forall|k: int| 0 <= k < pos ==> out@[k] <= x,
            decreases out.len() - pos,
        {
            pos = pos + 1;
        }
        proof {
            let ghost o = out@;
            let ghost n = o.insert(pos as int, x);
            assert forall|a: int, b: int| 0 <= a < b < n.len() implies n[a] <= n[b] by {
                assert(forall|k: int| pos <= k < o.len() ==> x <= #[trigger] o[k]);
            }
            assert(input@.take(i + 1) =~= input@.take(i as int).push(input@[i as int]));
        }
        out.insert(pos, x);
        i = i + 1;
    }
    proof {
        assert(input@.take(input@.len() as int) =~= input@);
    }
    out
}

} // verus!
