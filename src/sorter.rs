use vstd::prelude::*;
use vstd::relations::sorted_by;
use vstd::seq_lib::group_to_multiset_ensures;

use crate::color::{color_le, lemma_color_le_total, lemma_raw_injective, PColor};

verus! {

/// The color order as a relation.
pub open spec fn color_order() -> spec_fn(PColor, PColor) -> bool {
    |a: PColor, b: PColor| color_le(a, b)
}

/// The colors of `s` in ascending color order.
pub open spec fn sorted_colors(s: Seq<PColor>) -> Seq<PColor> {
    s.sort_by(color_order())
}

/// `s` with the part `[start, end]` replaced by its sorted version.
pub open spec fn sort_segment(s: Seq<PColor>, start: int, end: int) -> Seq<PColor> {
    s.subrange(0, start) + sorted_colors(s.subrange(start, end + 1)) + s.subrange(
        end + 1,
        s.len() as int,
    )
}

/// What `sorted_colors` returns is sorted and a permutation of its argument.
pub proof fn lemma_sorted_colors(s: Seq<PColor>)
    ensures
        sorted_by(sorted_colors(s), color_order()),
        sorted_colors(s).to_multiset() == s.to_multiset(),
        sorted_colors(s).len() == s.len(),
{
    broadcast use group_to_multiset_ensures;

    lemma_color_le_total();
    s.lemma_sort_by_ensures(color_order());
    vstd::seq_lib::to_multiset_len(s);
    vstd::seq_lib::to_multiset_len(sorted_colors(s));
}

/// Two sorted sequences with the same elements are equal.
pub proof fn lemma_sorted_unique(a: Seq<PColor>, b: Seq<PColor>)
    requires
        sorted_by(a, color_order()),
        sorted_by(b, color_order()),
        a.to_multiset() == b.to_multiset(),
    ensures
        a == b,
    decreases a.len(),
{
    broadcast use group_to_multiset_ensures;

    vstd::seq_lib::to_multiset_len(a);
    vstd::seq_lib::to_multiset_len(b);
    if a.len() == 0 {
        assert(b.len() == 0);
        assert(a =~= b);
    } else {
        assert(b.len() == a.len());
        assert(a.to_multiset().count(a[0]) > 0);
        assert(b.contains(a[0]));
        let k = choose|k: int| 0 <= k < b.len() && b[k] == a[0];
        if k > 0 {
            assert((color_order())(b[0], b[k]));
        }
        assert(b.to_multiset().count(b[0]) > 0);
        assert(a.contains(b[0]));
        let m = choose|m: int| 0 <= m < a.len() && a[m] == b[0];
        if m > 0 {
            assert((color_order())(a[0], a[m]));
        }
        lemma_raw_injective(a[0], b[0]);
        let a1 = a.remove(0);
        let b1 = b.remove(0);
        assert(a1.to_multiset() == b1.to_multiset());
        assert(sorted_by(a1, color_order())) by {
            assert forall|i: int, j: int| 0 <= i < j < a1.len() implies #[trigger] (color_order())(
                a1[i],
                a1[j],
            ) by {
                assert(a1[i] == a[i + 1] && a1[j] == a[j + 1]);
            }
        }
        assert(sorted_by(b1, color_order())) by {
            assert forall|i: int, j: int| 0 <= i < j < b1.len() implies #[trigger] (color_order())(
                b1[i],
                b1[j],
            ) by {
                assert(b1[i] == b[i + 1] && b1[j] == b[j + 1]);
            }
        }
        lemma_sorted_unique(a1, b1);
        assert(a =~= b) by {
            assert forall|i: int| 0 <= i < a.len() implies a[i] == b[i] by {
                if i > 0 {
                    assert(a[i] == a1[i - 1] && b[i] == b1[i - 1]);
                }
            }
        }
    }
}

/// A sequence that is already sorted is its own sorted version.
pub proof fn lemma_sorted_fixed(s: Seq<PColor>)
    requires
        sorted_by(s, color_order()),
    ensures
        sorted_colors(s) == s,
{
    lemma_sorted_colors(s);
    lemma_sorted_unique(sorted_colors(s), s);
}

/// Exchanging two entries keeps the elements of a sequence.
proof fn lemma_swap_multiset(s: Seq<PColor>, i: int, j: int)
    requires
        0 <= i < s.len(),
        0 <= j < s.len(),
    ensures
        s.update(i, s[j]).update(j, s[i]).to_multiset() == s.to_multiset(),
{
    broadcast use group_to_multiset_ensures;
    broadcast use vstd::seq_lib::to_multiset_update;
    broadcast use vstd::multiset::group_multiset_axioms;

    let t = s.update(i, s[j]);
    assert(t.to_multiset() == s.to_multiset().insert(s[j]).remove(s[i]));
    assert(t.update(j, s[i]).to_multiset() == t.to_multiset().insert(s[i]).remove(t[j]));
    if i == j {
        assert(t.update(j, s[i]) =~= s);
    } else {
        assert(t[j] == s[j]);
        assert(t.update(j, s[i]).to_multiset() =~= s.to_multiset());
    }
}

/// Sorts `v` in ascending color order.
pub fn sort_colors(v: &mut Vec<PColor>)
    ensures
        final(v)@ == sorted_colors(old(v)@),
{
    let n = v.len();
    let mut i: usize = 1;
    while i < n
        invariant
            v.len() == n,
            1 <= i || n == 0,
            i <= n || n == 0,
            v@.to_multiset() == old(v)@.to_multiset(),
            forall|a: int, b: int| 0 <= a < b < i && b < n ==> color_le(v@[a], v@[b]),
        decreases n - i,
    {
        let mut j: usize = i;
        while j > 0 && v[j - 1].as_raw() > v[j].as_raw()
            invariant
                v.len() == n,
                1 <= i < n,
                j <= i,
                v@.to_multiset() == old(v)@.to_multiset(),
                forall|a: int, b: int|
                    0 <= a < b <= i && a != j && b != j ==> color_le(v@[a], v@[b]),
                forall|b: int| j < b <= i ==> color_le(v@[j as int], v@[b]),
            decreases j,
        {
            let prev = v[j - 1];
            let cur = v[j];
            proof {
                lemma_swap_multiset(v@, j - 1, j as int);
            }
            v.set(j - 1, cur);
            v.set(j, prev);
            j = j - 1;
        }
        proof {
            assert forall|a: int, b: int| 0 <= a < b <= i implies color_le(v@[a], v@[b]) by {
                if b == j && a < j {
                    assert(color_le(v@[a], v@[j - 1]) || a == j - 1);
                }
            }
        }
        i = i + 1;
    }
    proof {
        let s = v@;
        assert(sorted_by(s, color_order())) by {
            assert forall|a: int, b: int| 0 <= a < b < s.len() implies #[trigger] (color_order())(
                s[a],
                s[b],
            ) by {
                assert(color_le(s[a], s[b]));
            }
        }
        lemma_sorted_colors(old(v)@);
        lemma_sorted_unique(s, sorted_colors(old(v)@));
    }
}

} // verus!
