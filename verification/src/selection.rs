use vstd::prelude::*;

verus! {

/// `result` lists `image(k)` for exactly the indices `k` in `0..n` that
/// satisfy `chosen`, in increasing order of `k`; `idx` names those indices.
pub open spec fn selects_in_order<B>(
    result: Seq<B>,
    n: int,
    chosen: spec_fn(int) -> bool,
    image: spec_fn(int) -> B,
    idx: Seq<int>,
) -> bool {
    &&& idx.len() == result.len()
    &&& forall|j: int|
        0 <= j < idx.len() ==> 0 <= #[trigger] idx[j] < n && chosen(idx[j]) && result[j] == image(idx[j])
    &&& forall|j1: int, j2: int| 0 <= j1 < j2 < idx.len() ==> idx[j1] < idx[j2]
    &&& forall|k: int| 0 <= k < n && #[trigger] chosen(k) ==> exists|j: int| 0 <= j < idx.len() && idx[j] == k
}

/// Nothing is selected from no indices.
pub proof fn lemma_selects_nothing<B>(chosen: spec_fn(int) -> bool, image: spec_fn(int) -> B)
    ensures
        selects_in_order(Seq::<B>::empty(), 0, chosen, image, Seq::<int>::empty()),
{
}

/// Looking at one more index: a chosen one adds its image at the end, any
/// other leaves the selection as it was.
pub proof fn lemma_select_next<B>(
    result: Seq<B>,
    n: int,
    chosen: spec_fn(int) -> bool,
    image: spec_fn(int) -> B,
    idx: Seq<int>,
)
    requires
        0 <= n,
        selects_in_order(result, n, chosen, image, idx),
    ensures
        chosen(n) ==> selects_in_order(result.push(image(n)), n + 1, chosen, image, idx.push(n)),
        !chosen(n) ==> selects_in_order(result, n + 1, chosen, image, idx),
{
    if chosen(n) {
        let r2 = result.push(image(n));
        let i2 = idx.push(n);
        assert forall|j: int| 0 <= j < i2.len() implies 0 <= #[trigger] i2[j] < n + 1 && chosen(i2[j])
            && r2[j] == image(i2[j]) by {
            if j < idx.len() {
                assert(i2[j] == idx[j]);
                assert(r2[j] == result[j]);
            }
        }
        assert forall|j1: int, j2: int| 0 <= j1 < j2 < i2.len() implies i2[j1] < i2[j2] by {
            assert(i2[j1] == idx[j1]);
            assert(0 <= idx[j1] < n);
            if j2 < idx.len() {
                assert(i2[j2] == idx[j2]);
            }
        }
        assert forall|k: int| 0 <= k < n + 1 && #[trigger] chosen(k) implies exists|j: int|
            0 <= j < i2.len() && i2[j] == k by {
            if k == n {
                assert(i2[idx.len() as int] == n);
            } else {
                let j = choose|j: int| 0 <= j < idx.len() && idx[j] == k;
                assert(i2[j] == k);
            }
        }
    } else {
        assert forall|k: int| 0 <= k < n + 1 && #[trigger] chosen(k) implies exists|j: int|
            0 <= j < idx.len() && idx[j] == k by {
            assert(k != n);
        }
    }
}

} // verus!
