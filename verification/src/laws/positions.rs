//! Positions that are picked out of a list.

use vstd::prelude::*;

verus! {

/// Whether the positions are ones of a list of `n` members, in order and each once.
pub open spec fn ascending(positions: Seq<int>, n: int) -> bool {
    &&& forall|k: int| 0 <= k < positions.len() ==> 0 <= #[trigger] positions[k] < n
    &&& forall|k: int, l: int|
        0 <= k < l < positions.len() ==> #[trigger] positions[k] < #[trigger] positions[l]
}

/// Behind positions of a list the position of a new last member can stand.
pub proof fn lemma_ascending_push(positions: Seq<int>, n: int)
    requires
        0 <= n,
        ascending(positions, n),
    ensures
        ascending(positions, n + 1),
        ascending(positions.push(n), n + 1),
        positions.push(n).contains(n),
        forall|i: int| positions.contains(i) ==> positions.push(n).contains(i),
        forall|i: int| positions.push(n).contains(i) ==> i == n || positions.contains(i),
{
    let more = positions.push(n);
    assert(more[positions.len() as int] == n);
    assert forall|i: int| positions.contains(i) implies more.contains(i) by {
        let k = choose|k: int| 0 <= k < positions.len() && positions[k] == i;
        assert(more[k] == i);
    }
    assert forall|i: int| more.contains(i) implies i == n || positions.contains(i) by {
        let k = choose|k: int| 0 <= k < more.len() && more[k] == i;
        if k < positions.len() {
            assert(positions[k] == i);
        }
    }
}

}
