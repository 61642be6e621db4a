//! Ordering positions by keys.
use vstd::prelude::*;

verus! {

/// Position `i` comes before position `j` when its key is smaller, or the
/// keys are equal and `i` is the smaller position.
pub open spec fn key_less(keys: Seq<i128>, i: int, j: int) -> bool {
    keys[i] < keys[j] || (keys[i] == keys[j] && i < j)
}

/// `idx` lists every position of `keys` once, in increasing order of key,
/// positions with equal keys in increasing order.
pub open spec fn is_key_order(keys: Seq<i128>, idx: Seq<int>) -> bool {
    &&& forall|i: int| #[trigger] idx.contains(i) <==> 0 <= i < keys.len()
    &&& forall|a: int, b: int|
        0 <= a < b < idx.len() ==> key_less(keys, #[trigger] idx[a], #[trigger] idx[b])
}

/// Whether `v` holds the position `x`.
pub open spec fn holds(v: Seq<usize>, x: int) -> bool {
    exists|a: int| 0 <= a < v.len() && v[a] as int == x
}

/// Positions as integers.
pub open spec fn positions(v: Seq<usize>) -> Seq<int> {
    v.map_values(|i: usize| i as int)
}

/// The positions of `keys` in increasing order of key; positions with equal
/// keys keep their order.
pub fn key_order(keys: &Vec<i128>) -> (idx: Vec<usize>)
    ensures
        idx@.len() == keys@.len(),
        is_key_order(keys@, positions(idx@)),
{
    let mut out: Vec<usize> = Vec::new();
    let mut i: usize = 0;
    while i < keys.len()
        invariant
            i <= keys.len(),
            out@.len() == i,
            forall|a: int| 0 <= a < out@.len() ==> (out@[a] as int) < i,
            forall|x: int| 0 <= x < i ==> #[trigger] holds(out@, x),
            forall|a: int, b: int|
                0 <= a < b < out@.len() ==> key_less(keys@, out@[a] as int, out@[b] as int),
        decreases keys.len() - i,
    {
        let mut p: usize = 0;
        while p < out.len() && keys[out[p]] <= keys[i]
            invariant
                i < keys.len(),
                p <= out.len(),
                forall|a: int| 0 <= a < out@.len() ==> (out@[a] as int) < i,
                forall|a: int| 0 <= a < p ==> key_less(keys@, out@[a] as int, i as int),
            decreases out.len() - p,
        {
            p += 1;
        }
        let ghost before = out@;
        out.insert(p, i);
        proof {
            before.insert_ensures(p as int, i);
            assert forall|a: int, b: int| 0 <= a < b < out@.len() implies key_less(
                keys@,
                out@[a] as int,
                out@[b] as int,
            ) by {
                if b < p {
                } else if b == p {
                    assert(key_less(keys@, before[a] as int, i as int));
                } else if a < p {
                    assert(out@[b] == before[b - 1]);
                    if a < b - 1 {
                        assert(key_less(keys@, before[a] as int, before[b - 1] as int));
                    }
                } else if a == p {
                    assert(out@[b] == before[b - 1]);
                    assert(key_less(keys@, before[p as int] as int, before[b - 1] as int) || b - 1
                        == p);
                } else {
                    assert(out@[b] == before[b - 1]);
                    assert(out@[a] == before[a - 1]);
                }
            }
            assert forall|x: int| 0 <= x < i + 1 implies #[trigger] holds(out@, x) by {
                if x == i {
                    assert(out@[p as int] as int == x);
                } else {
                    assert(holds(before, x));
                    let a = choose|a: int| 0 <= a < before.len() && before[a] as int == x;
                    if a < p {
                        assert(out@[a] as int == x);
                    } else {
                        assert(out@[a + 1] as int == x);
                    }
                }
            }
        }
        i += 1;
    }
    proof {
        let ps = positions(out@);
        assert forall|x: int| #[trigger] ps.contains(x) <==> 0 <= x < keys@.len() by {
            if 0 <= x < keys@.len() {
                assert(holds(out@, x));
                let a = choose|a: int| 0 <= a < out@.len() && out@[a] as int == x;
                assert(ps[a] == x);
            }
        }
    }
    out
}

} // verus!
