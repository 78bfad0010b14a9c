use vstd::prelude::*;

use crate::sort::SortDir;

verus! {

/// Whether a row whose metric ranks as `a` goes strictly after a row whose
/// metric ranks as `b`: present metrics come before missing ones, and
/// present metrics follow the direction.
pub open spec fn goes_after(a: Option<u64>, b: Option<u64>, dir: SortDir) -> bool {
    match (a, b) {
        (Some(x), Some(y)) => match dir {
            SortDir::Desc => x < y,
            SortDir::Asc => x > y,
        },
        (Some(_), None) => false,
        (None, Some(_)) => true,
        (None, None) => false,
    }
}

/// `p` lists each position of `0..n` exactly once.
pub open spec fn is_perm(p: Seq<int>, n: int) -> bool {
    &&& p.len() == n
    &&& forall|i: int| 0 <= i < n ==> 0 <= #[trigger] p[i] < n
    &&& forall|i: int, j: int| 0 <= i < j < n ==> #[trigger] p[i] != #[trigger] p[j]
}

/// `p` lists the positions of `keys` in the order a stable sort puts them:
/// no row goes after a later one, and rows that tie keep their order.
pub open spec fn is_stable_order(p: Seq<int>, keys: Seq<Option<u64>>, dir: SortDir) -> bool {
    &&& is_perm(p, keys.len() as int)
    &&& forall|i: int, j: int|
        0 <= i < j < p.len() ==> !goes_after(#[trigger] keys[p[i]], #[trigger] keys[p[j]], dir)
    &&& forall|i: int, j: int|
        0 <= i < j < p.len() && !goes_after(keys[p[j]], keys[p[i]], dir) ==> #[trigger] p[i]
            < #[trigger] p[j]
}

/// The sequence `s` taken in the order `p`.
pub open spec fn reorder<T>(s: Seq<T>, p: Seq<int>) -> Seq<T> {
    Seq::new(p.len(), |i: int| s[p[i]])
}

/// `out` is `inp` sorted stably by the ranks that `key` gives its rows.
pub open spec fn stably_sorted<T>(
    out: Seq<T>,
    inp: Seq<T>,
    key: spec_fn(T) -> Option<u64>,
    dir: SortDir,
) -> bool {
    exists|p: Seq<int>| is_stable_order(p, inp.map_values(key), dir) && out == reorder(inp, p)
}

pub proof fn lemma_after_total_preorder(a: Option<u64>, b: Option<u64>, c: Option<u64>, dir: SortDir)
    ensures
        !goes_after(a, b, dir) && !goes_after(b, c, dir) ==> !goes_after(a, c, dir),
        goes_after(a, b, dir) ==> !goes_after(b, a, dir),
        !goes_after(a, a, dir),
{
}

/// Does the row ranked `a` go strictly after the row ranked `b`?
pub fn ranks_after(a: Option<u64>, b: Option<u64>, dir: SortDir) -> (r: bool)
    ensures
        r == goes_after(a, b, dir),
{
    match (a, b) {
        (Some(x), Some(y)) => match dir {
            SortDir::Desc => x < y,
            SortDir::Asc => x > y,
        },
        (Some(_), None) => false,
        (None, Some(_)) => true,
        (None, None) => false,
    }
}

/// Sorts `rows` stably by `keys` (the rank of each row, in the same
/// positions), moving each key along with its row.
pub fn stable_sort_by_keys<T>(rows: &mut Vec<T>, keys: &mut Vec<Option<u64>>, dir: SortDir) -> (p:
    Ghost<Seq<int>>)
    requires
        old(rows)@.len() == old(keys)@.len(),
    ensures
        is_stable_order(p@, old(keys)@, dir),
        final(rows)@ == reorder(old(rows)@, p@),
        final(keys)@ == reorder(old(keys)@, p@),
{
    let ghost r0 = rows@;
    let ghost k0 = keys@;
    let n = rows.len();
    let ghost mut p: Seq<int> = Seq::new(n as nat, |k: int| k);
    let mut i: usize = 0;
    while i < n
        invariant
            0 <= i <= n,
            n == r0.len(),
            n == k0.len(),
            rows@.len() == n,
            keys@.len() == n,
            p.len() == n,
            forall|k: int| i <= k < n ==> #[trigger] p[k] == k,
            forall|k: int| 0 <= k < i ==> 0 <= #[trigger] p[k] < i,
            forall|a: int, b: int| 0 <= a < b < i ==> #[trigger] p[a] != #[trigger] p[b],
            forall|k: int| 0 <= k < n ==> #[trigger] rows@[k] == r0[p[k]],
            forall|k: int| 0 <= k < n ==> #[trigger] keys@[k] == k0[p[k]],
            forall|a: int, b: int|
                0 <= a < b < i ==> !goes_after(#[trigger] keys@[a], #[trigger] keys@[b], dir),
            forall|a: int, b: int|
                0 <= a < b < i && !goes_after(keys@[b], keys@[a], dir) ==> #[trigger] p[a]
                    < #[trigger] p[b],
        decreases n - i,
    {
        let kx = keys[i];
        let mut j: usize = i;
        while j > 0 && ranks_after(keys[j - 1], kx, dir)
            invariant
                0 <= j <= i < n,
                keys@.len() == n,
                kx == keys@[i as int],
                forall|k: int| j <= k < i ==> goes_after(#[trigger] keys@[k], kx, dir),
            decreases j,
        {
            j = j - 1;
        }
        let ghost keys_before = keys@;
        let ghost p_before = p;
        assert(forall|k: int| 0 <= k < j ==> !goes_after(#[trigger] keys_before[k], kx, dir)) by {
            if j > 0 {
                assert forall|k: int| 0 <= k < j implies !goes_after(
                    #[trigger] keys_before[k],
                    kx,
                    dir,
                ) by {
                    if k < j - 1 {
                        lemma_after_total_preorder(
                            keys_before[k],
                            keys_before[j - 1],
                            kx,
                            dir,
                        );
                    }
                }
            }
        }
        let x = rows.remove(i);
        let kk = keys.remove(i);
        rows.insert(j, x);
        keys.insert(j, kk);
        proof {
            p = p.remove(i as int).insert(j as int, i as int);
            assert forall|a: int, b: int| 0 <= a < b < i + 1 implies !goes_after(
                #[trigger] keys@[a],
                #[trigger] keys@[b],
                dir,
            ) by {
                if b == j {
                    assert(keys@[a] == keys_before[a]);
                } else if a == j {
                    assert(keys@[b] == keys_before[b - 1]);
                    assert(goes_after(keys_before[b - 1], kx, dir));
                    lemma_after_total_preorder(keys_before[b - 1], kx, kx, dir);
                } else {
                    let a0 = if a < j { a } else { a - 1 };
                    let b0 = if b < j { b } else { b - 1 };
                    assert(keys@[a] == keys_before[a0]);
                    assert(keys@[b] == keys_before[b0]);
                }
            }
            assert forall|a: int, b: int|
                0 <= a < b < i + 1 && !goes_after(keys@[b], keys@[a], dir) implies #[trigger] p[a]
                < #[trigger] p[b] by {
                if b == j {
                    assert(p[a] == p_before[a]);
                } else if a == j {
                    assert(keys@[b] == keys_before[b - 1]);
                    assert(goes_after(keys_before[b - 1], kx, dir));
                } else {
                    let a0 = if a < j { a } else { a - 1 };
                    let b0 = if b < j { b } else { b - 1 };
                    assert(p[a] == p_before[a0]);
                    assert(p[b] == p_before[b0]);
                    assert(keys@[a] == keys_before[a0]);
                    assert(keys@[b] == keys_before[b0]);
                }
            }
            assert forall|a: int, b: int| 0 <= a < b < i + 1 implies #[trigger] p[a]
                != #[trigger] p[b] by {
                if b == j {
                    assert(p[a] == p_before[if a < j { a } else { a - 1 }]);
                } else if a == j {
                    assert(p[b] == p_before[b - 1]);
                } else {
                    let a0 = if a < j { a } else { a - 1 };
                    let b0 = if b < j { b } else { b - 1 };
                    assert(p[a] == p_before[a0]);
                    assert(p[b] == p_before[b0]);
                }
            }
            assert forall|k: int| 0 <= k < i + 1 implies 0 <= #[trigger] p[k] < i + 1 by {
                if k < j {
                    assert(p[k] == p_before[k]);
                } else if k > j {
                    assert(p[k] == p_before[k - 1]);
                }
            }
            assert forall|k: int| i + 1 <= k < n implies #[trigger] p[k] == k by {
                assert(p[k] == p_before[k]);
            }
        }
        i = i + 1;
    }
    proof {
        assert(rows@ =~= reorder(r0, p));
        assert(keys@ =~= reorder(k0, p));
        assert forall|a: int, b: int| 0 <= a < b < p.len() implies !goes_after(
            #[trigger] k0[p[a]],
            #[trigger] k0[p[b]],
            dir,
        ) by {
            assert(keys@[a] == k0[p[a]]);
            assert(keys@[b] == k0[p[b]]);
        }
        assert forall|a: int, b: int|
            0 <= a < b < p.len() && !goes_after(k0[p[b]], k0[p[a]], dir) implies #[trigger] p[a]
            < #[trigger] p[b] by {
            assert(keys@[a] == k0[p[a]]);
            assert(keys@[b] == k0[p[b]]);
        }
    }
    Ghost(p)
}

} // verus!
