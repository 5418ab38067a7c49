//! Small duplicate-free vectors of ids used as sets: channel membership,
//! listener subscriptions and voice-target entries.

use vstd::prelude::*;

verus! {

/// An element-for-element copy of a vector of plain values.
pub fn copy_vec<T: Copy>(v: &Vec<T>) -> (r: Vec<T>)
    ensures
        r@ == v@,
{
    let n: usize = v.len();
    let mut out: Vec<T> = Vec::new();
    let mut i: usize = 0;
    while i < n
        invariant
            i <= n,
            n == v@.len(),
            out@ == v@.take(i as int),
        decreases n - i,
    {
        out.push(v[i]);
        proof {
            assert(v@.take(i + 1) =~= v@.take(i as int) + seq![v@[i as int]]);
        }
        i = i + 1;
    }
    proof {
        assert(v@.take(n as int) =~= v@);
    }
    out
}

/// Appends `x`, recording how membership changes.
pub fn vs_push(v: &mut Vec<u32>, x: u32)
    requires
        old(v)@.len() < usize::MAX,
    ensures
        final(v)@ == old(v)@.push(x),
        forall|y: u32| final(v)@.contains(y) <==> (old(v)@.contains(y) || y == x),
        old(v)@.no_duplicates() && !old(v)@.contains(x) ==> final(v)@.no_duplicates(),
{
    v.push(x);
    proof {
        assert forall|y: u32| v@.contains(y) implies (old(v)@.contains(y) || y == x) by {
            let j = choose|j: int| 0 <= j < v@.len() && v@[j] == y;
            if j < old(v)@.len() {
                assert(old(v)@[j] == y);
            }
        }
        assert forall|y: u32| (old(v)@.contains(y) || y == x) implies v@.contains(y) by {
            if old(v)@.contains(y) {
                let j = choose|j: int| 0 <= j < old(v)@.len() && old(v)@[j] == y;
                assert(v@[j] == y);
            } else {
                assert(v@[old(v)@.len() as int] == x);
            }
        }
        if old(v)@.no_duplicates() && !old(v)@.contains(x) {
            assert forall|a: int, b: int| 0 <= a < b < v@.len() implies v@[a] != v@[b] by {
                if b == old(v)@.len() {
                    assert(old(v)@.contains(old(v)@[a]));
                }
            }
        }
    }
}

/// Whether `x` occurs in `v`.
pub fn vs_contains(v: &Vec<u32>, x: u32) -> (r: bool)
    ensures
        r == v@.contains(x),
{
    let n: usize = v.len();
    let mut i: usize = 0;
    while i < n
        invariant
            i <= n,
            n == v@.len(),
            forall|j: int| 0 <= j < i ==> v@[j] != x,
        decreases n - i,
    {
        if v[i] == x {
            return true;
        }
        i = i + 1;
    }
    false
}

/// Adds `x` if absent, keeping the vector duplicate-free.
pub fn vs_insert(v: &mut Vec<u32>, x: u32)
    requires
        old(v)@.no_duplicates(),
        old(v)@.len() < usize::MAX,
    ensures
        final(v)@.no_duplicates(),
        forall|y: u32| final(v)@.contains(y) <==> (old(v)@.contains(y) || y == x),
        final(v)@.to_set() == old(v)@.to_set().insert(x),
        final(v)@.len() <= old(v)@.len() + 1,
{
    if !vs_contains(v, x) {
        v.push(x);
        proof {
            assert forall|y: u32| final(v)@.contains(y) implies (old(v)@.contains(y) || y == x) by {
                let j = choose|j: int| 0 <= j < final(v)@.len() && final(v)@[j] == y;
                if j < old(v)@.len() {
                    assert(old(v)@[j] == y);
                }
            }
            assert forall|y: u32| (old(v)@.contains(y) || y == x) implies final(v)@.contains(
                y,
            ) by {
                if old(v)@.contains(y) {
                    let j = choose|j: int| 0 <= j < old(v)@.len() && old(v)@[j] == y;
                    assert(final(v)@[j] == y);
                } else {
                    assert(final(v)@[old(v)@.len() as int] == x);
                }
            }
            assert forall|a: int, b: int|
                0 <= a < b < final(v)@.len() implies final(v)@[a] != final(v)@[b] by {
                if b < old(v)@.len() {
                } else {
                    assert(final(v)@[b] == x);
                    assert(old(v)@[a] == final(v)@[a]);
                    assert(old(v)@.contains(old(v)@[a]) ==> old(v)@[a] != x);
                }
            }
        }
    }
    proof {
        assert(v@.to_set() =~= old(v)@.to_set().insert(x));
    }
}

/// Removes `x` if present, keeping the vector duplicate-free.
pub fn vs_remove(v: &mut Vec<u32>, x: u32)
    requires
        old(v)@.no_duplicates(),
    ensures
        final(v)@.no_duplicates(),
        !final(v)@.contains(x),
        forall|y: u32| final(v)@.contains(y) <==> (old(v)@.contains(y) && y != x),
        final(v)@.to_set() == old(v)@.to_set().remove(x),
        final(v)@.len() <= old(v)@.len(),
{
    let n: usize = v.len();
    let mut i: usize = 0;
    while i < n
        invariant
            i <= n,
            n == v@.len(),
            v@ == old(v)@,
            old(v)@.no_duplicates(),
            forall|j: int| 0 <= j < i ==> v@[j] != x,
        decreases n - i,
    {
        if v[i] == x {
            let ghost s0 = v@;
            v.remove(i);
            proof {
                s0.remove_ensures(i as int);
                assert(s0 == old(v)@ && s0[i as int] == x && v@ == s0.remove(i as int));
                assert(s0.no_duplicates());
                assert(v@.len() == s0.len() - 1);
                assert forall|y: u32| v@.contains(y) implies (old(v)@.contains(y) && y
                    != x) by {
                    let j = choose|j: int| 0 <= j < v@.len() && v@[j] == y;
                    if j < i {
                        assert(s0.remove(i as int)[j] == s0[j]);
                        assert(old(v)@[j] == y);
                    } else {
                        assert(s0.remove(i as int)[j] == s0[j + 1]);
                        assert(old(v)@[j + 1] == y);
                        assert(s0[j + 1] != s0[i as int]);
                    }
                }
                assert forall|y: u32| (old(v)@.contains(y) && y != x) implies v@.contains(
                    y,
                ) by {
                    let j = choose|j: int| 0 <= j < old(v)@.len() && old(v)@[j] == y;
                    if j < i {
                        assert(s0.remove(i as int)[j] == s0[j]);
                        assert(v@[j] == y);
                    } else {
                        assert(j != i);
                        assert(s0.remove(i as int)[j - 1] == s0[j]);
                        assert(v@[j - 1] == y);
                    }
                }
                assert forall|a: int, b: int|
                    0 <= a < b < v@.len() implies v@[a] != v@[b] by {
                    let oa: int = if a < i {
                        a
                    } else {
                        a + 1
                    };
                    let ob: int = if b < i {
                        b
                    } else {
                        b + 1
                    };
                    assert(s0.remove(i as int)[a] == s0[oa] && s0.remove(i as int)[b] == s0[ob]);
                    assert(v@[a] == s0[oa] && v@[b] == s0[ob]);
                }
                assert(v@.to_set() =~= old(v)@.to_set().remove(x));
            }
            return ;
        }
        i = i + 1;
    }
    proof {
        assert(!v@.contains(x));
        assert forall|y: u32| v@.contains(y) implies (old(v)@.contains(y) && y != x) by {}
        assert(v@.to_set() =~= old(v)@.to_set().remove(x));
    }
}

} // verus!
