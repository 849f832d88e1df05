//! Ascending sequences of integers: where an item goes, and what putting it
//! there and taking it out again does.

use vstd::prelude::*;
use crate::sorted::ascending;

verus! {

/// How many items of `s` stand before the place of `x`: the whole length
/// where the last item is at most `x`, else the rank among the items before
/// the last.
pub open spec fn rank(s: Seq<i128>, x: i128) -> int
    decreases s.len(),
{
    if s.len() == 0 {
        0
    } else if s.last() <= x {
        s.len() as int
    } else {
        rank(s.drop_last(), x)
    }
}

/// `s` with `x` put in at its rank.
pub open spec fn with_item(s: Seq<i128>, x: i128) -> Seq<i128> {
    s.insert(rank(s, x), x)
}

/// In an ascending sequence the items before the rank of `x` are at most
/// `x`, and the items from the rank on are greater.
pub proof fn rank_splits(s: Seq<i128>, x: i128)
    requires
        ascending(s),
    ensures
        0 <= rank(s, x) <= s.len(),
        forall|j: int| 0 <= j < rank(s, x) ==> s[j] <= x,
        forall|j: int| rank(s, x) <= j < s.len() ==> x < s[j],
    decreases s.len(),
{
    if s.len() == 0 {
    } else if s.last() <= x {
        assert forall|j: int| 0 <= j < s.len() implies s[j] <= x by {
            assert(s[j] <= s[s.len() - 1]);
        }
    } else {
        let t = s.drop_last();
        assert(ascending(t)) by {
            assert forall|i: int, j: int| 0 <= i <= j < t.len() implies t[i] <= t[j] by {
                assert(s[i] <= s[j]);
            }
        }
        rank_splits(t, x);
        assert forall|j: int| rank(s, x) <= j < s.len() implies x < s[j] by {
            if j < t.len() {
                assert(t[j] == s[j]);
            }
        }
        assert forall|j: int| 0 <= j < rank(s, x) implies s[j] <= x by {
            assert(t[j] == s[j]);
        }
    }
}

/// Putting an item in at its rank keeps the sequence ascending.
pub proof fn with_item_ascends(s: Seq<i128>, x: i128)
    requires
        ascending(s),
    ensures
        ascending(with_item(s, x)),
        with_item(s, x).len() == s.len() + 1,
{
    rank_splits(s, x);
    let r = rank(s, x);
    let t = with_item(s, x);
    assert forall|i: int, j: int| 0 <= i <= j < t.len() implies t[i] <= t[j] by {
        if i < r {
            assert(t[i] == s[i]);
        } else if i > r {
            assert(t[i] == s[i - 1]);
        }
        if j < r {
            assert(t[j] == s[j]);
        } else if j > r {
            assert(t[j] == s[j - 1]);
        }
        if i < r && j < r {
            assert(s[i] <= s[j]);
        } else if i > r && j > r {
            assert(s[i - 1] <= s[j - 1]);
        }
    }
}

/// An ascending sequence has one way to take an item in: wherever the item
/// is put, if the result is ascending it is the sequence with the item at
/// its rank.
pub proof fn one_way_to_insert(s: Seq<i128>, i: int, x: i128)
    requires
        ascending(s),
        0 <= i <= s.len(),
        ascending(s.insert(i, x)),
    ensures
        s.insert(i, x) == with_item(s, x),
{
    rank_splits(s, x);
    let r = rank(s, x);
    let a = s.insert(i, x);
    let b = with_item(s, x);
    assert(a[i] == x);
    assert forall|j: int| 0 <= j < i implies s[j] <= x by {
        assert(a[j] == s[j]);
        assert(a[j] <= a[i]);
    }
    assert forall|j: int| i <= j < s.len() implies x <= s[j] by {
        assert(a[j + 1] == s[j]);
        assert(a[i] <= a[j + 1]);
    }
    if r < i {
        assert(x < s[r]);
        assert(s[r] <= x);
    }
    assert forall|k: int| 0 <= k < a.len() implies a[k] == b[k] by {
        if k < i {
            assert(a[k] == s[k]);
            assert(b[k] == s[k]);
        } else if k == i {
            if i < r {
                assert(b[k] == s[k]);
                assert(s[k] <= x && x <= s[k]);
            }
        } else if k <= r {
            assert(a[k] == s[k - 1]);
            assert(s[k - 1] <= x && x <= s[k - 1]);
            if k < r {
                assert(b[k] == s[k]);
                assert(s[k] <= x && x <= s[k]);
            }
        } else {
            assert(a[k] == s[k - 1]);
            assert(b[k] == s[k - 1]);
        }
    }
    assert(a =~= b);
}

/// Taking out any item equal to `x` undoes putting `x` in.
pub proof fn taking_out_restores(s: Seq<i128>, x: i128, i: int)
    requires
        ascending(s),
        0 <= i < with_item(s, x).len(),
        with_item(s, x)[i] == x,
    ensures
        with_item(s, x).remove(i) == s,
{
    rank_splits(s, x);
    with_item_ascends(s, x);
    let r = rank(s, x);
    let c = with_item(s, x);
    let d = c.remove(i);
    assert forall|k: int| 0 <= k < s.len() implies d[k] == s[k] by {
        if i <= r {
            if k < i {
                assert(d[k] == c[k]);
                assert(c[k] == s[k]);
            } else if k < r {
                assert(d[k] == c[k + 1]);
                assert(c[k + 1] == s[k + 1] || k + 1 == r);
                assert(c[i] <= c[k] && c[k] <= c[r]);
                assert(c[k] == s[k]);
                if k + 1 < r {
                    assert(c[i] <= c[k + 1] && c[k + 1] <= c[r]);
                }
            } else {
                assert(d[k] == c[k + 1]);
                assert(c[k + 1] == s[k]);
            }
        } else {
            assert(c[i] == s[i - 1]);
            assert(x < s[i - 1]);
        }
    }
    assert(d =~= s);
}

/// The sequence with an item put in holds that item and what it held before.
pub proof fn with_item_holds(s: Seq<i128>, x: i128, v: i128)
    requires
        ascending(s),
    ensures
        with_item(s, x).contains(v) <==> (s.contains(v) || v == x),
{
    rank_splits(s, x);
    let r = rank(s, x);
    let c = with_item(s, x);
    if c.contains(v) {
        let k = choose|k: int| 0 <= k < c.len() && c[k] == v;
        if k < r {
            assert(c[k] == s[k]);
        } else if k > r {
            assert(c[k] == s[k - 1]);
        }
    }
    if s.contains(v) {
        let k = choose|k: int| 0 <= k < s.len() && s[k] == v;
        if k < r {
            assert(c[k] == v);
        } else {
            assert(c[k + 1] == v);
        }
    }
    if v == x {
        assert(c[r] == v);
    }
}

} // verus!
