//! The playability penalty of a fingering: the lower, the easier to play.

use vstd::prelude::*;
use crate::fingering::Fingering;
use crate::precomputed::PrecomputedChords;

verus! {

/// What the penalty is when a fingering asks for more fingers than a hand has.
pub const UNPLAYABLE: i32 = 1000;

/// The largest penalty: a sum that exceeds it counts as this.
pub const PENALTY_LIMIT: i32 = 2147483647;

/// A string that is pressed at a fret, neither muted nor open.
pub open spec fn fretted(x: Option<usize>) -> bool {
    x matches Some(f) && f > 0
}

/// The bar of the first `n` strings: the smallest fret above zero among them,
/// and 0 where there is none.
pub open spec fn bar_upto(p: Seq<Option<usize>>, n: int) -> int
    decreases n,
{
    if n <= 0 {
        0
    } else {
        let b = bar_upto(p, n - 1);
        match p[n - 1] {
            Some(f) => if f > 0 && (b == 0 || f < b) {
                f as int
            } else {
                b
            },
            None => b,
        }
    }
}

/// The bar: the smallest fret above zero that is used, and 0 where none is.
pub open spec fn bar_of(p: Seq<Option<usize>>) -> int {
    bar_upto(p, p.len() as int)
}

/// How many of the first `n` strings are played above the fret `bar`.
pub open spec fn above_upto(p: Seq<Option<usize>>, bar: int, n: int) -> int
    decreases n,
{
    if n <= 0 {
        0
    } else {
        above_upto(p, bar, n - 1) + match p[n - 1] {
            Some(f) => if f > bar {
                1int
            } else {
                0int
            },
            None => 0int,
        }
    }
}

/// The fingers: how many strings are played above the bar.
pub open spec fn fingers_of(p: Seq<Option<usize>>) -> int {
    above_upto(p, bar_of(p), p.len() as int)
}

/// How many of the first `n` strings are played at the fret `bar`.
pub open spec fn at_upto(p: Seq<Option<usize>>, bar: int, n: int) -> int
    decreases n,
{
    if n <= 0 {
        0
    } else {
        at_upto(p, bar, n - 1) + match p[n - 1] {
            Some(f) => if f == bar {
                1int
            } else {
                0int
            },
            None => 0int,
        }
    }
}

/// How many strings share the bar; 0 where there is no bar.
pub open spec fn shared_of(p: Seq<Option<usize>>) -> int {
    if bar_of(p) == 0 {
        0
    } else {
        at_upto(p, bar_of(p), p.len() as int)
    }
}

/// Whether the fingering asks for more than four fingers, or for more than
/// three beside a bar.
pub open spec fn too_many_fingers(p: Seq<Option<usize>>) -> bool {
    fingers_of(p) > 4 || (bar_of(p) > 0 && fingers_of(p) > 3)
}

/// The squared distances from the bar, summed over the fretted strings among
/// the first `n`.
pub open spec fn spread_upto(p: Seq<Option<usize>>, bar: int, n: int) -> int
    decreases n,
{
    if n <= 0 {
        0
    } else {
        spread_upto(p, bar, n - 1) + match p[n - 1] {
            Some(f) => if f > 0 {
                (f - bar) * (f - bar)
            } else {
                0int
            },
            None => 0int,
        }
    }
}

/// How many strings are muted from index `i` on, before the first played one.
pub open spec fn muted_from(p: Seq<Option<usize>>, i: int) -> int
    decreases p.len() - i,
{
    if i < 0 || i >= p.len() {
        0
    } else if p[i] is None {
        1 + muted_from(p, i + 1)
    } else {
        0
    }
}

/// How many strings are muted at the end of the first `n`, after the last
/// played one.
pub open spec fn muted_upto(p: Seq<Option<usize>>, n: int) -> int
    decreases n,
{
    if n <= 0 {
        0
    } else if p[n - 1] is None {
        1 + muted_upto(p, n - 1)
    } else {
        0
    }
}

/// A note hole: a muted string somewhere between two played strings.
pub open spec fn note_hole(p: Seq<Option<usize>>) -> bool {
    exists|i: int, j: int, k: int|
        0 <= i < j < k < p.len() && (#[trigger] p[i]) is Some && (#[trigger] p[j]) is None && (
        #[trigger] p[k]) is Some
}

/// Whether the string `x` interrupts a bar at the fret `bar`: it is muted, or
/// it is open while the bar is not at the nut.
pub open spec fn breaks_bar(x: Option<usize>, bar: usize) -> bool {
    match x {
        Some(f) => f == 0 && bar != 0,
        None => true,
    }
}

/// A bar hole: after a string at the fret `bar` comes a string that
/// interrupts the bar.
pub open spec fn bar_hole(p: Seq<Option<usize>>, bar: usize) -> bool {
    exists|i: int, j: int|
        0 <= i < j < p.len() && #[trigger] p[i] == Some(bar) && breaks_bar(#[trigger] p[j], bar)
}

/// The fret of the last fretted string among the first `n`.
pub open spec fn last_fretted_upto(p: Seq<Option<usize>>, n: int) -> Option<usize>
    decreases n,
{
    if n <= 0 {
        None
    } else if fretted(p[n - 1]) {
        p[n - 1]
    } else {
        last_fretted_upto(p, n - 1)
    }
}

/// The squared differences between each fretted string and the fretted
/// string before it, summed over the first `n` strings.
pub open spec fn stretch_upto(p: Seq<Option<usize>>, n: int) -> int
    decreases n,
{
    if n <= 0 {
        0
    } else {
        stretch_upto(p, n - 1) + match (last_fretted_upto(p, n - 1), p[n - 1]) {
            (Some(l), Some(f)) => if f > 0 {
                (l - f) * (l - f)
            } else {
                0int
            },
            _ => 0int,
        }
    }
}

/// The penalty of a playable fingering: the spread around the bar, four for
/// each fret between the nut and the bar, ten for each muted string at either
/// end, fifty for a note hole, fifty for a broken bar that is shared by
/// several strings of a fingering with four or more pressed strings, ten for
/// three or more fingers, and the stretch between neighbouring fingers.
pub open spec fn playable_penalty(p: Seq<Option<usize>>) -> int {
    let n = p.len() as int;
    let bar = bar_of(p);
    spread_upto(p, bar, n) + 4 * bar + 10 * muted_from(p, 0) + 10 * muted_upto(p, n) + (if note_hole(
        p,
    ) {
        50int
    } else {
        0int
    }) + (if shared_of(p) > 1 && shared_of(p) + fingers_of(p) >= 4 && bar_hole(p, bar as usize) {
        50int
    } else {
        0int
    }) + (if fingers_of(p) >= 3 {
        10int
    } else {
        0int
    }) + stretch_upto(p, n)
}

/// The penalty of a fingering.
pub open spec fn penalty_of(p: Seq<Option<usize>>) -> int {
    if too_many_fingers(p) {
        UNPLAYABLE as int
    } else {
        playable_penalty(p)
    }
}

/// The penalty as the ranker reports it: `penalty_of`, and the limit where
/// the sum exceeds the limit.
pub open spec fn reported_penalty(p: Seq<Option<usize>>) -> int {
    if penalty_of(p) <= PENALTY_LIMIT {
        penalty_of(p)
    } else {
        PENALTY_LIMIT as int
    }
}

/// `x`, and the limit where `x` exceeds it.
pub open spec fn capped(x: int) -> int {
    if x <= PENALTY_LIMIT {
        x
    } else {
        PENALTY_LIMIT as int
    }
}

/// The sum of two capped amounts, capped.
fn capped_sum(a: u64, b: u64) -> (r: u64)
    requires
        a <= PENALTY_LIMIT,
        b <= PENALTY_LIMIT,
    ensures
        r == capped(a + b),
        r <= PENALTY_LIMIT,
{
    let total: u64 = a + b;
    if total > 2147483647 {
        2147483647
    } else {
        total
    }
}

/// The square of the distance between two frets, capped.
fn capped_square(a: usize, b: usize) -> (r: u64)
    ensures
        r == capped((a - b) * (a - b)),
        r <= PENALTY_LIMIT,
{
    let d: usize = if a >= b {
        a - b
    } else {
        b - a
    };
    assert((a - b) * (a - b) == d * d) by (nonlinear_arith)
        requires
            d == a - b || d == b - a,
    ;
    if d > 46340 {
        assert(d * d > 2147483647) by (nonlinear_arith)
            requires
                d >= 46341,
        ;
        2147483647
    } else {
        assert(d * d <= 2147395600) by (nonlinear_arith)
            requires
                0 <= d <= 46340,
        ;
        let wide: u64 = d as u64;
        wide * wide
    }
}

/// A count or a fret multiplied by a small weight, capped.
fn capped_times(a: usize, weight: u64) -> (r: u64)
    requires
        weight <= 10,
    ensures
        r == capped(a * weight),
        r <= PENALTY_LIMIT,
{
    if a > 2147483647 {
        if weight == 0 {
            assert(a * weight == 0) by (nonlinear_arith)
                requires
                    weight == 0,
            ;
            0
        } else {
            assert(a * weight > 2147483647) by (nonlinear_arith)
                requires
                    a > 2147483647,
                    weight >= 1,
            ;
            2147483647
        }
    } else {
        assert(a * weight <= 21474836470) by (nonlinear_arith)
            requires
                0 <= a <= 2147483647,
                0 <= weight <= 10,
        ;
        let product: u64 = (a as u64) * weight;
        if product > 2147483647 {
            2147483647
        } else {
            product
        }
    }
}

/// The spread is a sum of squares.
pub proof fn spread_is_not_negative(p: Seq<Option<usize>>, bar: int, n: int)
    ensures
        spread_upto(p, bar, n) >= 0,
    decreases n,
{
    if n > 0 {
        spread_is_not_negative(p, bar, n - 1);
        if let Some(f) = p[n - 1] {
            assert((f - bar) * (f - bar) >= 0) by (nonlinear_arith);
        }
    }
}

/// The stretch is a sum of squares.
pub proof fn stretch_is_not_negative(p: Seq<Option<usize>>, n: int)
    ensures
        stretch_upto(p, n) >= 0,
    decreases n,
{
    if n > 0 {
        stretch_is_not_negative(p, n - 1);
        if let (Some(l), Some(f)) = (last_fretted_upto(p, n - 1), p[n - 1]) {
            assert((l - f) * (l - f) >= 0) by (nonlinear_arith);
        }
    }
}

/// The bar, and each count of strings, is never negative, and no count
/// exceeds the number of strings counted.
pub proof fn counts_are_bounded(p: Seq<Option<usize>>, bar: int, n: int)
    requires
        0 <= n,
    ensures
        0 <= bar_upto(p, n),
        0 <= above_upto(p, bar, n) <= n,
        0 <= at_upto(p, bar, n) <= n,
        0 <= muted_upto(p, n) <= n,
    decreases n,
{
    if n > 0 {
        counts_are_bounded(p, bar, n - 1);
    }
}

/// The muted strings at the start are never more than the strings that are left.
pub proof fn leading_is_bounded(p: Seq<Option<usize>>, i: int)
    requires
        0 <= i <= p.len(),
    ensures
        0 <= muted_from(p, i) <= p.len() - i,
    decreases p.len() - i,
{
    if i < p.len() && p[i] is None {
        leading_is_bounded(p, i + 1);
    }
}

/// The bar of a sequence of placements.
fn find_bar(p: &[Option<usize>]) -> (r: usize)
    ensures
        r == bar_of(p@),
{
    let mut bar: usize = 0;
    let mut i: usize = 0;
    while i < p.len()
        invariant
            i <= p@.len(),
            bar == bar_upto(p@, i as int),
        decreases p@.len() - i,
    {
        if let Some(f) = p[i] {
            if f > 0 && (bar == 0 || f < bar) {
                bar = f;
            }
        }
        i = i + 1;
    }
    bar
}

/// How many strings are played above the fret `bar`.
fn count_above(p: &[Option<usize>], bar: usize) -> (r: usize)
    ensures
        r == above_upto(p@, bar as int, p@.len() as int),
{
    let mut count: usize = 0;
    let mut i: usize = 0;
    while i < p.len()
        invariant
            i <= p@.len(),
            count == above_upto(p@, bar as int, i as int),
            count <= i,
        decreases p@.len() - i,
    {
        if let Some(f) = p[i] {
            if f > bar {
                count = count + 1;
            }
        }
        i = i + 1;
    }
    count
}

/// How many strings are played at the fret `bar`.
fn count_at(p: &[Option<usize>], bar: usize) -> (r: usize)
    ensures
        r == at_upto(p@, bar as int, p@.len() as int),
{
    let mut count: usize = 0;
    let mut i: usize = 0;
    while i < p.len()
        invariant
            i <= p@.len(),
            count == at_upto(p@, bar as int, i as int),
            count <= i,
        decreases p@.len() - i,
    {
        if let Some(f) = p[i] {
            if f == bar {
                count = count + 1;
            }
        }
        i = i + 1;
    }
    count
}

/// The spread around `bar`, capped.
fn spread(p: &[Option<usize>], bar: usize) -> (r: u64)
    ensures
        r == capped(spread_upto(p@, bar as int, p@.len() as int)),
        r <= PENALTY_LIMIT,
{
    let mut total: u64 = 0;
    let mut i: usize = 0;
    while i < p.len()
        invariant
            i <= p@.len(),
            total == capped(spread_upto(p@, bar as int, i as int)),
            total <= PENALTY_LIMIT,
        decreases p@.len() - i,
    {
        proof {
            spread_is_not_negative(p@, bar as int, i as int);
        }
        if let Some(f) = p[i] {
            if f > 0 {
                let term: u64 = capped_square(f, bar);
                assert((f - bar) * (f - bar) >= 0) by (nonlinear_arith);
                total = capped_sum(total, term);
            }
        }
        i = i + 1;
    }
    total
}

/// How many strings are muted before the first played one.
fn leading_muted(p: &[Option<usize>]) -> (r: usize)
    ensures
        r == muted_from(p@, 0),
{
    let mut i: usize = 0;
    while i < p.len() && p[i].is_none()
        invariant
            i <= p@.len(),
            muted_from(p@, 0) == i + muted_from(p@, i as int),
        decreases p@.len() - i,
    {
        i = i + 1;
    }
    i
}

/// How many strings are muted after the last played one.
fn trailing_muted(p: &[Option<usize>]) -> (r: usize)
    ensures
        r == muted_upto(p@, p@.len() as int),
{
    let n: usize = p.len();
    let mut count: usize = 0;
    while count < n && p[n - 1 - count].is_none()
        invariant
            n == p@.len(),
            count <= n,
            muted_upto(p@, n as int) == count + muted_upto(p@, n - count),
        decreases n - count,
    {
        count = count + 1;
    }
    count
}

/// The stretch between neighbouring fingers, capped.
fn stretch(p: &[Option<usize>]) -> (r: u64)
    ensures
        r == capped(stretch_upto(p@, p@.len() as int)),
        r <= PENALTY_LIMIT,
{
    let mut total: u64 = 0;
    let mut last: Option<usize> = None;
    let mut i: usize = 0;
    while i < p.len()
        invariant
            i <= p@.len(),
            total == capped(stretch_upto(p@, i as int)),
            total <= PENALTY_LIMIT,
            last == last_fretted_upto(p@, i as int),
        decreases p@.len() - i,
    {
        proof {
            stretch_is_not_negative(p@, i as int);
        }
        if let Some(f) = p[i] {
            if f > 0 {
                if let Some(l) = last {
                    let term: u64 = capped_square(l, f);
                    assert((l - f) * (l - f) >= 0) by (nonlinear_arith);
                    total = capped_sum(total, term);
                }
                last = Some(f);
            }
        }
        i = i + 1;
    }
    total
}

/// Whether one of the first `n` strings is played.
pub open spec fn played_before(p: Seq<Option<usize>>, n: int) -> bool {
    exists|i: int| 0 <= i < n && (#[trigger] p[i]) is Some
}

/// Whether one of the first `n` strings is muted after a played one.
pub open spec fn gap_before(p: Seq<Option<usize>>, n: int) -> bool {
    exists|i: int, j: int| 0 <= i < j < n && (#[trigger] p[i]) is Some && (#[trigger] p[j]) is None
}

/// Whether one of the first `n` strings is at the fret `bar`.
pub open spec fn bar_before(p: Seq<Option<usize>>, bar: usize, n: int) -> bool {
    exists|i: int| 0 <= i < n && #[trigger] p[i] == Some(bar)
}

impl PrecomputedChords {
    /// Whether a muted string lies somewhere between two played strings.
    pub fn has_note_hole(fingering: &Fingering) -> (r: bool)
        ensures
            r == note_hole(fingering.spec_placements()),
    {
        let p: &[Option<usize>] = fingering.placements();
        let mut found_finger: bool = false;
        let mut found_hole: bool = false;
        let mut n: usize = 0;
        while n < p.len()
            invariant
                n <= p@.len(),
                p@ == fingering.spec_placements(),
                found_finger == played_before(p@, n as int),
                found_hole == gap_before(p@, n as int),
                forall|i: int, j: int, k: int|
                    0 <= i < j < k < n ==> !((#[trigger] p@[i]) is Some && (#[trigger] p@[j])
                        is None && (#[trigger] p@[k]) is Some),
            decreases p@.len() - n,
        {
            if p[n].is_some() {
                if found_hole {
                    proof {
                        let (i, j) = choose|i: int, j: int|
                            0 <= i < j < n && (#[trigger] p@[i]) is Some && (#[trigger] p@[j])
                                is None;
                        assert(p@[i] is Some && p@[j] is None && p@[n as int] is Some);
                    }
                    return true;
                }
                found_finger = true;
                assert(p@[n as int] is Some);
                assert(gap_before(p@, n + 1) == gap_before(p@, n as int)) by {
                    if gap_before(p@, n + 1) {
                        let (i, j) = choose|i: int, j: int|
                            0 <= i < j < n + 1 && (#[trigger] p@[i]) is Some && (#[trigger] p@[j])
                                is None;
                        assert(j < n);
                        assert(p@[i] is Some && p@[j] is None);
                    }
                }
            } else {
                assert(p@[n as int] is None);
                if found_finger {
                    found_hole = true;
                    proof {
                        let i = choose|i: int| 0 <= i < n && (#[trigger] p@[i]) is Some;
                        assert(p@[i] is Some && p@[n as int] is None);
                    }
                } else {
                    assert(!gap_before(p@, n + 1)) by {
                        if gap_before(p@, n + 1) {
                            let (i, j) = choose|i: int, j: int|
                                0 <= i < j < n + 1 && (#[trigger] p@[i]) is Some && (
                                #[trigger] p@[j]) is None;
                            assert(p@[i] is Some);
                            assert(played_before(p@, n as int));
                        }
                    }
                }
                assert(played_before(p@, n + 1) == played_before(p@, n as int)) by {
                    if played_before(p@, n + 1) {
                        let i = choose|i: int| 0 <= i < n + 1 && (#[trigger] p@[i]) is Some;
                        assert(i < n);
                    }
                }
                assert(gap_before(p@, n as int) ==> gap_before(p@, n + 1)) by {
                    if gap_before(p@, n as int) {
                        let (i, j) = choose|i: int, j: int|
                            0 <= i < j < n && (#[trigger] p@[i]) is Some && (#[trigger] p@[j])
                                is None;
                        assert(p@[i] is Some && p@[j] is None);
                    }
                }
            }
            n = n + 1;
        }
        false
    }

    /// Whether a string after one at the fret `bar` interrupts the bar.
    pub fn has_bar_hole(fingering: &Fingering, bar: &usize) -> (r: bool)
        ensures
            r == bar_hole(fingering.spec_placements(), *bar),
    {
        let p: &[Option<usize>] = fingering.placements();
        let mut found_bar: bool = false;
        let mut n: usize = 0;
        while n < p.len()
            invariant
                n <= p@.len(),
                p@ == fingering.spec_placements(),
                found_bar == bar_before(p@, *bar, n as int),
                forall|i: int, j: int|
                    0 <= i < j < n ==> !(#[trigger] p@[i] == Some(*bar) && breaks_bar(
                        #[trigger] p@[j],
                        *bar,
                    )),
            decreases p@.len() - n,
        {
            let interrupts: bool = match p[n] {
                Some(f) => f == 0 && *bar != 0,
                None => true,
            };
            if found_bar && interrupts {
                proof {
                    let i = choose|i: int| 0 <= i < n && #[trigger] p@[i] == Some(*bar);
                    assert(p@[i] == Some(*bar) && breaks_bar(p@[n as int], *bar));
                }
                return true;
            }
            let at_bar: bool = match p[n] {
                Some(f) => f == *bar,
                None => false,
            };
            if at_bar {
                found_bar = true;
                assert(p@[n as int] == Some(*bar));
            } else {
                assert(bar_before(p@, *bar, n + 1) == bar_before(p@, *bar, n as int)) by {
                    if bar_before(p@, *bar, n + 1) {
                        let i = choose|i: int| 0 <= i < n + 1 && #[trigger] p@[i] == Some(*bar);
                        assert(i < n);
                    }
                }
            }
            assert(bar_before(p@, *bar, n as int) ==> bar_before(p@, *bar, n + 1)) by {
                if bar_before(p@, *bar, n as int) {
                    let i = choose|i: int| 0 <= i < n && #[trigger] p@[i] == Some(*bar);
                    assert(p@[i] == Some(*bar));
                }
            }
            n = n + 1;
        }
        false
    }

    /// The penalty of a fingering: the lower, the easier to play. It is never
    /// negative, it is `UNPLAYABLE` for a fingering that asks for too many
    /// fingers, and a sum above `PENALTY_LIMIT` is reported as the limit.
    pub fn fingering_penalty(fingering: &Fingering) -> (r: i32)
        ensures
            r == reported_penalty(fingering.spec_placements()),
            r >= 0,
            too_many_fingers(fingering.spec_placements()) ==> r == UNPLAYABLE,
    {
        let p: &[Option<usize>] = fingering.placements();
        let ghost n = p@.len() as int;
        let bar: usize = find_bar(p);
        let fingers: usize = count_above(p, bar);
        if fingers > 4 || (bar > 0 && fingers > 3) {
            return 1000;
        }
        let shared: usize = if bar == 0 {
            0
        } else {
            count_at(p, bar)
        };
        proof {
            spread_is_not_negative(p@, bar as int, n);
            stretch_is_not_negative(p@, n);
            counts_are_bounded(p@, bar as int, n);
            leading_is_bounded(p@, 0);
        }
        let mut score: u64 = spread(p, bar);
        score = capped_sum(score, capped_times(bar, 4));
        let leading: usize = leading_muted(p);
        score = capped_sum(score, capped_times(leading, 10));
        let trailing: usize = trailing_muted(p);
        score = capped_sum(score, capped_times(trailing, 10));
        if PrecomputedChords::has_note_hole(fingering) {
            score = capped_sum(score, 50);
        }
        if shared > 1 && (shared >= 4 || fingers >= 4 - shared) && PrecomputedChords::has_bar_hole(
            fingering,
            &bar,
        ) {
            score = capped_sum(score, 50);
        }
        if fingers >= 3 {
            score = capped_sum(score, 10);
        }
        score = capped_sum(score, stretch(p));
        assert(score == capped(playable_penalty(p@)));
        score as i32
    }
}

/// The penalty is never negative.
pub proof fn penalty_is_not_negative(p: Seq<Option<usize>>)
    ensures
        penalty_of(p) >= 0,
        reported_penalty(p) >= 0,
{
    let n = p.len() as int;
    spread_is_not_negative(p, bar_of(p), n);
    stretch_is_not_negative(p, n);
    counts_are_bounded(p, bar_of(p), n);
    leading_is_bounded(p, 0);
}

/// A fingering that asks for too many fingers has the fixed penalty.
pub proof fn too_many_fingers_is_unplayable(p: Seq<Option<usize>>)
    requires
        too_many_fingers(p),
    ensures
        penalty_of(p) == UNPLAYABLE,
        reported_penalty(p) == UNPLAYABLE,
{
}

/// The bar of the first `n` strings is 0 exactly where none of them is
/// fretted; else it is the fret of one of them, and none of them is fretted
/// lower.
pub proof fn bar_is_the_lowest_fret(p: Seq<Option<usize>>, n: int)
    requires
        0 <= n <= p.len(),
    ensures
        bar_upto(p, n) == 0 <==> forall|i: int| 0 <= i < n ==> !fretted(#[trigger] p[i]),
        bar_upto(p, n) > 0 ==> exists|i: int|
            0 <= i < n && #[trigger] p[i] == Some(bar_upto(p, n) as usize),
        forall|i: int|
            0 <= i < n && fretted(#[trigger] p[i]) ==> bar_upto(p, n) <= p[i].unwrap(),
    decreases n,
{
    if n > 0 {
        bar_is_the_lowest_fret(p, n - 1);
        counts_are_bounded(p, 0, n - 1);
        let b = bar_upto(p, n - 1);
        let bar = bar_upto(p, n);
        if fretted(p[n - 1]) {
            assert(bar > 0);
        }
        if bar > 0 {
            if bar == b {
                let i = choose|i: int| 0 <= i < n - 1 && #[trigger] p[i] == Some(b as usize);
                assert(p[i] == Some(bar as usize));
            } else {
                assert(p[n - 1] == Some(bar as usize));
            }
        }
        if bar == 0 {
            assert forall|i: int| 0 <= i < n implies !fretted(#[trigger] p[i]) by {
                if i < n - 1 {
                    assert(!fretted(p[i]));
                }
            }
        }
    }
}

} // verus!
