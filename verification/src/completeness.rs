//! What the search finds, said without the search: the placements that are
//! fingerings of the chord and that a hand can hold.

use vstd::prelude::*;
use crate::chord::Chord;
use crate::finder::candidates_at;
use crate::finder::candidates_upto;
use crate::finder::effective_chord;
use crate::finder::fingerings_of;
use crate::finder::found_at;
use crate::finder::is_candidate;
use crate::finder::is_valid;
use crate::finder::sorted_pitches;
use crate::finder::sounded_pitch;
use crate::finder::within_span;
use crate::instrument::Corda;
use crate::instrument::InstrumentView;
use crate::ordered::with_item_ascends;
use crate::ordered::with_item_holds;
use crate::sorted::ascending;

verus! {

/// Whether the placement of string `i` in `p` may stand: the string is
/// muted, or it is pressed at one of its frets, sounds a tone of the chord or
/// its bass there, and the span guard admits the fret after the strings
/// before it.
pub open spec fn placement_allowed(
    chord: Chord,
    instrument: InstrumentView,
    p: Seq<Option<usize>>,
    i: int,
) -> bool {
    match p[i] {
        Some(fret) => fret < instrument.strings[i].frets && is_candidate(
            chord,
            instrument.strings[i],
            fret,
        ) && within_span(p.take(i), fret),
        None => true,
    }
}

/// Whether `p` is a fingering of `chord` that a hand can hold: it decides
/// every string, each placement may stand, and the notes are the chord.
pub open spec fn admissible(chord: Chord, instrument: InstrumentView, p: Seq<Option<usize>>) -> bool {
    &&& p.len() == instrument.strings.len()
    &&& forall|i: int| 0 <= i < p.len() ==> placement_allowed(chord, instrument, p, i)
    &&& is_valid(chord, instrument, p)
}

/// Whether `p` lies below the placements `placed` in the search, from the
/// candidate at position `c` of the next string on.
pub open spec fn below(
    chord: Chord,
    instrument: InstrumentView,
    placed: Seq<Option<usize>>,
    c: nat,
    p: Seq<Option<usize>>,
) -> bool {
    let n = placed.len() as int;
    &&& p.len() == instrument.strings.len()
    &&& forall|i: int| 0 <= i < n ==> p[i] == placed[i]
    &&& is_valid(chord, instrument, p)
    &&& forall|i: int| n <= i < p.len() ==> placement_allowed(chord, instrument, p, i)
    &&& n < p.len() ==> p[n] is None || exists|k: int|
        c <= k < candidates_at(chord, instrument, n).len() && p[n] == Some(
            #[trigger] candidates_at(chord, instrument, n)[k],
        )
}

/// The candidates of a string are its frets that sound a tone of the chord
/// or its bass.
pub proof fn candidates_are_the_chord_tones(chord: Chord, string: Corda, n: int, fret: usize)
    requires
        0 <= n,
    ensures
        candidates_upto(chord, string, n).contains(fret) <==> (fret < n && is_candidate(
            chord,
            string,
            fret,
        )),
    decreases n,
{
    if n > 0 {
        candidates_are_the_chord_tones(chord, string, n - 1, fret);
        let rest = candidates_upto(chord, string, n - 1);
        let last = (n - 1) as usize;
        if is_candidate(chord, string, last) {
            let all = rest.push(last);
            if all.contains(fret) {
                let k = choose|k: int| 0 <= k < all.len() && all[k] == fret;
                if k < rest.len() {
                    assert(rest[k] == fret);
                }
            }
            if rest.contains(fret) {
                let k = choose|k: int| 0 <= k < rest.len() && rest[k] == fret;
                assert(all[k] == fret);
            }
            if fret == last {
                assert(all[rest.len() as int] == fret);
            }
        }
    }
}

/// Two sequences in a row hold what either holds.
pub proof fn either_holds(
    a: Seq<Seq<Option<usize>>>,
    b: Seq<Seq<Option<usize>>>,
    p: Seq<Option<usize>>,
)
    ensures
        (a + b).contains(p) <==> (a.contains(p) || b.contains(p)),
{
    if (a + b).contains(p) {
        let k = choose|k: int| 0 <= k < (a + b).len() && (a + b)[k] == p;
        if k < a.len() {
            assert(a[k] == p);
        } else {
            assert(b[k - a.len()] == p);
        }
    }
    if a.contains(p) {
        let k = choose|k: int| 0 <= k < a.len() && a[k] == p;
        assert((a + b)[k] == p);
    }
    if b.contains(p) {
        let k = choose|k: int| 0 <= k < b.len() && b[k] == p;
        assert((a + b)[a.len() + k] == p);
    }
}

/// A placement that may stand on the next string is muted or one of the
/// candidates of that string.
proof fn allowed_is_a_candidate(
    chord: Chord,
    instrument: InstrumentView,
    p: Seq<Option<usize>>,
    n: int,
)
    requires
        0 <= n < p.len(),
        p.len() == instrument.strings.len(),
        placement_allowed(chord, instrument, p, n),
    ensures
        p[n] is None || exists|k: int|
            0 <= k < candidates_at(chord, instrument, n).len() && p[n] == Some(
                #[trigger] candidates_at(chord, instrument, n)[k],
            ),
{
    if let Some(fret) = p[n] {
        let list = candidates_at(chord, instrument, n);
        candidates_are_the_chord_tones(
            chord,
            instrument.strings[n],
            instrument.strings[n].frets as int,
            fret,
        );
        assert(list.contains(fret));
        let k = choose|k: int| 0 <= k < list.len() && list[k] == fret;
        assert(p[n] == Some(list[k]));
    }
}

/// What the search finds below some placements is what lies below them.
pub proof fn found_is_below(
    chord: Chord,
    instrument: InstrumentView,
    placed: Seq<Option<usize>>,
    c: nat,
    p: Seq<Option<usize>>,
)
    requires
        placed.len() <= instrument.strings.len(),
    ensures
        found_at(chord, instrument, placed, c).contains(p) <==> below(
            chord,
            instrument,
            placed,
            c,
            p,
        ),
    decreases instrument.strings.len() - placed.len(),
        candidates_at(chord, instrument, placed.len() as int).len() - c,
{
    let n = placed.len() as int;
    let found = found_at(chord, instrument, placed, c);
    if n >= instrument.strings.len() {
        if found.contains(p) {
            let k = choose|k: int| 0 <= k < found.len() && found[k] == p;
            assert(p == placed);
        }
        if below(chord, instrument, placed, c, p) {
            assert(p =~= placed);
            assert(found[0] == p);
        }
    } else {
        let list = candidates_at(chord, instrument, n);
        if c < list.len() {
            let fret = list[c as int];
            let next = placed.push(Some(fret));
            let a = if within_span(placed, fret) {
                found_at(chord, instrument, next, 0)
            } else {
                Seq::empty()
            };
            let b = found_at(chord, instrument, placed, c + 1);
            either_holds(a, b, p);
            found_is_below(chord, instrument, next, 0, p);
            found_is_below(chord, instrument, placed, c + 1, p);
            candidates_are_the_chord_tones(
                chord,
                instrument.strings[n],
                instrument.strings[n].frets as int,
                fret,
            );
            assert(list.contains(fret));
            if a.contains(p) {
                assert(p[n] == next[n]);
                assert forall|i: int| 0 <= i < n implies p[i] == placed[i] by {
                    assert(p[i] == next[i]);
                }
                assert(p.take(n) =~= placed);
                assert(p[n] == Some(list[c as int]));
            }
            if below(chord, instrument, placed, c, p) {
                assert(p.take(n) =~= placed);
                assert(placement_allowed(chord, instrument, p, n));
                if p[n] is None {
                    assert(below(chord, instrument, placed, c + 1, p));
                } else {
                    let k = choose|k: int|
                        c <= k < list.len() && p[n] == Some(
                            #[trigger] candidates_at(chord, instrument, n)[k],
                        );
                    if k > c {
                        assert(p[n] == Some(candidates_at(chord, instrument, n)[k]));
                        assert(below(chord, instrument, placed, c + 1, p));
                    } else {
                        assert(p[n] == Some(fret));
                        assert(within_span(placed, fret));
                        assert forall|i: int| 0 <= i < n + 1 implies p[i] == next[i] by {}
                        if n + 1 < p.len() {
                            allowed_is_a_candidate(chord, instrument, p, n + 1);
                        }
                        assert(below(chord, instrument, next, 0, p));
                    }
                }
            }
        } else {
            let next = placed.push(None);
            found_is_below(chord, instrument, next, 0, p);
            if found.contains(p) {
                assert(p[n] == next[n]);
                assert forall|i: int| 0 <= i < n implies p[i] == placed[i] by {
                    assert(p[i] == next[i]);
                }
            }
            if below(chord, instrument, placed, c, p) {
                assert forall|i: int| 0 <= i < n + 1 implies p[i] == next[i] by {}
                if n + 1 < p.len() {
                    allowed_is_a_candidate(chord, instrument, p, n + 1);
                }
                assert(below(chord, instrument, next, 0, p));
            }
        }
    }
}

/// The search finds the admissible fingerings of the chord that it searches,
/// each of them and nothing else.
pub proof fn search_finds_the_admissible(
    chord: Chord,
    instrument: InstrumentView,
    p: Seq<Option<usize>>,
)
    ensures
        fingerings_of(chord, instrument).contains(p) <==> admissible(
            effective_chord(chord, instrument),
            instrument,
            p,
        ),
{
    let searched = effective_chord(chord, instrument);
    found_is_below(searched, instrument, Seq::empty(), 0, p);
    if admissible(searched, instrument, p) && p.len() > 0 {
        allowed_is_a_candidate(searched, instrument, p, 0);
    }
}

/// Whether one of the strings sounds the pitch `v` under the placements `p`.
pub open spec fn sounds(strings: Seq<Corda>, p: Seq<Option<usize>>, v: i128) -> bool {
    exists|i: int| 0 <= i < p.len() && plays(strings, #[trigger] p[i], i, v)
}

/// Whether the placement `x` of string `i` sounds the pitch `v`.
pub open spec fn plays(strings: Seq<Corda>, x: Option<usize>, i: int, v: i128) -> bool {
    match x {
        Some(fret) => sounded_pitch(strings[i], fret) as i128 == v,
        None => false,
    }
}

/// The pitches that the validator judges are the pitches that the strings
/// sound; the first of them is the lowest note of the fingering.
pub proof fn notes_are_what_sounds(strings: Seq<Corda>, p: Seq<Option<usize>>, v: i128)
    ensures
        ascending(sorted_pitches(strings, p)),
        sorted_pitches(strings, p).contains(v) <==> sounds(strings, p, v),
    decreases p.len(),
{
    if p.len() > 0 {
        let q = p.drop_last();
        let last = p.len() - 1;
        notes_are_what_sounds(strings, q, v);
        let rest = sorted_pitches(strings, q);
        assert forall|i: int| 0 <= i < q.len() implies q[i] == p[i] by {}
        if let Some(fret) = p.last() {
            let x = sounded_pitch(strings[last], fret) as i128;
            with_item_ascends(rest, x);
            with_item_holds(rest, x, v);
        }
        if sounds(strings, q, v) {
            let i = choose|i: int| 0 <= i < q.len() && plays(strings, #[trigger] q[i], i, v);
            assert(plays(strings, p[i], i, v));
        }
        if plays(strings, p[last], last, v) {
            assert(sounds(strings, p, v));
        }
        if sounds(strings, p, v) {
            let i = choose|i: int| 0 <= i < p.len() && plays(strings, #[trigger] p[i], i, v);
            if i < last {
                assert(plays(strings, q[i], i, v));
            }
        }
    }
}

} // verus!
