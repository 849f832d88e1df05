//! The search for the fingerings of a chord on an instrument.
//!
//! The strings are taken from the lowest to the highest. On each string the
//! frets that sound a tone of the chord are tried in ascending order, and
//! muting the string is tried last, so the fingerings come out in the order
//! of a dictionary in which a lower fret stands before a higher one and
//! every fret before a mute.

use vstd::prelude::*;
use vstd::string::StringExecFns;
use sorted_vec::SortedVec;
use crate::chord::Chord;
use crate::chord::contains_key;
use crate::fingering::Fingering;
use crate::instrument::Corda;
use crate::instrument::InstrumentView;
use crate::instrument::StringInstrument;
use crate::key::Key;
use crate::key::key_at;
use crate::note::pitch_class;
use crate::ordered::rank;
use crate::ordered::with_item;
use crate::ordered::rank_splits;
use crate::ordered::with_item_ascends;
use crate::ordered::with_item_holds;
use crate::ordered::one_way_to_insert;
use crate::ordered::taking_out_restores;
use crate::sorted::ascending;
use crate::sorted::sorted_items;
use crate::sorted::sorted_new;
use crate::sorted::sorted_push;
use crate::sorted::sorted_remove_item;
use crate::sorted::sorted_as_vec;

verus! {

/// How far apart, in frets, two pressed strings of one fingering may be.
pub const MAX_DISPLACEMENT: usize = 4;

/// The absolute pitch that `string` sounds when pressed at `fret`.
pub open spec fn sounded_pitch(string: Corda, fret: usize) -> int {
    string.note.spec_ordinal() + fret
}

/// The pitch class that `string` sounds when pressed at `fret`.
pub open spec fn sounded_key(string: Corda, fret: usize) -> Key {
    pitch_class(sounded_pitch(string, fret))
}

/// Whether `string` pressed at `fret` sounds a tone of the chord or its bass.
pub open spec fn is_candidate(chord: Chord, string: Corda, fret: usize) -> bool {
    chord.spec_keys_with_bass().contains(sounded_key(string, fret))
}

/// The candidates among the frets below `n`, in ascending order.
pub open spec fn candidates_upto(chord: Chord, string: Corda, n: int) -> Seq<usize>
    decreases n,
{
    if n <= 0 {
        Seq::empty()
    } else if is_candidate(chord, string, (n - 1) as usize) {
        candidates_upto(chord, string, n - 1).push((n - 1) as usize)
    } else {
        candidates_upto(chord, string, n - 1)
    }
}

/// The frets of `string` that sound a tone of the chord or its bass, in
/// ascending order.
pub open spec fn candidates_of(chord: Chord, string: Corda) -> Seq<usize> {
    candidates_upto(chord, string, string.frets as int)
}

/// The pitches that the placements `p` sound on `strings`, from the lowest to
/// the highest; a pitch that several strings sound stands once for each.
pub open spec fn sorted_pitches(strings: Seq<Corda>, p: Seq<Option<usize>>) -> Seq<i128>
    decreases p.len(),
{
    if p.len() == 0 {
        Seq::empty()
    } else {
        let rest = sorted_pitches(strings, p.drop_last());
        match p.last() {
            Some(f) => with_item(rest, sounded_pitch(strings[p.len() - 1], f) as i128),
            None => rest,
        }
    }
}

/// The frets above zero among the placements `p`, from the lowest to the
/// highest; a fret that several strings are pressed at stands once for each.
pub open spec fn sorted_frets(p: Seq<Option<usize>>) -> Seq<i128>
    decreases p.len(),
{
    if p.len() == 0 {
        Seq::empty()
    } else {
        let rest = sorted_frets(p.drop_last());
        match p.last() {
            Some(f) => if f > 0 {
                with_item(rest, f as i128)
            } else {
                rest
            },
            None => rest,
        }
    }
}

/// Whether the placement `x` presses a fret above zero, and that fret is `v`.
pub open spec fn pressed_at(x: Option<usize>, v: i128) -> bool {
    match x {
        Some(f) => f > 0 && f as i128 == v,
        None => false,
    }
}

/// The span guard: `fret` may follow the placements `placed` if it is the
/// open string, or if every string pressed so far is within
/// `MAX_DISPLACEMENT` frets of it.
pub open spec fn within_span(placed: Seq<Option<usize>>, fret: usize) -> bool {
    fret == 0 || forall|i: int|
        0 <= i < placed.len() ==> match #[trigger] placed[i] {
            Some(f) => f == 0 || (f <= fret + MAX_DISPLACEMENT && fret <= f + MAX_DISPLACEMENT),
            None => true,
        }
}

/// The sounded pitches are ascending, and as many as the strings played.
pub proof fn sorted_pitches_ascend(strings: Seq<Corda>, p: Seq<Option<usize>>)
    ensures
        ascending(sorted_pitches(strings, p)),
        sorted_pitches(strings, p).len() <= p.len(),
        sorted_pitches(strings, p).len() == 0 <==> (forall|i: int|
            0 <= i < p.len() ==> (#[trigger] p[i]) is None),
    decreases p.len(),
{
    if p.len() > 0 {
        let q = p.drop_last();
        sorted_pitches_ascend(strings, q);
        let rest = sorted_pitches(strings, q);
        match p.last() {
            Some(f) => {
                with_item_ascends(rest, sounded_pitch(strings[p.len() - 1], f) as i128);
                assert(p[p.len() - 1] is Some);
            },
            None => {
                assert forall|i: int| 0 <= i < q.len() implies q[i] == p[i] by {}
                if forall|i: int| 0 <= i < q.len() ==> (#[trigger] q[i]) is None {
                    assert forall|i: int| 0 <= i < p.len() implies (#[trigger] p[i]) is None by {
                        if i < q.len() {
                            assert(q[i] is None);
                        }
                    }
                } else {
                    let i = choose|i: int| 0 <= i < q.len() && !((#[trigger] q[i]) is None);
                    assert(p[i] is Some);
                }
            },
        }
    }
}

/// The pressed frets are ascending, and they are the frets above zero of the
/// placements.
pub proof fn sorted_frets_hold(p: Seq<Option<usize>>)
    ensures
        ascending(sorted_frets(p)),
        forall|v: i128| #[trigger]
            sorted_frets(p).contains(v) <==> exists|i: int|
                0 <= i < p.len() && pressed_at(#[trigger] p[i], v),
    decreases p.len(),
{
    if p.len() > 0 {
        let q = p.drop_last();
        sorted_frets_hold(q);
        let rest = sorted_frets(q);
        let last = p.len() - 1;
        assert forall|i: int| 0 <= i < q.len() implies q[i] == p[i] by {}
        let added: Option<i128> = match p.last() {
            Some(f) => if f > 0 {
                Some(f as i128)
            } else {
                None
            },
            None => None,
        };
        if let Some(x) = added {
            with_item_ascends(rest, x);
        }
        assert forall|v: i128| #[trigger]
            sorted_frets(p).contains(v) <==> exists|i: int|
                0 <= i < p.len() && pressed_at(#[trigger] p[i], v) by {
            if let Some(x) = added {
                with_item_holds(rest, x, v);
            }
            let in_q = exists|i: int|
                0 <= i < q.len() && pressed_at(#[trigger] q[i], v);
            let in_p = exists|i: int|
                0 <= i < p.len() && pressed_at(#[trigger] p[i], v);
            assert(rest.contains(v) <==> in_q);
            if in_q {
                let i = choose|i: int|
                    0 <= i < q.len() && pressed_at(#[trigger] q[i], v);
                assert(p[i] == q[i]);
                assert(in_p);
            }
            if added == Some(v) {
                assert(pressed_at(p[last], v));
                assert(in_p);
            }
            if in_p {
                let i = choose|i: int|
                    0 <= i < p.len() && pressed_at(#[trigger] p[i], v);
                if i < last {
                    assert(q[i] == p[i]);
                    assert(in_q);
                } else {
                    assert(added == Some(v));
                }
            }
        }
    }
}

/// The pitch class that `string` sounds when pressed at `fret`.
pub fn sounded_key_of(string: &Corda, fret: usize) -> (r: Key)
    ensures
        r == sounded_key(*string, fret),
{
    proof {
        string.note.ordinal_is_representable();
    }
    let open: usize = string.note.key().ordinal();
    let shift: usize = fret % 12;
    let ghost pitch = sounded_pitch(*string, fret);
    assert(pitch % 12 == (open + shift) % 12) by {
        assert(pitch == string.note.spec_key().spec_ordinal() + 12 * string.note.spec_octave()
            + fret);
    }
    Key::from_ordinal((open + shift) % 12)
}

/// The absolute pitch that `string` sounds when pressed at `fret`.
pub fn sounded_pitch_of(string: &Corda, fret: usize) -> (r: i128)
    ensures
        r == sounded_pitch(*string, fret),
{
    let open: i64 = string.note.ordinal();
    open as i128 + fret as i128
}

/// The pitch class of an absolute pitch.
pub fn key_of_pitch(pitch: i128) -> (r: Key)
    ensures
        r == pitch_class(pitch as int),
{
    let mut m: i128 = pitch % 12;
    if m < 0 {
        m = m + 12;
    }
    assert(m == (pitch as int) % 12);
    Key::from_ordinal(m as usize)
}

/// The frets of `string` that sound one of `keys`, in ascending order.
pub fn string_candidates(chord: &Chord, keys: &Vec<Key>, string: &Corda) -> (r: Vec<usize>)
    requires
        keys@ == chord.spec_keys_with_bass(),
    ensures
        r@ == candidates_of(*chord, *string),
{
    let mut out: Vec<usize> = Vec::new();
    let mut fret: usize = 0;
    while fret < string.frets
        invariant
            fret <= string.frets,
            keys@ == chord.spec_keys_with_bass(),
            out@ == candidates_upto(*chord, *string, fret as int),
        decreases string.frets - fret,
    {
        if contains_key(keys, sounded_key_of(string, fret)) {
            out.push(fret);
        }
        fret = fret + 1;
    }
    out
}

/// A copy of a sequence of placements.
pub fn copy_placements(p: &Vec<Option<usize>>) -> (r: Vec<Option<usize>>)
    ensures
        r@ == p@,
{
    let mut out: Vec<Option<usize>> = Vec::new();
    let mut i: usize = 0;
    while i < p.len()
        invariant
            i <= p@.len(),
            out@ == p@.subrange(0, i as int),
        decreases p@.len() - i,
    {
        out.push(p[i]);
        i = i + 1;
        assert(out@ =~= p@.subrange(0, i as int));
    }
    assert(out@ =~= p@);
    out
}

/// The state of one search: the placements chosen so far, one for each of
/// the first strings, with the frets pressed and the pitches sounded kept in
/// ascending order beside them.
pub struct BacktrackState {
    instrument: StringInstrument,
    chord_keys: Vec<Key>,
    placements: Vec<Option<usize>>,
    sorted_placements: SortedVec<i128>,
    sorted_notes: SortedVec<i128>,
}

impl BacktrackState {
    /// The instrument that is searched.
    pub closed spec fn spec_instrument(&self) -> InstrumentView {
        self.instrument@
    }

    /// The pitch classes that a fingering has to cover.
    pub closed spec fn spec_chord_keys(&self) -> Seq<Key> {
        self.chord_keys@
    }

    /// The placements chosen so far.
    pub closed spec fn spec_placements(&self) -> Seq<Option<usize>> {
        self.placements@
    }

    /// The pitches sounded so far, in ascending order.
    pub closed spec fn spec_notes(&self) -> Seq<i128> {
        sorted_items(self.sorted_notes)
    }

    /// The state is in order: no more placements than strings, and the two
    /// sorted vectors hold what the placements say.
    pub closed spec fn wf(&self) -> bool {
        &&& self.placements@.len() <= self.instrument@.strings.len()
        &&& sorted_items(self.sorted_notes) == sorted_pitches(
            self.instrument@.strings,
            self.placements@,
        )
        &&& sorted_items(self.sorted_placements) == sorted_frets(self.placements@)
    }

    /// In a state that is in order the sounded pitches are those of the
    /// placements.
    pub proof fn notes_follow_placements(&self)
        requires
            self.wf(),
        ensures
            self.spec_notes() == sorted_pitches(self.spec_instrument().strings, self.spec_placements()),
            self.spec_placements().len() <= self.spec_instrument().strings.len(),
    {
    }

    /// The state before the first string is decided.
    pub fn starting(chord: &Chord, instrument: &StringInstrument) -> (r: BacktrackState)
        ensures
            r.wf(),
            r.spec_placements() == Seq::<Option<usize>>::empty(),
            r.spec_instrument() == instrument@,
            r.spec_chord_keys() == chord.spec_keys(),
    {
        BacktrackState {
            instrument: instrument.duplicate(),
            chord_keys: chord.keys(),
            placements: Vec::new(),
            sorted_placements: sorted_new(),
            sorted_notes: sorted_new(),
        }
    }

    /// Decides the next string: muted, or pressed at a fret.
    pub fn push_placement(&mut self, placement: Option<usize>)
        requires
            old(self).wf(),
            old(self).spec_placements().len() < old(self).spec_instrument().strings.len(),
        ensures
            final(self).wf(),
            final(self).spec_placements() == old(self).spec_placements().push(placement),
            final(self).spec_instrument() == old(self).spec_instrument(),
            final(self).spec_chord_keys() == old(self).spec_chord_keys(),
    {
        let ghost before = self.placements@;
        let ghost strings = self.instrument@.strings;
        self.placements.push(placement);
        assert(self.placements@.drop_last() =~= before);
        if let Some(fret) = placement {
            let index: usize = self.placements.len() - 1;
            let pitch: i128 = sounded_pitch_of(&self.instrument.strings()[index], fret);
            if fret > 0 {
                proof {
                    sorted_frets_hold(before);
                }
                let at: usize = sorted_push(&mut self.sorted_placements, fret as i128);
                proof {
                    one_way_to_insert(sorted_frets(before), at as int, fret as i128);
                }
            }
            proof {
                sorted_pitches_ascend(strings, before);
            }
            let at: usize = sorted_push(&mut self.sorted_notes, pitch);
            proof {
                one_way_to_insert(sorted_pitches(strings, before), at as int, pitch);
            }
        }
    }

    /// Takes back the last decision, where there is one.
    pub fn pop_placement(&mut self)
        requires
            old(self).wf(),
        ensures
            final(self).wf(),
            final(self).spec_placements() == if old(self).spec_placements().len() > 0 {
                old(self).spec_placements().drop_last()
            } else {
                old(self).spec_placements()
            },
            final(self).spec_instrument() == old(self).spec_instrument(),
            final(self).spec_chord_keys() == old(self).spec_chord_keys(),
    {
        let ghost before = self.placements@;
        let ghost strings = self.instrument@.strings;
        let popped: Option<Option<usize>> = self.placements.pop();
        if let Some(Some(fret)) = popped {
            let ghost rest = before.drop_last();
            assert(self.placements@ =~= rest);
            let index: usize = self.placements.len();
            let pitch: i128 = sounded_pitch_of(&self.instrument.strings()[index], fret);
            if fret > 0 {
                proof {
                    sorted_frets_hold(rest);
                    rank_splits(sorted_frets(rest), fret as i128);
                }
                let ghost held = sorted_items(self.sorted_placements);
                assert(held[rank(sorted_frets(rest), fret as i128)] == fret as i128);
                let taken: Option<i128> = sorted_remove_item(
                    &mut self.sorted_placements,
                    fret as i128,
                );
                proof {
                    let i = choose|i: int|
                        0 <= i < held.len() && #[trigger] held[i] == fret as i128 && sorted_items(
                            self.sorted_placements,
                        ) == held.remove(i);
                    taking_out_restores(sorted_frets(rest), fret as i128, i);
                }
            }
            proof {
                sorted_pitches_ascend(strings, rest);
                rank_splits(sorted_pitches(strings, rest), pitch);
            }
            let ghost held = sorted_items(self.sorted_notes);
            assert(held[rank(sorted_pitches(strings, rest), pitch)] == pitch);
            let taken: Option<i128> = sorted_remove_item(&mut self.sorted_notes, pitch);
            proof {
                let i = choose|i: int|
                    0 <= i < held.len() && #[trigger] held[i] == pitch && sorted_items(
                        self.sorted_notes,
                    ) == held.remove(i);
                taking_out_restores(sorted_pitches(strings, rest), pitch, i);
            }
        } else if popped.is_some() {
            assert(self.placements@ =~= before.drop_last());
        }
    }

    /// The lowest fret above zero that is pressed so far.
    pub fn first_fingered_placement(&self) -> (r: Option<usize>)
        requires
            self.wf(),
        ensures
            r == lowest_pressed(self.spec_placements()),
    {
        let frets: &Vec<i128> = sorted_as_vec(&self.sorted_placements);
        proof {
            sorted_frets_hold(self.placements@);
            lowest_pressed_is_first(self.placements@);
        }
        if frets.len() == 0 {
            None
        } else {
            let low: i128 = frets[0];
            assert(frets@.contains(low));
            Some(low as usize)
        }
    }

    /// The highest fret above zero that is pressed so far.
    pub fn last_fingered_placement(&self) -> (r: Option<usize>)
        requires
            self.wf(),
        ensures
            r == highest_pressed(self.spec_placements()),
    {
        let frets: &Vec<i128> = sorted_as_vec(&self.sorted_placements);
        proof {
            sorted_frets_hold(self.placements@);
            highest_pressed_is_last(self.placements@);
        }
        if frets.len() == 0 {
            None
        } else {
            let high: i128 = frets[frets.len() - 1];
            assert(frets@.contains(high));
            Some(high as usize)
        }
    }
}

/// The lowest fret above zero among the placements.
pub open spec fn lowest_pressed(p: Seq<Option<usize>>) -> Option<usize> {
    if sorted_frets(p).len() == 0 {
        None
    } else {
        Some(sorted_frets(p).first() as usize)
    }
}

/// The highest fret above zero among the placements.
pub open spec fn highest_pressed(p: Seq<Option<usize>>) -> Option<usize> {
    if sorted_frets(p).len() == 0 {
        None
    } else {
        Some(sorted_frets(p).last() as usize)
    }
}

/// Whether the placement `x` presses a fret above zero.
pub open spec fn is_pressed(x: Option<usize>) -> bool {
    match x {
        Some(f) => f > 0,
        None => false,
    }
}

/// `lowest_pressed` is `None` exactly where no string is pressed; else it is
/// a pressed fret, and no pressed fret is lower.
pub proof fn lowest_pressed_is_first(p: Seq<Option<usize>>)
    ensures
        match lowest_pressed(p) {
            None => forall|i: int| 0 <= i < p.len() ==> !is_pressed(#[trigger] p[i]),
            Some(low) => low > 0 && (exists|i: int| 0 <= i < p.len() && #[trigger] p[i] == Some(low))
                && forall|i: int|
                0 <= i < p.len() && is_pressed(#[trigger] p[i]) ==> low <= p[i].unwrap(),
        },
{
    sorted_frets_hold(p);
    let s = sorted_frets(p);
    if s.len() == 0 {
        assert forall|i: int| 0 <= i < p.len() implies !is_pressed(#[trigger] p[i]) by {
            if is_pressed(p[i]) {
                let v = p[i].unwrap() as i128;
                assert(pressed_at(p[i], v));
                assert(s.contains(v));
            }
        }
    } else {
        let v = s[0];
        assert(s.contains(v));
        let k = choose|k: int| 0 <= k < p.len() && pressed_at(#[trigger] p[k], v);
        assert(p[k] == Some(v as usize));
        assert forall|i: int| 0 <= i < p.len() && is_pressed(#[trigger] p[i]) implies v as usize
            <= p[i].unwrap() by {
            let w = p[i].unwrap() as i128;
            assert(pressed_at(p[i], w));
            assert(s.contains(w));
            let j = choose|j: int| 0 <= j < s.len() && s[j] == w;
            assert(s[0] <= s[j]);
        }
    }
}

/// `highest_pressed` is `None` exactly where no string is pressed; else it
/// is a pressed fret, and no pressed fret is higher.
pub proof fn highest_pressed_is_last(p: Seq<Option<usize>>)
    ensures
        match highest_pressed(p) {
            None => forall|i: int| 0 <= i < p.len() ==> !is_pressed(#[trigger] p[i]),
            Some(high) => high > 0 && (exists|i: int|
                0 <= i < p.len() && #[trigger] p[i] == Some(high)) && forall|i: int|
                0 <= i < p.len() && is_pressed(#[trigger] p[i]) ==> p[i].unwrap() <= high,
        },
{
    sorted_frets_hold(p);
    let s = sorted_frets(p);
    if s.len() == 0 {
        assert forall|i: int| 0 <= i < p.len() implies !is_pressed(#[trigger] p[i]) by {
            if is_pressed(p[i]) {
                let v = p[i].unwrap() as i128;
                assert(pressed_at(p[i], v));
                assert(s.contains(v));
            }
        }
    } else {
        let v = s[s.len() - 1];
        assert(s.contains(v));
        let k = choose|k: int| 0 <= k < p.len() && pressed_at(#[trigger] p[k], v);
        assert(p[k] == Some(v as usize));
        assert forall|i: int| 0 <= i < p.len() && is_pressed(#[trigger] p[i]) implies p[i].unwrap()
            <= v as usize by {
            let w = p[i].unwrap() as i128;
            assert(pressed_at(p[i], w));
            assert(s.contains(w));
            let j = choose|j: int| 0 <= j < s.len() && s[j] == w;
            assert(s[j] <= s[s.len() - 1]);
        }
    }
}

/// Whether `fret` may follow the placements of `state`: it is the open
/// string, or it is at most `MAX_DISPLACEMENT` frets above the lowest
/// pressed fret and at most as many below the highest.
pub fn is_in_range(state: &BacktrackState, fret: &usize) -> (r: bool)
    requires
        state.wf(),
    ensures
        r == within_span(state.spec_placements(), *fret),
{
    let ghost p = state.spec_placements();
    proof {
        lowest_pressed_is_first(p);
        highest_pressed_is_last(p);
    }
    let Some(min) = state.first_fingered_placement() else {
        assert(within_span(p, *fret)) by {
            assert forall|i: int| 0 <= i < p.len() implies match #[trigger] p[i] {
                Some(f) => f == 0 || (f <= *fret + MAX_DISPLACEMENT && *fret <= f
                    + MAX_DISPLACEMENT),
                None => true,
            } by {
                assert(!is_pressed(p[i]));
            }
        }
        return true;
    };
    let Some(max) = state.last_fingered_placement() else {
        return true;
    };
    let r: bool = *fret == 0 || ((max <= MAX_DISPLACEMENT || *fret >= max - MAX_DISPLACEMENT)
        && (*fret <= MAX_DISPLACEMENT || *fret - MAX_DISPLACEMENT <= min));
    proof {
        if r && *fret != 0 {
            assert forall|i: int| 0 <= i < p.len() implies match #[trigger] p[i] {
                Some(f) => f == 0 || (f <= *fret + MAX_DISPLACEMENT && *fret <= f
                    + MAX_DISPLACEMENT),
                None => true,
            } by {
                if is_pressed(p[i]) {
                    assert(min <= p[i].unwrap() <= max);
                }
            }
        }
        if within_span(p, *fret) && *fret != 0 {
            let a = choose|i: int| 0 <= i < p.len() && #[trigger] p[i] == Some(min);
            let b = choose|i: int| 0 <= i < p.len() && #[trigger] p[i] == Some(max);
            assert(p[a] == Some(min));
            assert(p[b] == Some(max));
        }
    }
    r
}

/// Why a full assignment of the strings is no fingering of the chord.
#[derive(Debug, Clone, Copy, PartialEq, Eq, Structural)]
pub enum Rejection {
    /// Every string is muted.
    NoNotes,
    /// The instrument asks for the bass of the chord as the lowest note, and
    /// the lowest note is another.
    BadBass,
    /// The notes miss a tone of the chord, or sound a tone outside it.
    BadNotes,
}

/// How many of the lowest notes are left out when the tones are compared:
/// the lowest one where the bass is not the root, which then only serves as
/// the bass; none where the bass is the root, a tone of the chord.
pub open spec fn notes_left_out(chord: Chord) -> int {
    if chord.root == chord.bass {
        0
    } else {
        1
    }
}

/// Whether one of `notes`, from position `skip` on, sounds the pitch class `key`.
pub open spec fn covers(notes: Seq<i128>, skip: int, key: Key) -> bool {
    exists|t: int| skip <= t < notes.len() && pitch_class(#[trigger] notes[t] as int) == key
}

/// The judgement on the ascending pitches `notes` of a full assignment:
/// `None` where they are a fingering of `chord`, whose tones are `keys`.
pub open spec fn verdict(chord: Chord, keys: Seq<Key>, has_bass: bool, notes: Seq<i128>) -> Option<
    Rejection,
> {
    if notes.len() == 0 {
        Some(Rejection::NoNotes)
    } else if has_bass && pitch_class(notes[0] as int) != chord.bass {
        Some(Rejection::BadBass)
    } else if forall|key: Key| covers(notes, notes_left_out(chord), key) == keys.contains(key) {
        None
    } else {
        Some(Rejection::BadNotes)
    }
}

/// Whether the placements `p`, one for each string, are a fingering of
/// `chord` on the instrument: one string at least is played; where the
/// instrument asks for it, the lowest note is the bass; and the notes, without
/// the lowest one where the bass is not the root, sound each tone of the chord
/// and no other.
pub open spec fn is_valid(chord: Chord, instrument: InstrumentView, p: Seq<Option<usize>>) -> bool {
    verdict(
        chord,
        chord.spec_keys(),
        instrument.has_bass,
        sorted_pitches(instrument.strings, p),
    ) is None
}

/// Every pitch class is the one at its own ordinal.
pub proof fn key_at_inverts_ordinal(key: Key)
    ensures
        0 <= key.spec_ordinal() < 12,
        key_at(key.spec_ordinal()) == key,
{
}

/// For each ordinal, whether the pitch class at it is among `keys`.
fn key_table(keys: &Vec<Key>) -> (r: Vec<bool>)
    ensures
        r@.len() == 12,
        forall|i: int| 0 <= i < 12 ==> r@[i] == keys@.contains(key_at(i)),
{
    let mut table: Vec<bool> = vec![
        false,
        false,
        false,
        false,
        false,
        false,
        false,
        false,
        false,
        false,
        false,
        false,
    ];
    let mut n: usize = 0;
    while n < keys.len()
        invariant
            n <= keys@.len(),
            table@.len() == 12,
            forall|i: int|
                0 <= i < 12 ==> table@[i] == (exists|j: int|
                    0 <= j < n && #[trigger] keys@[j] == key_at(i)),
        decreases keys@.len() - n,
    {
        let key: Key = keys[n];
        let ghost before = table@;
        table.set(key.ordinal(), true);
        proof {
            key_at_inverts_ordinal(key);
            assert forall|i: int| 0 <= i < 12 implies table@[i] == (exists|j: int|
                0 <= j < n + 1 && #[trigger] keys@[j] == key_at(i)) by {
                if i == key.spec_ordinal() {
                    assert(keys@[n as int] == key_at(i));
                } else {
                    assert(table@[i] == before[i]);
                    if exists|j: int| 0 <= j < n + 1 && #[trigger] keys@[j] == key_at(i) {
                        let j = choose|j: int| 0 <= j < n + 1 && #[trigger] keys@[j] == key_at(i);
                        assert(j < n);
                    }
                    if before[i] {
                        let j = choose|j: int| 0 <= j < n && #[trigger] keys@[j] == key_at(i);
                        assert(keys@[j] == key_at(i));
                    }
                }
            }
        }
        n = n + 1;
    }
    proof {
        assert forall|i: int| 0 <= i < 12 implies table@[i] == keys@.contains(key_at(i)) by {
            if keys@.contains(key_at(i)) {
                let j = choose|j: int| 0 <= j < keys@.len() && keys@[j] == key_at(i);
                assert(keys@[j] == key_at(i));
            }
        }
    }
    table
}

/// For each ordinal, whether one of `notes`, from `skip` on, sounds the pitch
/// class at it.
fn pitch_table(notes: &Vec<i128>, skip: usize) -> (r: Vec<bool>)
    ensures
        r@.len() == 12,
        forall|i: int| 0 <= i < 12 ==> r@[i] == covers(notes@, skip as int, key_at(i)),
{
    let mut table: Vec<bool> = vec![
        false,
        false,
        false,
        false,
        false,
        false,
        false,
        false,
        false,
        false,
        false,
        false,
    ];
    let mut n: usize = skip;
    while n < notes.len()
        invariant
            skip <= n,
            table@.len() == 12,
            forall|i: int|
                0 <= i < 12 ==> table@[i] == (exists|t: int|
                    skip <= t < n && t < notes@.len() && pitch_class(#[trigger] notes@[t] as int)
                        == key_at(i)),
        decreases notes@.len() - n,
    {
        let key: Key = key_of_pitch(notes[n]);
        let ghost before = table@;
        table.set(key.ordinal(), true);
        proof {
            key_at_inverts_ordinal(key);
            assert forall|i: int| 0 <= i < 12 implies table@[i] == (exists|t: int|
                skip <= t < n + 1 && t < notes@.len() && pitch_class(#[trigger] notes@[t] as int)
                    == key_at(i)) by {
                if i == key.spec_ordinal() {
                    assert(pitch_class(notes@[n as int] as int) == key_at(i));
                } else {
                    assert(table@[i] == before[i]);
                    if exists|t: int|
                        skip <= t < n + 1 && t < notes@.len() && pitch_class(
                            #[trigger] notes@[t] as int,
                        ) == key_at(i) {
                        let t = choose|t: int|
                            skip <= t < n + 1 && t < notes@.len() && pitch_class(
                                #[trigger] notes@[t] as int,
                            ) == key_at(i);
                        assert(t < n);
                    }
                    if before[i] {
                        let t = choose|t: int|
                            skip <= t < n && t < notes@.len() && pitch_class(
                                #[trigger] notes@[t] as int,
                            ) == key_at(i);
                        assert(pitch_class(notes@[t] as int) == key_at(i));
                    }
                }
            }
        }
        n = n + 1;
    }
    proof {
        assert forall|i: int| 0 <= i < 12 implies table@[i] == covers(
            notes@,
            skip as int,
            key_at(i),
        ) by {
            if covers(notes@, skip as int, key_at(i)) {
                let t = choose|t: int|
                    skip <= t < notes@.len() && pitch_class(#[trigger] notes@[t] as int) == key_at(
                        i,
                    );
                assert(pitch_class(notes@[t] as int) == key_at(i));
            }
            if table@[i] {
                let t = choose|t: int|
                    skip <= t < n && t < notes@.len() && pitch_class(#[trigger] notes@[t] as int)
                        == key_at(i);
                assert(pitch_class(notes@[t] as int) == key_at(i));
            }
        }
    }
    table
}

/// Whether two tables agree at every ordinal.
fn same_table(a: &Vec<bool>, b: &Vec<bool>) -> (r: bool)
    requires
        a@.len() == 12,
        b@.len() == 12,
    ensures
        r == (forall|i: int| 0 <= i < 12 ==> a@[i] == b@[i]),
{
    let mut i: usize = 0;
    while i < 12
        invariant
            i <= 12,
            a@.len() == 12,
            b@.len() == 12,
            forall|j: int| 0 <= j < i ==> a@[j] == b@[j],
        decreases 12 - i,
    {
        if a[i] != b[i] {
            return false;
        }
        i = i + 1;
    }
    true
}

/// Judges the placements of `state`: the fingering that they are, or why
/// they are none.
pub fn get_valid_fingering(
    chord: &Chord,
    instrument: &StringInstrument,
    state: &BacktrackState,
) -> (r: Result<Fingering, Rejection>)
    requires
        state.wf(),
    ensures
        match r {
            Ok(fingering) => verdict(
                *chord,
                state.spec_chord_keys(),
                instrument@.has_bass,
                state.spec_notes(),
            ) is None && fingering.spec_placements() == state.spec_placements()
                && fingering.spec_instrument_id() == state.spec_instrument().id,
            Err(why) => verdict(
                *chord,
                state.spec_chord_keys(),
                instrument@.has_bass,
                state.spec_notes(),
            ) == Some(why),
        },
{
    let notes: &Vec<i128> = sorted_as_vec(&state.sorted_notes);
    if notes.len() == 0 {
        return Err(Rejection::NoNotes);
    }
    let bass: Key = key_of_pitch(notes[0]);
    if instrument.has_bass() && bass != chord.bass {
        return Err(Rejection::BadBass);
    }
    let skip: usize = if chord.root == chord.bass {
        0
    } else {
        1
    };
    let sounded: Vec<bool> = pitch_table(notes, skip);
    let wanted: Vec<bool> = key_table(&state.chord_keys);
    let same: bool = same_table(&sounded, &wanted);
    proof {
        let keys = state.chord_keys@;
        if same {
            assert forall|key: Key| covers(notes@, skip as int, key) == keys.contains(key) by {
                key_at_inverts_ordinal(key);
                assert(sounded@[key.spec_ordinal()] == wanted@[key.spec_ordinal()]);
            }
        } else {
            let i = choose|i: int| 0 <= i < 12 && sounded@[i] != wanted@[i];
            assert(covers(notes@, skip as int, key_at(i)) != keys.contains(key_at(i)));
        }
    }
    if same {
        Ok(
            Fingering::new(
                String::from_str(state.instrument.id()),
                copy_placements(&state.placements),
            ),
        )
    } else {
        Err(Rejection::BadNotes)
    }
}

/// The candidates of the string at position `n`; none where there is no such string.
pub open spec fn candidates_at(chord: Chord, instrument: InstrumentView, n: int) -> Seq<usize> {
    if 0 <= n < instrument.strings.len() {
        candidates_of(chord, instrument.strings[n])
    } else {
        Seq::empty()
    }
}

/// What the search finds below the placements `placed`, from the candidate
/// at position `c` of the next string on, in the order in which it finds it.
///
/// Where every string is decided, that is `placed` itself if it is a
/// fingering of the chord. Else the candidate at `c` is tried where the span
/// guard admits it, then the candidates after it; after the last candidate
/// the string is muted.
pub open spec fn found_at(
    chord: Chord,
    instrument: InstrumentView,
    placed: Seq<Option<usize>>,
    c: nat,
) -> Seq<Seq<Option<usize>>>
    decreases instrument.strings.len() - placed.len(),
        candidates_at(chord, instrument, placed.len() as int).len() - c,
{
    if placed.len() >= instrument.strings.len() {
        if is_valid(chord, instrument, placed) {
            seq![placed]
        } else {
            Seq::empty()
        }
    } else {
        let candidates = candidates_at(chord, instrument, placed.len() as int);
        if c < candidates.len() {
            let fret = candidates[c as int];
            let below = if within_span(placed, fret) {
                found_at(chord, instrument, placed.push(Some(fret)), 0)
            } else {
                Seq::empty()
            };
            below + found_at(chord, instrument, placed, c + 1)
        } else {
            found_at(chord, instrument, placed.push(None), 0)
        }
    }
}

/// The chord that is searched in place of `chord` on the instrument. An
/// instrument without a dedicated bass takes the root as the bass; one with
/// fewer than four strings takes the simpler quality where there is one, with
/// the root as the bass.
pub open spec fn effective_chord(chord: Chord, instrument: InstrumentView) -> Chord {
    let rooted = if !instrument.has_bass && chord.bass != chord.root {
        Chord { root: chord.root, variant: chord.variant, bass: chord.root }
    } else {
        chord
    };
    if instrument.strings.len() < 4 {
        match rooted.variant.spec_simplified() {
            Some(simpler) => Chord { root: rooted.root, variant: simpler, bass: rooted.root },
            None => rooted,
        }
    } else {
        rooted
    }
}

/// The fingerings of `chord` on the instrument, as placements, in the order
/// in which the search finds them.
pub open spec fn fingerings_of(chord: Chord, instrument: InstrumentView) -> Seq<
    Seq<Option<usize>>,
> {
    found_at(effective_chord(chord, instrument), instrument, Seq::empty(), 0)
}

/// Whether `after` is `before` followed by one fingering for each of the
/// placements `added`, in their order, each for the instrument `id`.
pub open spec fn extends_by(
    before: Seq<Fingering>,
    after: Seq<Fingering>,
    id: Seq<char>,
    added: Seq<Seq<Option<usize>>>,
) -> bool {
    &&& after.len() == before.len() + added.len()
    &&& forall|i: int| 0 <= i < before.len() ==> after[i] == before[i]
    &&& forall|j: int|
        0 <= j < added.len() ==> (#[trigger] after[before.len() + j]).spec_placements() == added[j]
            && after[before.len() + j].spec_instrument_id() == id
}

/// Whether `fingerings` is what the search returns for `chord` on the
/// instrument: the fingerings of `fingerings_of`, in that order, each for
/// this instrument.
pub open spec fn is_search_result(
    chord: Chord,
    instrument: InstrumentView,
    fingerings: Seq<Fingering>,
) -> bool {
    extends_by(Seq::empty(), fingerings, instrument.id, fingerings_of(chord, instrument))
}

/// Whether `lists` holds, for each string of the instrument, its candidates.
pub open spec fn candidates_match(
    chord: Chord,
    instrument: InstrumentView,
    lists: Seq<Vec<usize>>,
) -> bool {
    &&& lists.len() == instrument.strings.len()
    &&& forall|i: int|
        0 <= i < lists.len() ==> (#[trigger] lists[i])@ == candidates_of(
            chord,
            instrument.strings[i],
        )
}

/// Two extensions in a row are one extension by both.
pub proof fn extends_twice(
    a: Seq<Fingering>,
    b: Seq<Fingering>,
    c: Seq<Fingering>,
    id: Seq<char>,
    x: Seq<Seq<Option<usize>>>,
    y: Seq<Seq<Option<usize>>>,
)
    requires
        extends_by(a, b, id, x),
        extends_by(b, c, id, y),
    ensures
        extends_by(a, c, id, x + y),
{
    assert forall|i: int| 0 <= i < a.len() implies c[i] == a[i] by {
        assert(c[i] == b[i]);
    }
    assert forall|j: int| 0 <= j < (x + y).len() implies (#[trigger] c[a.len() + j]).spec_placements()
        == (x + y)[j] && c[a.len() + j].spec_instrument_id() == id by {
        if j < x.len() {
            assert(c[a.len() + j] == b[a.len() + j]);
        } else {
            assert(c[a.len() + j] == c[b.len() + (j - x.len())]);
        }
    }
}

/// Decides the next string as `fret`, searches below that decision, and
/// takes the decision back.
pub fn backtrap_step(
    chord: &Chord,
    instrument: &StringInstrument,
    found_fingerings: &mut Vec<Fingering>,
    candidates: &Vec<Vec<usize>>,
    state: &mut BacktrackState,
    fret: Option<usize>,
)
    requires
        old(state).wf(),
        old(state).spec_instrument() == instrument@,
        old(state).spec_chord_keys() == chord.spec_keys(),
        old(state).spec_placements().len() < instrument@.strings.len(),
        candidates_match(*chord, instrument@, candidates@),
    ensures
        final(state).wf(),
        final(state).spec_placements() == old(state).spec_placements(),
        final(state).spec_instrument() == old(state).spec_instrument(),
        final(state).spec_chord_keys() == old(state).spec_chord_keys(),
        extends_by(
            old(found_fingerings)@,
            final(found_fingerings)@,
            instrument@.id,
            found_at(*chord, instrument@, old(state).spec_placements().push(fret), 0),
        ),
    decreases instrument@.strings.len() - old(state).spec_placements().len(), 0nat,
{
    state.push_placement(fret);
    finder_backtrack(chord, instrument, found_fingerings, candidates, state);
    state.pop_placement();
    assert(state.spec_placements() =~= old(state).spec_placements());
}

/// Searches below the placements of `state` and appends what it finds to
/// `found_fingerings`; `state` is left as it was.
pub fn finder_backtrack(
    chord: &Chord,
    instrument: &StringInstrument,
    found_fingerings: &mut Vec<Fingering>,
    candidates: &Vec<Vec<usize>>,
    state: &mut BacktrackState,
)
    requires
        old(state).wf(),
        old(state).spec_instrument() == instrument@,
        old(state).spec_chord_keys() == chord.spec_keys(),
        candidates_match(*chord, instrument@, candidates@),
    ensures
        final(state).wf(),
        final(state).spec_placements() == old(state).spec_placements(),
        final(state).spec_instrument() == old(state).spec_instrument(),
        final(state).spec_chord_keys() == old(state).spec_chord_keys(),
        extends_by(
            old(found_fingerings)@,
            final(found_fingerings)@,
            instrument@.id,
            found_at(*chord, instrument@, old(state).spec_placements(), 0),
        ),
    decreases instrument@.strings.len() - old(state).spec_placements().len(), 1nat,
{
    let ghost placed = state.spec_placements();
    let ghost before = found_fingerings@;
    let ghost id = instrument@.id;
    proof {
        state.notes_follow_placements();
    }
    if state.placements.len() >= instrument.strings().len() {
        if let Ok(fingering) = get_valid_fingering(chord, instrument, state) {
            found_fingerings.push(fingering);
            assert(found_fingerings@[before.len() as int + 0] == fingering);
        }
    } else {
        let index: usize = state.placements.len();
        let list: &Vec<usize> = &candidates[index];
        let ghost mut done: Seq<Seq<Option<usize>>> = Seq::empty();
        let mut c: usize = 0;
        assert(list@ == candidates_at(*chord, instrument@, placed.len() as int));
        while c < list.len()
            invariant
                c <= list@.len(),
                list@ == candidates_at(*chord, instrument@, placed.len() as int),
                placed.len() < instrument@.strings.len(),
                placed == old(state).spec_placements(),
                id == instrument@.id,
                state.wf(),
                state.spec_placements() == placed,
                state.spec_instrument() == instrument@,
                state.spec_instrument() == old(state).spec_instrument(),
                state.spec_chord_keys() == chord.spec_keys(),
                state.spec_chord_keys() == old(state).spec_chord_keys(),
                candidates_match(*chord, instrument@, candidates@),
                extends_by(before, found_fingerings@, id, done),
                done + found_at(*chord, instrument@, placed, c as nat) == found_at(
                    *chord,
                    instrument@,
                    placed,
                    0,
                ),
            decreases list@.len() - c,
        {
            let candidate: usize = list[c];
            let ghost rest = found_at(*chord, instrument@, placed, (c + 1) as nat);
            if is_in_range(state, &candidate) {
                let ghost middle = found_fingerings@;
                let ghost below = found_at(*chord, instrument@, placed.push(Some(candidate)), 0);
                backtrap_step(
                    chord,
                    instrument,
                    found_fingerings,
                    candidates,
                    state,
                    Some(candidate),
                );
                proof {
                    extends_twice(before, middle, found_fingerings@, id, done, below);
                    assert((done + below) + rest =~= done + (below + rest));
                    done = done + below;
                }
            } else {
                assert(Seq::<Seq<Option<usize>>>::empty() + rest =~= rest);
            }
            c = c + 1;
        }
        let ghost middle = found_fingerings@;
        let ghost below = found_at(*chord, instrument@, placed.push(None), 0);
        backtrap_step(chord, instrument, found_fingerings, candidates, state, None);
        proof {
            extends_twice(before, middle, found_fingerings@, id, done, below);
        }
    }
}

/// The chord that is searched in place of `chord` on `instrument`.
pub fn downgraded(chord: &Chord, instrument: &StringInstrument) -> (r: Chord)
    ensures
        r == effective_chord(*chord, instrument@),
{
    let rooted: Chord = if !instrument.has_bass() && chord.bass != chord.root {
        Chord::new(chord.root, chord.variant, chord.root)
    } else {
        *chord
    };
    if instrument.strings().len() < 4 {
        match rooted.variant.simplified() {
            Some(simpler) => Chord::new(rooted.root, simpler, rooted.root),
            None => rooted,
        }
    } else {
        rooted
    }
}

/// Every fingering of `chord` on `instrument`, in the order in which the
/// search finds them. A chord that the instrument cannot take as it stands is
/// replaced first, as `effective_chord` says; a chord that cannot be played
/// has no fingering.
pub fn find_fingerings(chord: &Chord, instrument: &StringInstrument) -> (r: Vec<Fingering>)
    ensures
        is_search_result(*chord, instrument@, r@),
        r@.len() == fingerings_of(*chord, instrument@).len(),
        forall|i: int|
            0 <= i < r@.len() ==> (#[trigger] r@[i]).spec_placements() == fingerings_of(
                *chord,
                instrument@,
            )[i] && r@[i].spec_instrument_id() == instrument@.id,
{
    let searched: Chord = downgraded(chord, instrument);
    let chord_keys: Vec<Key> = searched.keys_with_bass();
    let strings: &Vec<Corda> = instrument.strings();
    let mut candidates: Vec<Vec<usize>> = Vec::new();
    let mut i: usize = 0;
    while i < strings.len()
        invariant
            i <= strings@.len(),
            strings@ == instrument@.strings,
            chord_keys@ == searched.spec_keys_with_bass(),
            candidates@.len() == i,
            forall|j: int|
                0 <= j < i ==> (#[trigger] candidates@[j])@ == candidates_of(searched, strings@[j]),
        decreases strings@.len() - i,
    {
        candidates.push(string_candidates(&searched, &chord_keys, &strings[i]));
        i = i + 1;
    }
    let mut state: BacktrackState = BacktrackState::starting(&searched, instrument);
    let mut fingerings: Vec<Fingering> = Vec::new();
    finder_backtrack(&searched, instrument, &mut fingerings, &candidates, &mut state);
    proof {
        let found = fingerings_of(*chord, instrument@);
        assert forall|k: int| 0 <= k < fingerings@.len() implies (
        #[trigger] fingerings@[k]).spec_placements() == found[k]
            && fingerings@[k].spec_instrument_id() == instrument@.id by {
            assert(fingerings@[k] == fingerings@[0 + k]);
        }
    }
    fingerings
}

/// Two results of the search for one chord on one instrument hold the same
/// fingerings in the same order.
pub proof fn search_is_deterministic(
    chord: Chord,
    instrument: InstrumentView,
    first: Seq<Fingering>,
    second: Seq<Fingering>,
)
    requires
        is_search_result(chord, instrument, first),
        is_search_result(chord, instrument, second),
    ensures
        first.len() == second.len(),
        forall|i: int|
            0 <= i < first.len() ==> (#[trigger] first[i]).spec_placements()
                == second[i].spec_placements() && first[i].spec_instrument_id()
                == second[i].spec_instrument_id(),
{
    assert forall|i: int| 0 <= i < first.len() implies (#[trigger] first[i]).spec_placements()
        == second[i].spec_placements() && first[i].spec_instrument_id()
        == second[i].spec_instrument_id() by {
        assert(first[i] == first[0 + i]);
        assert(second[i] == second[0 + i]);
    }
}

/// Replacing a chord settles at once: the chord that is searched is searched
/// as it stands, so the search for a chord is the search for its replacement.
pub proof fn downgrade_settles(chord: Chord, instrument: InstrumentView)
    ensures
        effective_chord(effective_chord(chord, instrument), instrument) == effective_chord(
            chord,
            instrument,
        ),
        fingerings_of(effective_chord(chord, instrument), instrument) == fingerings_of(
            chord,
            instrument,
        ),
{
}

/// On an instrument without a dedicated bass and with fewer than four
/// strings, the chord that is searched has the root as its bass and the
/// simpler quality where there is one.
pub proof fn small_instruments_simplify(chord: Chord, instrument: InstrumentView)
    requires
        !instrument.has_bass,
        instrument.strings.len() < 4,
    ensures
        effective_chord(chord, instrument) == (Chord {
            root: chord.root,
            variant: match chord.variant.spec_simplified() {
                Some(simpler) => simpler,
                None => chord.variant,
            },
            bass: chord.root,
        }),
{
}

} // verus!
