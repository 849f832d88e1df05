//! The ranked fingerings of every plain chord on one instrument.

use vstd::prelude::*;
use crate::chord::Chord;
use crate::finder::extends_by;
use crate::finder::find_fingerings;
use crate::finder::fingerings_of;
use crate::fingering::Fingering;
use crate::instrument::InstrumentView;
use crate::instrument::StringInstrument;
use crate::key::Key;
use crate::key::key_at;
use crate::ranker::reported_penalty;
use crate::variant::Variant;
use crate::variant::variant_at;

verus! {

/// Where `x` goes among the ranked placements `s`: before the first whose
/// penalty is not lower than its own.
pub open spec fn slot(s: Seq<Seq<Option<usize>>>, x: Seq<Option<usize>>) -> int
    decreases s.len(),
{
    if s.len() == 0 || reported_penalty(s[0]) >= reported_penalty(x) {
        0
    } else {
        1 + slot(s.drop_first(), x)
    }
}

/// The placements `s` from the lowest penalty to the highest; those of equal
/// penalty stay in the order in which they stand in `s`.
pub open spec fn ranked(s: Seq<Seq<Option<usize>>>) -> Seq<Seq<Option<usize>>>
    decreases s.len(),
{
    if s.len() == 0 {
        Seq::empty()
    } else {
        let rest = ranked(s.drop_first());
        rest.insert(slot(rest, s[0]), s[0])
    }
}

/// The placements of each fingering.
pub open spec fn placements_of(fingerings: Seq<Fingering>) -> Seq<Seq<Option<usize>>> {
    fingerings.map_values(|f: Fingering| f.spec_placements())
}

/// The instrument of each fingering.
pub open spec fn instruments_of(fingerings: Seq<Fingering>) -> Seq<Seq<char>> {
    fingerings.map_values(|f: Fingering| f.spec_instrument_id())
}

/// Whether the penalties of `s` never fall from one item to the next.
pub open spec fn by_penalty(s: Seq<Seq<Option<usize>>>) -> bool {
    forall|i: int, j: int|
        0 <= i <= j < s.len() ==> reported_penalty(#[trigger] s[i]) <= reported_penalty(
            #[trigger] s[j],
        )
}

/// The slot of `x` is a position of `s`; the items before it have a lower
/// penalty than `x`, and where `s` is ordered the items from it on have none
/// lower.
pub proof fn slot_splits(s: Seq<Seq<Option<usize>>>, x: Seq<Option<usize>>)
    ensures
        0 <= slot(s, x) <= s.len(),
        forall|i: int| 0 <= i < slot(s, x) ==> reported_penalty(#[trigger] s[i]) < reported_penalty(x),
        slot(s, x) < s.len() ==> reported_penalty(s[slot(s, x)]) >= reported_penalty(x),
        by_penalty(s) ==> forall|i: int|
            slot(s, x) <= i < s.len() ==> reported_penalty(#[trigger] s[i]) >= reported_penalty(x),
    decreases s.len(),
{
    if s.len() == 0 || reported_penalty(s[0]) >= reported_penalty(x) {
        if by_penalty(s) {
            assert forall|i: int| 0 <= i < s.len() implies reported_penalty(#[trigger] s[i])
                >= reported_penalty(x) by {
                assert(reported_penalty(s[0]) <= reported_penalty(s[i]));
            }
        }
    } else {
        let t = s.drop_first();
        slot_splits(t, x);
        assert forall|i: int| 0 <= i < slot(s, x) implies reported_penalty(#[trigger] s[i])
            < reported_penalty(x) by {
            if i > 0 {
                assert(s[i] == t[i - 1]);
            }
        }
        if slot(s, x) < s.len() {
            assert(s[slot(s, x)] == t[slot(t, x)]);
        }
        if by_penalty(s) {
            assert(by_penalty(t)) by {
                assert forall|i: int, j: int| 0 <= i <= j < t.len() implies reported_penalty(
                    #[trigger] t[i],
                ) <= reported_penalty(#[trigger] t[j]) by {
                    assert(t[i] == s[i + 1] && t[j] == s[j + 1]);
                }
            }
            assert forall|i: int| slot(s, x) <= i < s.len() implies reported_penalty(
                #[trigger] s[i],
            ) >= reported_penalty(x) by {
                assert(s[i] == t[i - 1]);
            }
        }
    }
}

/// The ranked placements are ordered by penalty, and they are the placements
/// that were ranked: as many, and each as often.
pub proof fn ranked_is_ordered(s: Seq<Seq<Option<usize>>>)
    ensures
        by_penalty(ranked(s)),
        ranked(s).len() == s.len(),
        ranked(s).to_multiset() == s.to_multiset(),
    decreases s.len(),
{
    if s.len() == 0 {
        assert(s =~= ranked(s));
    } else {
        let tail = s.drop_first();
        ranked_is_ordered(tail);
        let rest = ranked(tail);
        let x = s[0];
        slot_splits(rest, x);
        let k = slot(rest, x);
        let r = ranked(s);
        assert forall|i: int, j: int| 0 <= i <= j < r.len() implies reported_penalty(
            #[trigger] r[i],
        ) <= reported_penalty(#[trigger] r[j]) by {
            if i < k {
                assert(r[i] == rest[i]);
            } else if i > k {
                assert(r[i] == rest[i - 1]);
            }
            if j < k {
                assert(r[j] == rest[j]);
            } else if j > k {
                assert(r[j] == rest[j - 1]);
            }
        }
        vstd::seq_lib::to_multiset_insert(rest, k, x);
        assert(s =~= tail.insert(0, x));
        vstd::seq_lib::to_multiset_insert(tail, 0, x);
        assert(r.to_multiset() == rest.to_multiset().insert(x));
        assert(s.to_multiset() == tail.to_multiset().insert(x));
    }
}

/// The placements of `s` whose penalty is `penalty`, in their order.
pub open spec fn of_penalty(s: Seq<Seq<Option<usize>>>, penalty: int) -> Seq<Seq<Option<usize>>> {
    s.filter(|x: Seq<Option<usize>>| reported_penalty(x) == penalty)
}

/// Where no item has the penalty, none is kept; one item alone is kept
/// exactly where it has the penalty.
proof fn of_penalty_of_few(s: Seq<Seq<Option<usize>>>, penalty: int)
    ensures
        (forall|i: int| 0 <= i < s.len() ==> reported_penalty(#[trigger] s[i]) != penalty)
            ==> of_penalty(s, penalty).len() == 0,
        s.len() == 1 && reported_penalty(s[0]) == penalty ==> of_penalty(s, penalty) == s,
    decreases s.len(),
{
    reveal(Seq::filter);
    if s.len() > 0 {
        let t = s.drop_last();
        of_penalty_of_few(t, penalty);
        if forall|i: int| 0 <= i < s.len() ==> reported_penalty(#[trigger] s[i]) != penalty {
            assert forall|i: int| 0 <= i < t.len() implies reported_penalty(#[trigger] t[i])
                != penalty by {
                assert(t[i] == s[i]);
            }
            assert(reported_penalty(s[s.len() - 1]) != penalty);
        }
        if s.len() == 1 && reported_penalty(s[0]) == penalty {
            assert(of_penalty(t, penalty).len() == 0);
            assert(of_penalty(s, penalty) =~= s);
        }
    }
}

/// Ranking is stable: the placements of one penalty stand after ranking in
/// the order in which they stood before.
pub proof fn ranking_is_stable(s: Seq<Seq<Option<usize>>>, penalty: int)
    ensures
        of_penalty(ranked(s), penalty) == of_penalty(s, penalty),
    decreases s.len(),
{
    let keep = |x: Seq<Option<usize>>| reported_penalty(x) == penalty;
    if s.len() == 0 {
        assert(ranked(s) =~= s);
    } else {
        let x = s[0];
        let tail = s.drop_first();
        let rest = ranked(tail);
        ranking_is_stable(tail, penalty);
        slot_splits(rest, x);
        let k = slot(rest, x);
        let front = rest.subrange(0, k);
        let back = rest.subrange(k, rest.len() as int);
        let one = seq![x];
        assert(rest =~= front + back);
        assert(ranked(s) =~= (front + one) + back);
        assert(s =~= one + tail);
        Seq::filter_distributes_over_add(front, back, keep);
        Seq::filter_distributes_over_add(front, one, keep);
        Seq::filter_distributes_over_add(front + one, back, keep);
        Seq::filter_distributes_over_add(one, tail, keep);
        of_penalty_of_few(one, penalty);
        if reported_penalty(x) == penalty {
            assert forall|i: int| 0 <= i < front.len() implies reported_penalty(
                #[trigger] front[i],
            ) != penalty by {
                assert(front[i] == rest[i]);
            }
            of_penalty_of_few(front, penalty);
            assert(of_penalty(front, penalty) =~= Seq::empty());
            assert(of_penalty(ranked(s), penalty) =~= one + of_penalty(back, penalty));
            assert(of_penalty(rest, penalty) =~= of_penalty(back, penalty));
        } else {
            assert(of_penalty(one, penalty) =~= Seq::empty());
            assert(of_penalty(ranked(s), penalty) =~= of_penalty(front, penalty) + of_penalty(
                back,
                penalty,
            ));
            assert(of_penalty(s, penalty) =~= of_penalty(tail, penalty));
        }
    }
}

/// A sequence without items adds nothing to the items of another.
proof fn nothing_adds_nothing(s: Seq<Fingering>)
    ensures
        Seq::<Fingering>::empty().to_multiset().add(s.to_multiset()) == s.to_multiset(),
        s.to_multiset().add(Seq::<Fingering>::empty().to_multiset()) == s.to_multiset(),
{
    broadcast use vstd::multiset::group_multiset_axioms;

    let none = Seq::<Fingering>::empty();
    none.to_multiset_ensures();
    assert(none.to_multiset() =~= vstd::multiset::Multiset::empty());
    assert(none.to_multiset().add(s.to_multiset()) =~= s.to_multiset());
    assert(s.to_multiset().add(none.to_multiset()) =~= s.to_multiset());
}

/// Orders fingerings from the lowest penalty to the highest; those of equal
/// penalty stay in the order in which they came.
pub fn rank_fingerings(fingerings: Vec<Fingering>) -> (r: Vec<Fingering>)
    ensures
        placements_of(r@) == ranked(placements_of(fingerings@)),
        r@.len() == fingerings@.len(),
        r@.to_multiset() == fingerings@.to_multiset(),
        forall|i: int| 0 <= i < r@.len() ==> fingerings@.contains(#[trigger] r@[i]),
{
    let ghost all = fingerings@;
    let ghost n = all.len() as int;
    let mut input: Vec<Fingering> = fingerings;
    let mut out: Vec<Fingering> = Vec::new();
    let mut keys: Vec<i32> = Vec::new();
    assert(placements_of(all).subrange(n, n) =~= Seq::empty());
    proof {
        nothing_adds_nothing(all);
    }
    while input.len() > 0
        invariant
            n == all.len(),
            input@.len() <= n,
            input@ == all.subrange(0, input@.len() as int),
            out@.len() == n - input@.len(),
            keys@.len() == out@.len(),
            forall|i: int|
                0 <= i < out@.len() ==> keys@[i] == reported_penalty(
                    (#[trigger] out@[i]).spec_placements(),
                ),
            placements_of(out@) == ranked(placements_of(all).subrange(input@.len() as int, n)),
            forall|i: int|
                0 <= i < out@.len() ==> exists|j: int|
                    0 <= j < n && #[trigger] all[j] == #[trigger] out@[i],
            out@.to_multiset().add(input@.to_multiset()) == all.to_multiset(),
        decreases input@.len(),
    {
        let ghost m = input@.len() as int;
        let ghost rest = placements_of(out@);
        let ghost before = out@;
        let ghost unread = input@;
        let next: Fingering = input.pop().unwrap();
        assert(next == all[m - 1]);
        let key: i32 = PrecomputedChords::fingering_penalty(&next);
        let mut at: usize = 0;
        assert(rest.subrange(0, rest.len() as int) =~= rest);
        while at < keys.len() && keys[at] < key
            invariant
                at <= keys@.len(),
                keys@.len() == out@.len(),
                rest == placements_of(out@),
                key == reported_penalty(next.spec_placements()),
                forall|i: int|
                    0 <= i < out@.len() ==> keys@[i] == reported_penalty(
                        (#[trigger] out@[i]).spec_placements(),
                    ),
                slot(rest, next.spec_placements()) == at + slot(
                    rest.subrange(at as int, rest.len() as int),
                    next.spec_placements(),
                ),
            decreases keys@.len() - at,
        {
            let ghost here = rest.subrange(at as int, rest.len() as int);
            assert(here[0] == out@[at as int].spec_placements());
            assert(here.drop_first() =~= rest.subrange(at + 1, rest.len() as int));
            at = at + 1;
        }
        proof {
            let here = rest.subrange(at as int, rest.len() as int);
            if at < keys@.len() {
                assert(here[0] == out@[at as int].spec_placements());
            }
            assert(slot(here, next.spec_placements()) == 0);
        }
        out.insert(at, next);
        keys.insert(at, key);
        proof {
            vstd::seq_lib::to_multiset_insert(before, at as int, next);
            assert(unread =~= input@.push(next));
            vstd::seq_lib::to_multiset_build(input@, next);
            assert(out@.to_multiset().add(input@.to_multiset()) =~= before.to_multiset().add(
                unread.to_multiset(),
            ));
            let tail = placements_of(all).subrange(m - 1, n);
            assert(tail.drop_first() =~= placements_of(all).subrange(m, n));
            assert(tail[0] == next.spec_placements());
            assert(placements_of(out@) =~= rest.insert(at as int, next.spec_placements()));
            assert(input@ =~= all.subrange(0, m - 1));
            assert forall|i: int| 0 <= i < out@.len() implies exists|j: int|
                0 <= j < n && #[trigger] all[j] == #[trigger] out@[i] by {
                if i < at {
                    assert(out@[i] == before[i]);
                    let j = choose|j: int| 0 <= j < n && #[trigger] all[j] == before[i];
                    assert(all[j] == out@[i]);
                } else if i == at {
                    assert(all[m - 1] == out@[i]);
                } else {
                    assert(out@[i] == before[i - 1]);
                    let j = choose|j: int| 0 <= j < n && #[trigger] all[j] == before[i - 1];
                    assert(all[j] == out@[i]);
                }
            }
        }
    }
    proof {
        assert(placements_of(all).subrange(0, n) =~= placements_of(all));
        assert(input@ =~= Seq::empty());
        nothing_adds_nothing(out@);
        assert forall|i: int| 0 <= i < out@.len() implies all.contains(#[trigger] out@[i]) by {
            let j = choose|j: int| 0 <= j < n && #[trigger] all[j] == out@[i];
            assert(all[j] == out@[i]);
        }
    }
    out
}

/// The chord of `variant` on the pitch class at ordinal `root`, with the
/// root in the bass.
pub open spec fn plain_chord(root: int, variant: int) -> Chord {
    Chord { root: key_at(root), variant: variant_at(variant), bass: key_at(root) }
}

/// Whether `fingerings` are, in their order, fingerings with the placements
/// `placements`, each for the instrument `id`.
pub open spec fn shows(
    fingerings: Seq<Fingering>,
    id: Seq<char>,
    placements: Seq<Seq<Option<usize>>>,
) -> bool {
    extends_by(Seq::empty(), fingerings, id, placements)
}

/// A source of the fingerings of a chord on an instrument, from the most
/// playable to the least.
pub trait ChordRepository {
    /// What the source answers for a chord on an instrument.
    spec fn answers(&self, instrument: InstrumentView, chord: Chord) -> Seq<Fingering>;

    fn get_fingerings(&self, instrument: &StringInstrument, chord: &Chord) -> (r: &[Fingering])
        ensures
            r@ == self.answers(instrument@, *chord),
    ;
}

/// The fingerings of each chord whose bass is its root, on one instrument,
/// ordered from the most playable to the least.
pub struct PrecomputedChords {
    instrument: StringInstrument,
    fingerings: Vec<Vec<Fingering>>,
    nothing: Vec<Fingering>,
}

impl PrecomputedChords {
    /// The instrument that the fingerings were computed for.
    pub closed spec fn spec_instrument(&self) -> InstrumentView {
        self.instrument@
    }

    /// The ranked fingerings of the chord of the quality at `variant` on the
    /// pitch class at `root`.
    pub closed spec fn spec_ranked(&self, root: int, variant: int) -> Seq<Fingering> {
        self.fingerings@[root * 9 + variant]@
    }

    /// What the repository answers: the ranked fingerings of a chord whose
    /// bass is its root on the instrument that they were computed for, and
    /// nothing for another chord or another instrument.
    pub open spec fn spec_fingerings(&self, instrument: InstrumentView, chord: Chord) -> Seq<
        Fingering,
    > {
        if instrument == self.spec_instrument() && chord.bass == chord.root {
            self.spec_ranked(chord.root.spec_ordinal(), chord.variant.spec_index())
        } else {
            Seq::empty()
        }
    }

    /// One list for each root and quality, and an empty list beside them.
    #[verifier::type_invariant]
    spec fn table_is_full(self) -> bool {
        &&& self.fingerings@.len() == 108
        &&& self.nothing@.len() == 0
    }

    /// Searches every chord whose bass is its root on `instrument` and ranks
    /// what it finds by penalty.
    pub fn new(instrument: &StringInstrument) -> (r: PrecomputedChords)
        ensures
            r.spec_instrument() == instrument@,
            forall|root: int, variant: int|
                0 <= root < 12 && 0 <= variant < 9 ==> shows(
                    #[trigger] r.spec_ranked(root, variant),
                    instrument@.id,
                    ranked(fingerings_of(plain_chord(root, variant), instrument@)),
                ),
    {
        let keys: Vec<Key> = Key::all();
        let variants: Vec<Variant> = Variant::all();
        let mut table: Vec<Vec<Fingering>> = Vec::new();
        let mut root: usize = 0;
        while root < 12
            invariant
                root <= 12,
                keys@.len() == 12,
                variants@.len() == 9,
                forall|i: int| 0 <= i < 12 ==> keys@[i] == key_at(i),
                forall|i: int| 0 <= i < 9 ==> variants@[i] == variant_at(i),
                table@.len() == root * 9,
                forall|a: int, b: int|
                    0 <= a < root && 0 <= b < 9 ==> shows(
                        (#[trigger] table@[a * 9 + b])@,
                        instrument@.id,
                        ranked(fingerings_of(plain_chord(a, b), instrument@)),
                    ),
            decreases 12 - root,
        {
            let mut variant: usize = 0;
            while variant < 9
                invariant
                    root < 12,
                    variant <= 9,
                    keys@.len() == 12,
                    variants@.len() == 9,
                    forall|i: int| 0 <= i < 12 ==> keys@[i] == key_at(i),
                    forall|i: int| 0 <= i < 9 ==> variants@[i] == variant_at(i),
                    table@.len() == root * 9 + variant,
                    forall|a: int, b: int|
                        0 <= a < root && 0 <= b < 9 ==> shows(
                            (#[trigger] table@[a * 9 + b])@,
                            instrument@.id,
                            ranked(fingerings_of(plain_chord(a, b), instrument@)),
                        ),
                    forall|b: int|
                        0 <= b < variant ==> shows(
                            (#[trigger] table@[root * 9 + b])@,
                            instrument@.id,
                            ranked(fingerings_of(plain_chord(root as int, b), instrument@)),
                        ),
                decreases 9 - variant,
            {
                let chord: Chord = Chord::new(keys[root], variants[variant], keys[root]);
                let found: Vec<Fingering> = find_fingerings(&chord, instrument);
                let ghost plain = fingerings_of(chord, instrument@);
                assert(placements_of(found@) =~= plain);
                let sorted: Vec<Fingering> = rank_fingerings(found);
                proof {
                    ranked_is_ordered(plain);
                    assert forall|j: int| 0 <= j < ranked(plain).len() implies (
                    #[trigger] sorted@[0 + j]).spec_placements() == ranked(plain)[j] && sorted@[0
                        + j].spec_instrument_id() == instrument@.id by {
                        assert(placements_of(sorted@)[j] == sorted@[j].spec_placements());
                        assert(found@.contains(sorted@[j]));
                        let k = choose|k: int| 0 <= k < found@.len() && found@[k] == sorted@[j];
                        assert(found@[0 + k].spec_instrument_id() == instrument@.id);
                    }
                }
                let ghost old_table = table@;
                table.push(sorted);
                proof {
                    assert forall|a: int, b: int| 0 <= a < root && 0 <= b < 9 implies shows(
                        (#[trigger] table@[a * 9 + b])@,
                        instrument@.id,
                        ranked(fingerings_of(plain_chord(a, b), instrument@)),
                    ) by {
                        assert(table@[a * 9 + b] == old_table[a * 9 + b]);
                    }
                    assert forall|b: int| 0 <= b < variant + 1 implies shows(
                        (#[trigger] table@[root * 9 + b])@,
                        instrument@.id,
                        ranked(fingerings_of(plain_chord(root as int, b), instrument@)),
                    ) by {
                        if b < variant {
                            assert(table@[root * 9 + b] == old_table[root * 9 + b]);
                        }
                    }
                }
                variant = variant + 1;
            }
            root = root + 1;
        }
        PrecomputedChords { instrument: instrument.duplicate(), fingerings: table, nothing: Vec::new() }
    }

}

impl ChordRepository for PrecomputedChords {
    open spec fn answers(&self, instrument: InstrumentView, chord: Chord) -> Seq<Fingering> {
        self.spec_fingerings(instrument, chord)
    }

    /// The ranked fingerings of `chord` on `instrument`: those computed,
    /// where the instrument is the one they were computed for and the bass of
    /// the chord is its root; else none.
    fn get_fingerings(&self, instrument: &StringInstrument, chord: &Chord) -> (r: &[Fingering])
    {
        proof {
            use_type_invariant(self);
        }
        if instrument.same_as(&self.instrument) && chord.bass == chord.root {
            let index: usize = chord.root.ordinal() * 9 + chord.variant.index();
            self.fingerings[index].as_slice()
        } else {
            assert(self.nothing@ =~= Seq::empty());
            self.nothing.as_slice()
        }
    }
}

} // verus!
