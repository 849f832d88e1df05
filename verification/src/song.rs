//! What a song shows: the pieces of its tablature as plain records, the
//! chords that occur in it, and the best fingering of each.

use vstd::prelude::*;
use vstd::string::StringExecFns;
use crate::chord::Chord;
use crate::fingering::Fingering;
use crate::fingering::rendering;
use crate::instrument::InstrumentView;
use crate::instrument::StringInstrument;
use crate::precomputed::ChordRepository;
use crate::tablature::Comp;
use crate::tablature::CompView;
use crate::tablature::LineBit;
use crate::tablature::LineBitView;
use crate::tablature::bits_of;

verus! {

/// A piece of a line as a record of plain fields: its kind, where it begins,
/// its text as written, and for a chord its canonical name.
#[derive(Debug, PartialEq, Eq)]
pub struct LineBitModel {
    pub bit_type: String,
    pub position: usize,
    pub text: String,
    pub chord: Option<String>,
}

/// A record, as plain values.
pub struct LineBitModelView {
    pub bit_type: Seq<char>,
    pub position: int,
    pub text: Seq<char>,
    pub chord: Option<Seq<char>>,
}

impl View for LineBitModel {
    type V = LineBitModelView;

    open spec fn view(&self) -> LineBitModelView {
        LineBitModelView {
            bit_type: self.bit_type@,
            position: self.position as int,
            text: self.text@,
            chord: match self.chord {
                Some(name) => Some(name@),
                None => None,
            },
        }
    }
}

/// The record of a piece.
pub open spec fn record_of(bit: LineBitView) -> LineBitModelView {
    match bit.comp {
        CompView::Text(text) => LineBitModelView {
            bit_type: seq!['t', 'e', 'x', 't'],
            position: bit.position,
            text,
            chord: None,
        },
        CompView::Chord { chord, original_text } => LineBitModelView {
            bit_type: seq!['c', 'h', 'o', 'r', 'd'],
            position: bit.position,
            text: original_text,
            chord: Some(chord.spec_text()),
        },
    }
}

/// The records, as plain values.
pub open spec fn records_show(records: Seq<LineBitModel>) -> Seq<LineBitModelView> {
    records.map_values(|record: LineBitModel| record@)
}

/// The record of a piece of a line.
pub fn serialize_bit(bit: &LineBit) -> (r: LineBitModel)
    ensures
        r@ == record_of(bit@),
{
    proof {
        reveal_strlit("text");
        reveal_strlit("chord");
    }
    assert("text"@ =~= seq!['t', 'e', 'x', 't']);
    assert("chord"@ =~= seq!['c', 'h', 'o', 'r', 'd']);
    match &bit.comp {
        Comp::Text(text) => LineBitModel {
            bit_type: String::from_str("text"),
            position: bit.position,
            text: text.clone(),
            chord: None,
        },
        Comp::Chord { chord, original_text } => LineBitModel {
            bit_type: String::from_str("chord"),
            position: bit.position,
            text: original_text.clone(),
            chord: Some(chord.text()),
        },
    }
}

/// The records of the pieces of a line, in their order.
pub fn serialize_line(line: &Vec<LineBit>) -> (r: Vec<LineBitModel>)
    ensures
        records_show(r@) == bits_of(line@).map_values(|bit: LineBitView| record_of(bit)),
{
    let mut out: Vec<LineBitModel> = Vec::new();
    let mut i: usize = 0;
    while i < line.len()
        invariant
            i <= line@.len(),
            out@.len() == i,
            forall|j: int| 0 <= j < i ==> (#[trigger] out@[j])@ == record_of(line@[j]@),
        decreases line@.len() - i,
    {
        out.push(serialize_bit(&line[i]));
        i = i + 1;
    }
    assert(records_show(out@) =~= bits_of(line@).map_values(|bit: LineBitView| record_of(bit)));
    out
}

/// Whether the piece is the chord `chord`.
pub open spec fn is_chord(bit: LineBit, chord: Chord) -> bool {
    match bit.comp {
        Comp::Chord { chord: found, original_text } => found == chord,
        Comp::Text(text) => false,
    }
}

/// Whether `chord` occurs among the first `lines` lines of the tablature, or
/// among the first `bits` pieces of the line after them.
pub open spec fn occurs_before(
    tablature: Seq<Vec<LineBit>>,
    lines: int,
    bits: int,
    chord: Chord,
) -> bool {
    exists|i: int, j: int|
        0 <= i < tablature.len() && 0 <= j < tablature[i]@.len() && (i < lines || (i == lines && j
            < bits)) && is_chord(#[trigger] tablature[i]@[j], chord)
}

/// Whether `chord` occurs in the tablature.
pub open spec fn occurs(tablature: Seq<Vec<LineBit>>, chord: Chord) -> bool {
    occurs_before(tablature, tablature.len() as int, 0, chord)
}

/// Whether `chord` is among `chords`.
fn holds_chord(chords: &Vec<Chord>, chord: Chord) -> (r: bool)
    ensures
        r == chords@.contains(chord),
{
    let mut i: usize = 0;
    while i < chords.len()
        invariant
            i <= chords@.len(),
            forall|j: int| 0 <= j < i ==> chords@[j] != chord,
        decreases chords@.len() - i,
    {
        if chords[i] == chord {
            return true;
        }
        i = i + 1;
    }
    false
}

/// The chords that occur in a tablature, each once.
pub fn extract_chords(tablature: &Vec<Vec<LineBit>>) -> (r: Vec<Chord>)
    ensures
        r@.no_duplicates(),
        forall|chord: Chord| r@.contains(chord) <==> occurs(tablature@, chord),
{
    let mut out: Vec<Chord> = Vec::new();
    let mut i: usize = 0;
    while i < tablature.len()
        invariant
            i <= tablature@.len(),
            out@.no_duplicates(),
            forall|chord: Chord| #[trigger]
                out@.contains(chord) <==> occurs_before(tablature@, i as int, 0, chord),
        decreases tablature@.len() - i,
    {
        let line: &Vec<LineBit> = &tablature[i];
        let mut j: usize = 0;
        while j < line.len()
            invariant
                i < tablature@.len(),
                line@ == tablature@[i as int]@,
                j <= line@.len(),
                out@.no_duplicates(),
                forall|chord: Chord| #[trigger]
                    out@.contains(chord) <==> occurs_before(tablature@, i as int, j as int, chord),
            decreases line@.len() - j,
        {
            let ghost before = out@;
            let ghost mut added: Option<Chord> = None;
            if let Comp::Chord { chord, original_text } = &line[j].comp {
                if !holds_chord(&out, *chord) {
                    out.push(*chord);
                    proof {
                        added = Some(*chord);
                    }
                }
            }
            proof {
                let bit = tablature@[i as int]@[j as int];
                assert(bit == line@[j as int]);
                assert forall|chord: Chord| #[trigger]
                    out@.contains(chord) <==> occurs_before(tablature@, i as int, j + 1, chord) by {
                    let here = is_chord(bit, chord);
                    let earlier = occurs_before(tablature@, i as int, j as int, chord);
                    let now = occurs_before(tablature@, i as int, j + 1, chord);
                    assert(before.contains(chord) <==> earlier);
                    assert(now <==> (earlier || here)) by {
                        if earlier {
                            let (a, b) = choose|a: int, b: int|
                                0 <= a < tablature@.len() && 0 <= b < tablature@[a]@.len() && (a
                                    < i || (a == i && b < j)) && is_chord(
                                    #[trigger] tablature@[a]@[b],
                                    chord,
                                );
                            assert(is_chord(tablature@[a]@[b], chord));
                        }
                        if here {
                            assert(is_chord(tablature@[i as int]@[j as int], chord));
                        }
                        if now {
                            let (a, b) = choose|a: int, b: int|
                                0 <= a < tablature@.len() && 0 <= b < tablature@[a]@.len() && (a
                                    < i || (a == i && b < j + 1)) && is_chord(
                                    #[trigger] tablature@[a]@[b],
                                    chord,
                                );
                            if !(a == i && b == j) {
                                assert(is_chord(tablature@[a]@[b], chord));
                            }
                        }
                    }
                    assert(out@.contains(chord) <==> (before.contains(chord) || added == Some(
                        chord,
                    ))) by {
                        if out@.contains(chord) {
                            let k = choose|k: int| 0 <= k < out@.len() && out@[k] == chord;
                            if k < before.len() {
                                assert(before[k] == chord);
                            }
                        }
                        if before.contains(chord) {
                            let k = choose|k: int| 0 <= k < before.len() && before[k] == chord;
                            assert(out@[k] == chord);
                        }
                        if added == Some(chord) {
                            assert(out@[before.len() as int] == chord);
                        }
                    }
                }
            }
            j = j + 1;
        }
        proof {
            assert forall|chord: Chord| #[trigger]
                out@.contains(chord) <==> occurs_before(tablature@, i + 1, 0, chord) by {
                if occurs_before(tablature@, i as int, j as int, chord) {
                    let (a, b) = choose|a: int, b: int|
                        0 <= a < tablature@.len() && 0 <= b < tablature@[a]@.len() && (a < i || (a
                            == i && b < j)) && is_chord(#[trigger] tablature@[a]@[b], chord);
                    assert(is_chord(tablature@[a]@[b], chord));
                }
                if occurs_before(tablature@, i + 1, 0, chord) {
                    let (a, b) = choose|a: int, b: int|
                        0 <= a < tablature@.len() && 0 <= b < tablature@[a]@.len() && (a < i + 1
                            || (a == i + 1 && b < 0)) && is_chord(
                            #[trigger] tablature@[a]@[b],
                            chord,
                        );
                    assert(is_chord(tablature@[a]@[b], chord));
                }
            }
        }
        i = i + 1;
    }
    out
}

/// The name of a chord beside the display form of a fingering.
pub struct Chart {
    pub chord: String,
    pub fingering: String,
}

/// The charts of the first `n` of `chords`: for each chord that the source
/// has a fingering for, the name of the chord and the display form of the
/// first fingering.
pub open spec fn charts_upto<R: ChordRepository>(
    repository: &R,
    instrument: InstrumentView,
    chords: Seq<Chord>,
    n: int,
) -> Seq<(Seq<char>, Seq<char>)>
    decreases n,
{
    if n <= 0 {
        Seq::empty()
    } else {
        let rest = charts_upto(repository, instrument, chords, n - 1);
        let found = repository.answers(instrument, chords[n - 1]);
        if found.len() > 0 {
            rest.push((chords[n - 1].spec_text(), rendering(found[0].spec_placements())))
        } else {
            rest
        }
    }
}

/// The charts, as plain values.
pub open spec fn charts_show(charts: Seq<Chart>) -> Seq<(Seq<char>, Seq<char>)> {
    charts.map_values(|chart: Chart| (chart.chord@, chart.fingering@))
}

/// For each of `chords` that `repository` has a fingering for on
/// `instrument`, the name of the chord and the display form of the first,
/// which is the most playable, fingering.
pub fn top_fingerings<R: ChordRepository>(
    repository: &R,
    instrument: &StringInstrument,
    chords: &Vec<Chord>,
) -> (r: Vec<Chart>)
    ensures
        charts_show(r@) == charts_upto(repository, instrument@, chords@, chords@.len() as int),
{
    let mut out: Vec<Chart> = Vec::new();
    let mut i: usize = 0;
    assert(charts_show(out@) =~= Seq::empty());
    while i < chords.len()
        invariant
            i <= chords@.len(),
            charts_show(out@) == charts_upto(repository, instrument@, chords@, i as int),
        decreases chords@.len() - i,
    {
        let found: &[Fingering] = repository.get_fingerings(instrument, &chords[i]);
        if found.len() > 0 {
            let ghost before = out@;
            let chart = Chart { chord: chords[i].text(), fingering: found[0].to_str() };
            out.push(chart);
            assert(charts_show(out@) =~= charts_show(before).push(
                (chords@[i as int].spec_text(), rendering(found@[0].spec_placements())),
            ));
        }
        i = i + 1;
    }
    out
}

} // verus!
