//! Stringed instruments.

use vstd::prelude::*;
use vstd::string::StringExecFns;
use crate::key::Key;
use crate::note::Note;

verus! {

/// One string: the note it sounds when open, and how many frets it offers.
/// The playable frets are `0..frets`.
#[derive(Debug, Clone, Copy, PartialEq, Eq, Structural)]
pub struct Corda {
    pub note: Note,
    pub frets: usize,
}

impl Corda {
    pub fn new(note: Note, frets: usize) -> (r: Corda)
        ensures
            r == (Corda { note, frets }),
    {
        Corda { note, frets }
    }
}

/// A fretted instrument: its strings from the lowest to the highest, and
/// whether the lowest note of a fingering must be the bass of the chord.
#[derive(Debug, Clone)]
pub struct StringInstrument {
    id: String,
    name: String,
    description: String,
    has_bass: bool,
    strings: Vec<Corda>,
}

/// What an instrument is, as plain values.
pub struct InstrumentView {
    pub id: Seq<char>,
    pub name: Seq<char>,
    pub description: Seq<char>,
    pub has_bass: bool,
    pub strings: Seq<Corda>,
}

impl View for StringInstrument {
    type V = InstrumentView;

    closed spec fn view(&self) -> InstrumentView {
        InstrumentView {
            id: self.id@,
            name: self.name@,
            description: self.description@,
            has_bass: self.has_bass,
            strings: self.strings@,
        }
    }
}

/// The six strings of a guitar in standard tuning, each with `frets` frets.
pub open spec fn guitar_strings(strings: Seq<Corda>) -> bool {
    &&& strings.len() == 6
    &&& forall|i: int| 0 <= i < 6 ==> (#[trigger] strings[i]).frets == 24
    &&& strings[0].note.spec_key() == Key::E && strings[0].note.spec_octave() == 2
    &&& strings[1].note.spec_key() == Key::A && strings[1].note.spec_octave() == 2
    &&& strings[2].note.spec_key() == Key::D && strings[2].note.spec_octave() == 3
    &&& strings[3].note.spec_key() == Key::G && strings[3].note.spec_octave() == 3
    &&& strings[4].note.spec_key() == Key::B && strings[4].note.spec_octave() == 3
    &&& strings[5].note.spec_key() == Key::E && strings[5].note.spec_octave() == 4
}

/// The three strings of a Loog guitar.
pub open spec fn loog_strings(strings: Seq<Corda>) -> bool {
    &&& strings.len() == 3
    &&& forall|i: int| 0 <= i < 3 ==> (#[trigger] strings[i]).frets == 16
    &&& strings[0].note.spec_key() == Key::G && strings[0].note.spec_octave() == 3
    &&& strings[1].note.spec_key() == Key::B && strings[1].note.spec_octave() == 3
    &&& strings[2].note.spec_key() == Key::E && strings[2].note.spec_octave() == 4
}

impl StringInstrument {
    /// An instrument on which the lowest note of a fingering must be the
    /// bass of the chord.
    pub fn with_bass(id: &str, name: &str, description: &str, strings: Vec<Corda>) -> (r:
        StringInstrument)
        ensures
            r@ == (InstrumentView {
                id: id@,
                name: name@,
                description: description@,
                has_bass: true,
                strings: strings@,
            }),
    {
        StringInstrument {
            id: String::from_str(id),
            name: String::from_str(name),
            description: String::from_str(description),
            has_bass: true,
            strings,
        }
    }

    /// An instrument on which any tone of the chord may be the lowest.
    pub fn without_bass(id: &str, name: &str, description: &str, strings: Vec<Corda>) -> (r:
        StringInstrument)
        ensures
            r@ == (InstrumentView {
                id: id@,
                name: name@,
                description: description@,
                has_bass: false,
                strings: strings@,
            }),
    {
        StringInstrument {
            id: String::from_str(id),
            name: String::from_str(name),
            description: String::from_str(description),
            has_bass: false,
            strings,
        }
    }

    pub fn id(&self) -> (r: &str)
        ensures
            r@ == self@.id,
    {
        self.id.as_str()
    }

    pub fn name(&self) -> (r: &str)
        ensures
            r@ == self@.name,
    {
        self.name.as_str()
    }

    pub fn description(&self) -> (r: &str)
        ensures
            r@ == self@.description,
    {
        self.description.as_str()
    }

    pub fn has_bass(&self) -> (r: bool)
        ensures
            r == self@.has_bass,
    {
        self.has_bass
    }

    pub fn strings(&self) -> (r: &Vec<Corda>)
        ensures
            r@ == self@.strings,
    {
        &self.strings
    }

    /// A copy of the instrument.
    pub fn duplicate(&self) -> (r: StringInstrument)
        ensures
            r@ == self@,
    {
        let mut strings: Vec<Corda> = Vec::new();
        let mut i: usize = 0;
        while i < self.strings.len()
            invariant
                i <= self.strings@.len(),
                strings@ == self.strings@.subrange(0, i as int),
            decreases self.strings@.len() - i,
        {
            strings.push(self.strings[i]);
            i = i + 1;
            assert(strings@ =~= self.strings@.subrange(0, i as int));
        }
        assert(strings@ =~= self.strings@);
        StringInstrument {
            id: self.id.clone(),
            name: self.name.clone(),
            description: self.description.clone(),
            has_bass: self.has_bass,
            strings,
        }
    }

    /// Whether two instruments are the same in every part.
    pub fn same_as(&self, other: &StringInstrument) -> (r: bool)
        ensures
            r == (self@ == other@),
    {
        if self.has_bass != other.has_bass || self.id != other.id || self.name != other.name
            || self.description != other.description || self.strings.len()
            != other.strings.len() {
            return false;
        }
        let mut i: usize = 0;
        while i < self.strings.len()
            invariant
                i <= self.strings@.len(),
                self.strings@.len() == other.strings@.len(),
                forall|j: int| 0 <= j < i ==> self.strings@[j] == other.strings@[j],
            decreases self.strings@.len() - i,
        {
            if self.strings[i] != other.strings[i] {
                return false;
            }
            i = i + 1;
        }
        assert(self.strings@ =~= other.strings@);
        true
    }

    /// The six-string guitar in standard tuning, with a dedicated bass.
    pub fn guitar_standard() -> (r: StringInstrument)
        ensures
            r@.id == "guitar"@,
            r@.name == "Guitar"@,
            r@.description == "6-String Guitar, Standard Tuning (EADGBE)"@,
            r@.has_bass,
            guitar_strings(r@.strings),
    {
        StringInstrument::with_bass(
            "guitar",
            "Guitar",
            "6-String Guitar, Standard Tuning (EADGBE)",
            vec![
                Corda::new(Note::new(Key::E, 2), 24),
                Corda::new(Note::new(Key::A, 2), 24),
                Corda::new(Note::new(Key::D, 3), 24),
                Corda::new(Note::new(Key::G, 3), 24),
                Corda::new(Note::new(Key::B, 3), 24),
                Corda::new(Note::new(Key::E, 4), 24),
            ],
        )
    }

    /// The three-string Loog guitar, without a dedicated bass.
    pub fn mimi() -> (r: StringInstrument)
        ensures
            r@.id == "mimi"@,
            r@.name == "Mimi"@,
            r@.description == "Loog Guitar, tuned GBE"@,
            !r@.has_bass,
            loog_strings(r@.strings),
    {
        StringInstrument::without_bass(
            "mimi",
            "Mimi",
            "Loog Guitar, tuned GBE",
            vec![
                Corda::new(Note::new(Key::G, 3), 16),
                Corda::new(Note::new(Key::B, 3), 16),
                Corda::new(Note::new(Key::E, 4), 16),
            ],
        )
    }
}

} // verus!
