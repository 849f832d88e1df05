//! Absolute pitches: a pitch class in an octave.

use vstd::prelude::*;
use core::cmp::Ordering;
use vstd::string::StringExecFns;
use crate::key::Key;
use crate::key::key_at;
use crate::text::signed_decimal;
use crate::text::render_signed;

verus! {

/// An absolute pitch. Notes are ordered by their ordinal, which is the order
/// of the pair `(octave, key)`: the fields stand in that order, so that the
/// derived total order agrees with the comparison written below.
#[derive(Debug, Clone, Copy, PartialEq, Eq, Ord, Hash, Structural)]
pub struct Note {
    octave: i32,
    key: Key,
}

/// The pitch class of the absolute pitch `ordinal`: its remainder modulo 12,
/// never negative.
pub open spec fn pitch_class(ordinal: int) -> Key {
    key_at(ordinal % 12)
}

/// The ordinals whose octave an `i32` can hold.
pub open spec fn representable(ordinal: int) -> bool {
    -25769803776 <= ordinal < 25769803776
}

impl Note {
    /// The pitch class.
    pub closed spec fn spec_key(self) -> Key {
        self.key
    }

    /// The octave number.
    pub closed spec fn spec_octave(self) -> int {
        self.octave as int
    }

    /// The absolute pitch in semitones: `key.ordinal() + 12 * octave`.
    pub open spec fn spec_ordinal(self) -> int {
        self.spec_key().spec_ordinal() + 12 * self.spec_octave()
    }

    /// The display form: the key's spelling followed by the octave number.
    pub open spec fn spec_text(self) -> Seq<char> {
        self.spec_key().spec_text() + signed_decimal(self.spec_octave())
    }

    /// Two notes with the same pitch class and octave are the same note.
    pub proof fn same_parts_same_note(self, other: Note)
        requires
            self.spec_key() == other.spec_key(),
            self.spec_octave() == other.spec_octave(),
        ensures
            self == other,
    {
    }

    /// The ordinal of every note is one whose octave an `i32` can hold.
    pub proof fn ordinal_is_representable(self)
        ensures
            representable(self.spec_ordinal()),
            self.spec_key() == pitch_class(self.spec_ordinal()),
    {
    }

    pub fn new(key: Key, octave: i32) -> (r: Note)
        ensures
            r.spec_key() == key,
            r.spec_octave() == octave,
    {
        Note { octave, key }
    }

    pub fn key(&self) -> (r: Key)
        ensures
            r == self.spec_key(),
    {
        self.key
    }

    pub fn octave(&self) -> (r: i32)
        ensures
            r == self.spec_octave(),
    {
        self.octave
    }

    /// The absolute pitch in semitones.
    pub fn ordinal(&self) -> (r: i64)
        ensures
            r == self.spec_ordinal(),
            representable(r as int),
    {
        let k: i64 = self.key.ordinal() as i64;
        let o: i64 = self.octave as i64;
        k + 12 * o
    }

    /// The note at an absolute pitch. The octave is the floor of
    /// `ordinal / 12`, also where `ordinal` is negative.
    pub fn from_ordinal(ordinal: i64) -> (r: Note)
        requires
            representable(ordinal as int),
        ensures
            r.spec_key() == pitch_class(ordinal as int),
            r.spec_octave() == (ordinal as int) / 12,
            r.spec_ordinal() == ordinal,
    {
        let mut octave: i64 = ordinal / 12;
        let mut key_ordinal: i64 = ordinal % 12;
        if key_ordinal < 0 {
            key_ordinal = key_ordinal + 12;
            octave = octave - 1;
        }
        assert(key_ordinal == (ordinal as int) % 12 && octave == (ordinal as int) / 12);
        Note { octave: octave as i32, key: Key::from_ordinal(key_ordinal as usize) }
    }

    /// The note `semitones` above this one (below, where negative).
    pub fn add(self, semitones: i32) -> (r: Note)
        requires
            representable(self.spec_ordinal() + semitones),
        ensures
            r.spec_key() == pitch_class(self.spec_ordinal() + semitones),
            r.spec_octave() == (self.spec_ordinal() + semitones) / 12,
            r.spec_ordinal() == self.spec_ordinal() + semitones,
    {
        Note::from_ordinal(self.ordinal() + semitones as i64)
    }

    /// Whether this note is strictly lower than `other`.
    pub fn is_below(&self, other: &Note) -> (r: bool)
        ensures
            r == (self.spec_ordinal() < other.spec_ordinal()),
    {
        self.ordinal() < other.ordinal()
    }

    /// The display form, such as `E2`.
    pub fn text(&self) -> (r: String)
        ensures
            r@ == self.spec_text(),
    {
        let mut out: String = String::from_str(self.key.text());
        let digits: String = render_signed(self.octave as i64);
        out.append(digits.as_str());
        out
    }
}

impl PartialOrd for Note {
    /// Compares two notes by their ordinals.
    fn partial_cmp(&self, other: &Note) -> (r: Option<Ordering>) {
        let mine: i64 = self.ordinal();
        let theirs: i64 = other.ordinal();
        if mine < theirs {
            Some(Ordering::Less)
        } else if mine > theirs {
            Some(Ordering::Greater)
        } else {
            Some(Ordering::Equal)
        }
    }
}

impl vstd::std_specs::cmp::PartialOrdSpecImpl for Note {
    open spec fn obeys_partial_cmp_spec() -> bool {
        true
    }

    open spec fn partial_cmp_spec(&self, other: &Note) -> Option<Ordering> {
        if self.spec_ordinal() < other.spec_ordinal() {
            Some(Ordering::Less)
        } else if self.spec_ordinal() > other.spec_ordinal() {
            Some(Ordering::Greater)
        } else {
            Some(Ordering::Equal)
        }
    }
}

} // verus!
