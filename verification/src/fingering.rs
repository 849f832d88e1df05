//! Fingerings: one placement for each string of an instrument.

use vstd::prelude::*;
use vstd::string::StringExecFns;
use crate::joining::join_strings;
use crate::joining::joined;
use crate::joining::texts_of;
use crate::text::decimal;
use crate::text::render_decimal;

verus! {

/// A way to play a chord on an instrument: for each string, from the lowest
/// to the highest, either no sound (`None`) or the fret that is pressed
/// (`Some(0)` for the open string).
#[derive(Debug, Clone)]
pub struct Fingering {
    instrument_id: String,
    placements: Vec<Option<usize>>,
}

/// The sign of one string: `X` where it is muted, else the fret in decimal.
pub open spec fn symbol(x: Option<usize>) -> Seq<char> {
    match x {
        Some(fret) => decimal(fret as nat),
        None => seq!['X'],
    }
}

/// Whether the placement is a fret of two digits or more.
pub open spec fn is_wide(x: Option<usize>) -> bool {
    match x {
        Some(fret) => fret > 9,
        None => false,
    }
}

/// Whether one of the placements is a fret of two digits or more.
pub open spec fn needs_comma(p: Seq<Option<usize>>) -> bool {
    exists|i: int| 0 <= i < p.len() && is_wide(#[trigger] p[i])
}

/// The display form of the placements: the signs of the strings in their
/// order, with nothing between them, or with commas between them where a
/// fret has two digits or more.
pub open spec fn rendering(p: Seq<Option<usize>>) -> Seq<char> {
    joined(
        p.map_values(|x: Option<usize>| symbol(x)),
        if needs_comma(p) {
            seq![',']
        } else {
            Seq::empty()
        },
    )
}

impl Fingering {
    /// The identifier of the instrument that the fingering was found for.
    pub closed spec fn spec_instrument_id(&self) -> Seq<char> {
        self.instrument_id@
    }

    /// The placements, one for each string.
    pub closed spec fn spec_placements(&self) -> Seq<Option<usize>> {
        self.placements@
    }

    pub fn new(instrument_id: String, placements: Vec<Option<usize>>) -> (r: Fingering)
        ensures
            r.spec_instrument_id() == instrument_id@,
            r.spec_placements() == placements@,
    {
        Fingering { instrument_id, placements }
    }

    pub fn instrument_id(&self) -> (r: &str)
        ensures
            r@ == self.spec_instrument_id(),
    {
        self.instrument_id.as_str()
    }

    /// The display form, such as `X32010` or `X,10,12,12,11,10`.
    pub fn to_str(&self) -> (r: String)
        ensures
            r@ == rendering(self.spec_placements()),
    {
        let p: &Vec<Option<usize>> = &self.placements;
        let mut symbols: Vec<String> = Vec::new();
        let mut wide: bool = false;
        let mut i: usize = 0;
        while i < p.len()
            invariant
                i <= p@.len(),
                symbols@.len() == i,
                forall|j: int| 0 <= j < i ==> (#[trigger] symbols@[j])@ == symbol(p@[j]),
                wide == (exists|j: int| 0 <= j < i && is_wide(#[trigger] p@[j])),
            decreases p@.len() - i,
        {
            match p[i] {
                Some(fret) => {
                    symbols.push(render_decimal(fret as u128));
                    if fret > 9 {
                        wide = true;
                    }
                },
                None => {
                    proof {
                        reveal_strlit("X");
                    }
                    assert("X"@ =~= seq!['X']);
                    symbols.push(String::from_str("X"));
                },
            }
            proof {
                if is_wide(p@[i as int]) {
                    assert(wide);
                } else if exists|j: int| 0 <= j < i + 1 && is_wide(#[trigger] p@[j]) {
                    let j = choose|j: int| 0 <= j < i + 1 && is_wide(#[trigger] p@[j]);
                    assert(j < i);
                }
            }
            i = i + 1;
        }
        assert(texts_of(symbols@) =~= p@.map_values(|x: Option<usize>| symbol(x)));
        proof {
            reveal_strlit(",");
            reveal_strlit("");
        }
        assert(","@ =~= seq![',']);
        assert(""@ =~= Seq::<char>::empty());
        join_strings(
            &symbols,
            if wide {
                ","
            } else {
                ""
            },
        )
    }

    pub fn placements(&self) -> (r: &[Option<usize>])
        ensures
            r@ == self.spec_placements(),
    {
        self.placements.as_slice()
    }
}

} // verus!
