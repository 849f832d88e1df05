//! Chord qualities.

use vstd::prelude::*;
use crate::text::chars_of;

verus! {

/// A chord quality: a fixed list of semitone intervals above the root.
#[derive(Debug, Clone, Copy, PartialEq, Eq, Hash, Structural)]
pub enum Variant {
    Major,
    Minor,
    Seventh,
    MinorSeventh,
    MinorSixth,
    SuspendedSecond,
    AddNinth,
    Diminished,
    Augmented,
}

/// The quality that the suffix `text` denotes, if it denotes one.
pub open spec fn variant_named(text: Seq<char>) -> Option<Variant> {
    if text == Seq::<char>::empty() {
        Some(Variant::Major)
    } else if text == seq!['m'] {
        Some(Variant::Minor)
    } else if text == seq!['7'] {
        Some(Variant::Seventh)
    } else if text == seq!['m', '7'] {
        Some(Variant::MinorSeventh)
    } else if text == seq!['m', '6'] {
        Some(Variant::MinorSixth)
    } else if text == seq!['s', 'u', 's', '2'] {
        Some(Variant::SuspendedSecond)
    } else if text == seq!['a', 'd', 'd', '9'] {
        Some(Variant::AddNinth)
    } else if text == seq!['d', 'i', 'm'] {
        Some(Variant::Diminished)
    } else if text == seq!['a', 'u', 'g'] {
        Some(Variant::Augmented)
    } else {
        None
    }
}

/// The quality at position `i` of the declaration order; `Major` stands for
/// every `i` outside `[0, 9)`.
pub open spec fn variant_at(i: int) -> Variant {
    if i == 1 {
        Variant::Minor
    } else if i == 2 {
        Variant::Seventh
    } else if i == 3 {
        Variant::MinorSeventh
    } else if i == 4 {
        Variant::MinorSixth
    } else if i == 5 {
        Variant::SuspendedSecond
    } else if i == 6 {
        Variant::AddNinth
    } else if i == 7 {
        Variant::Diminished
    } else if i == 8 {
        Variant::Augmented
    } else {
        Variant::Major
    }
}

/// The length and the characters of each suffix.
pub proof fn suffix_shapes()
    ensures
        seq!['m'].len() == 1 && seq!['m'][0] == 'm',
        seq!['7'].len() == 1 && seq!['7'][0] == '7',
        seq!['m', '7'].len() == 2 && seq!['m', '7'][0] == 'm' && seq!['m', '7'][1] == '7',
        seq!['m', '6'].len() == 2 && seq!['m', '6'][0] == 'm' && seq!['m', '6'][1] == '6',
        seq!['d', 'i', 'm'].len() == 3 && seq!['d', 'i', 'm'][0] == 'd' && seq!['d', 'i', 'm'][1]
            == 'i' && seq!['d', 'i', 'm'][2] == 'm',
        seq!['a', 'u', 'g'].len() == 3 && seq!['a', 'u', 'g'][0] == 'a' && seq!['a', 'u', 'g'][1]
            == 'u' && seq!['a', 'u', 'g'][2] == 'g',
        seq!['s', 'u', 's', '2'].len() == 4 && seq!['s', 'u', 's', '2'][0] == 's' && seq![
            's',
            'u',
            's',
            '2',
        ][1] == 'u' && seq!['s', 'u', 's', '2'][2] == 's' && seq!['s', 'u', 's', '2'][3] == '2',
        seq!['a', 'd', 'd', '9'].len() == 4 && seq!['a', 'd', 'd', '9'][0] == 'a' && seq![
            'a',
            'd',
            'd',
            '9',
        ][1] == 'd' && seq!['a', 'd', 'd', '9'][2] == 'd' && seq!['a', 'd', 'd', '9'][3] == '9',
{
}

/// A suffix has at most four characters, none of them a slash, and does not
/// begin with an accidental.
pub proof fn suffix_has_no_slash(text: Seq<char>)
    requires
        variant_named(text) is Some,
    ensures
        text.len() <= 4,
        forall|i: int| 0 <= i < text.len() ==> text[i] != '/',
        text.len() > 0 ==> text[0] != '#' && text[0] != 'b',
{
    suffix_shapes();
}

/// The suffix of a quality denotes that quality.
pub proof fn suffix_denotes_its_variant(variant: Variant)
    ensures
        variant_named(variant.spec_text()) == Some(variant),
{
    suffix_shapes();
}

impl Variant {
    /// The canonical suffix, used for rendering and for parsing.
    pub open spec fn spec_text(self) -> Seq<char> {
        match self {
            Variant::Major => Seq::<char>::empty(),
            Variant::Minor => seq!['m'],
            Variant::Seventh => seq!['7'],
            Variant::MinorSeventh => seq!['m', '7'],
            Variant::MinorSixth => seq!['m', '6'],
            Variant::SuspendedSecond => seq!['s', 'u', 's', '2'],
            Variant::AddNinth => seq!['a', 'd', 'd', '9'],
            Variant::Diminished => seq!['d', 'i', 'm'],
            Variant::Augmented => seq!['a', 'u', 'g'],
        }
    }

    /// The semitone intervals above the root, in ascending order.
    pub open spec fn spec_intervals(self) -> Seq<usize> {
        match self {
            Variant::Major => seq![0, 4, 7],
            Variant::Minor => seq![0, 3, 7],
            Variant::Seventh => seq![0, 4, 7, 10],
            Variant::MinorSeventh => seq![0, 3, 7, 10],
            Variant::MinorSixth => seq![0, 3, 7, 9],
            Variant::SuspendedSecond => seq![0, 2, 7],
            Variant::AddNinth => seq![0, 4, 7, 14],
            Variant::Diminished => seq![0, 3, 6],
            Variant::Augmented => seq![0, 4, 8],
        }
    }

    /// The position in the declaration order.
    pub open spec fn spec_index(self) -> int {
        match self {
            Variant::Major => 0,
            Variant::Minor => 1,
            Variant::Seventh => 2,
            Variant::MinorSeventh => 3,
            Variant::MinorSixth => 4,
            Variant::SuspendedSecond => 5,
            Variant::AddNinth => 6,
            Variant::Diminished => 7,
            Variant::Augmented => 8,
        }
    }

    /// The simpler quality that replaces this one on an instrument with fewer
    /// than four strings, where there is one. No replacement has a
    /// replacement of its own.
    pub open spec fn spec_simplified(self) -> Option<Variant> {
        match self {
            Variant::MinorSixth => Some(Variant::Minor),
            Variant::MinorSeventh => Some(Variant::Minor),
            Variant::Seventh => Some(Variant::Major),
            Variant::AddNinth => Some(Variant::Major),
            _ => None,
        }
    }

    /// The position in the declaration order, in `[0, 9)`.
    pub fn index(&self) -> (r: usize)
        ensures
            r == self.spec_index(),
            r < 9,
    {
        match self {
            Variant::Major => 0,
            Variant::Minor => 1,
            Variant::Seventh => 2,
            Variant::MinorSeventh => 3,
            Variant::MinorSixth => 4,
            Variant::SuspendedSecond => 5,
            Variant::AddNinth => 6,
            Variant::Diminished => 7,
            Variant::Augmented => 8,
        }
    }

    /// All nine qualities in declaration order.
    pub fn all() -> (r: Vec<Variant>)
        ensures
            r@.len() == 9,
            forall|i: int| 0 <= i < 9 ==> r@[i] == variant_at(i),
    {
        vec![
            Variant::Major,
            Variant::Minor,
            Variant::Seventh,
            Variant::MinorSeventh,
            Variant::MinorSixth,
            Variant::SuspendedSecond,
            Variant::AddNinth,
            Variant::Diminished,
            Variant::Augmented,
        ]
    }

    /// The canonical suffix.
    pub fn text(&self) -> (r: &'static str)
        ensures
            r@ == self.spec_text(),
    {
        proof {
            reveal_strlit("");
            reveal_strlit("m");
            reveal_strlit("7");
            reveal_strlit("m7");
            reveal_strlit("m6");
            reveal_strlit("sus2");
            reveal_strlit("add9");
            reveal_strlit("dim");
            reveal_strlit("aug");
        }
        let r: &'static str = match self {
            Variant::Major => "",
            Variant::Minor => "m",
            Variant::Seventh => "7",
            Variant::MinorSeventh => "m7",
            Variant::MinorSixth => "m6",
            Variant::SuspendedSecond => "sus2",
            Variant::AddNinth => "add9",
            Variant::Diminished => "dim",
            Variant::Augmented => "aug",
        };
        assert(r@ =~= self.spec_text());
        r
    }

    /// The semitone intervals above the root.
    pub fn intervals(&self) -> (r: Vec<usize>)
        ensures
            r@ == self.spec_intervals(),
    {
        let r: Vec<usize> = match self {
            Variant::Major => vec![0, 4, 7],
            Variant::Minor => vec![0, 3, 7],
            Variant::Seventh => vec![0, 4, 7, 10],
            Variant::MinorSeventh => vec![0, 3, 7, 10],
            Variant::MinorSixth => vec![0, 3, 7, 9],
            Variant::SuspendedSecond => vec![0, 2, 7],
            Variant::AddNinth => vec![0, 4, 7, 14],
            Variant::Diminished => vec![0, 3, 6],
            Variant::Augmented => vec![0, 4, 8],
        };
        assert(r@ =~= self.spec_intervals());
        r
    }

    /// The replacement on an instrument with fewer than four strings.
    pub fn simplified(&self) -> (r: Option<Variant>)
        ensures
            r == self.spec_simplified(),
    {
        match self {
            Variant::MinorSixth => Some(Variant::Minor),
            Variant::MinorSeventh => Some(Variant::Minor),
            Variant::Seventh => Some(Variant::Major),
            Variant::AddNinth => Some(Variant::Major),
            _ => None,
        }
    }

    /// Exact lookup of a suffix.
    pub fn parse(source: &str) -> (r: Option<Variant>)
        ensures
            r == variant_named(source@),
    {
        let chars: Vec<char> = chars_of(source);
        let r = Variant::named(&chars, 0, chars.len());
        assert(chars@.subrange(0, chars@.len() as int) =~= source@);
        r
    }

    /// The quality whose suffix is exactly `chars[from..to]`.
    pub fn named(chars: &Vec<char>, from: usize, to: usize) -> (r: Option<Variant>)
        requires
            from <= to <= chars@.len(),
        ensures
            r == variant_named(chars@.subrange(from as int, to as int)),
    {
        let ghost t = chars@.subrange(from as int, to as int);
        let n: usize = to - from;
        proof {
            suffix_shapes();
        }
        if n == 0 {
            assert(t =~= Seq::<char>::empty());
            Some(Variant::Major)
        } else if n == 1 {
            let a: char = chars[from];
            assert(t =~= seq![a]);
            if a == 'm' {
                Some(Variant::Minor)
            } else if a == '7' {
                Some(Variant::Seventh)
            } else {
                assert(t[0] == a);
                None
            }
        } else if n == 2 {
            let a: char = chars[from];
            let b: char = chars[from + 1];
            assert(t =~= seq![a, b]);
            assert(t[0] == a && t[1] == b);
            if a == 'm' && b == '7' {
                Some(Variant::MinorSeventh)
            } else if a == 'm' && b == '6' {
                Some(Variant::MinorSixth)
            } else {
                None
            }
        } else if n == 3 {
            let a: char = chars[from];
            let b: char = chars[from + 1];
            let c: char = chars[from + 2];
            assert(t =~= seq![a, b, c]);
            assert(t[0] == a && t[1] == b && t[2] == c);
            if a == 'd' && b == 'i' && c == 'm' {
                Some(Variant::Diminished)
            } else if a == 'a' && b == 'u' && c == 'g' {
                Some(Variant::Augmented)
            } else {
                None
            }
        } else if n == 4 {
            let a: char = chars[from];
            let b: char = chars[from + 1];
            let c: char = chars[from + 2];
            let d: char = chars[from + 3];
            assert(t =~= seq![a, b, c, d]);
            assert(t[0] == a && t[1] == b && t[2] == c && t[3] == d);
            if a == 's' && b == 'u' && c == 's' && d == '2' {
                Some(Variant::SuspendedSecond)
            } else if a == 'a' && b == 'd' && c == 'd' && d == '9' {
                Some(Variant::AddNinth)
            } else {
                None
            }
        } else {
            assert(t.len() > 4);
            None
        }
    }
}

} // verus!
