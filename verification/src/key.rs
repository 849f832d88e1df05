//! The twelve pitch classes.

use vstd::prelude::*;
use vstd::string::StrSliceExecFns;

verus! {

/// One of the twelve equal-tempered pitch classes, independent of octave.
#[derive(Debug, Clone, Copy, PartialEq, Eq, Hash, PartialOrd, Ord, Structural)]
pub enum Key {
    C,
    Db,
    D,
    Eb,
    E,
    F,
    Gb,
    G,
    Ab,
    A,
    Bb,
    B,
}

/// The pitch class whose ordinal is `i`; `C` stands for every `i` outside `[0, 12)`.
pub open spec fn key_at(i: int) -> Key {
    if i == 1 {
        Key::Db
    } else if i == 2 {
        Key::D
    } else if i == 3 {
        Key::Eb
    } else if i == 4 {
        Key::E
    } else if i == 5 {
        Key::F
    } else if i == 6 {
        Key::Gb
    } else if i == 7 {
        Key::G
    } else if i == 8 {
        Key::Ab
    } else if i == 9 {
        Key::A
    } else if i == 10 {
        Key::Bb
    } else if i == 11 {
        Key::B
    } else {
        Key::C
    }
}

/// The pitch class that the spelling `name` denotes, if it denotes one.
/// Spellings are case-sensitive; five pitch classes have a sharp spelling
/// beside the canonical flat one.
pub open spec fn key_named(name: Seq<char>) -> Option<Key> {
    if name == seq!['C'] {
        Some(Key::C)
    } else if name == seq!['C', '#'] || name == seq!['D', 'b'] {
        Some(Key::Db)
    } else if name == seq!['D'] {
        Some(Key::D)
    } else if name == seq!['D', '#'] || name == seq!['E', 'b'] {
        Some(Key::Eb)
    } else if name == seq!['E'] {
        Some(Key::E)
    } else if name == seq!['F'] {
        Some(Key::F)
    } else if name == seq!['F', '#'] || name == seq!['G', 'b'] {
        Some(Key::Gb)
    } else if name == seq!['G'] {
        Some(Key::G)
    } else if name == seq!['G', '#'] || name == seq!['A', 'b'] {
        Some(Key::Ab)
    } else if name == seq!['A'] {
        Some(Key::A)
    } else if name == seq!['A', '#'] || name == seq!['B', 'b'] {
        Some(Key::Bb)
    } else if name == seq!['B'] {
        Some(Key::B)
    } else {
        None
    }
}

/// A spelling is one letter, or a letter and an accidental, and holds no slash.
pub proof fn name_shapes(name: Seq<char>)
    requires
        key_named(name) is Some,
    ensures
        1 <= name.len() <= 2,
        name[0] != '/' && name[0] != '#' && name[0] != 'b',
        name.len() == 2 ==> name[1] == '#' || name[1] == 'b',
{
    assert(seq!['C'].len() == 1 && seq!['C'][0] == 'C');
    assert(seq!['D'].len() == 1 && seq!['D'][0] == 'D');
    assert(seq!['E'].len() == 1 && seq!['E'][0] == 'E');
    assert(seq!['F'].len() == 1 && seq!['F'][0] == 'F');
    assert(seq!['G'].len() == 1 && seq!['G'][0] == 'G');
    assert(seq!['A'].len() == 1 && seq!['A'][0] == 'A');
    assert(seq!['B'].len() == 1 && seq!['B'][0] == 'B');
    assert(seq!['C', '#'].len() == 2 && seq!['C', '#'][0] == 'C' && seq!['C', '#'][1] == '#');
    assert(seq!['D', '#'].len() == 2 && seq!['D', '#'][0] == 'D' && seq!['D', '#'][1] == '#');
    assert(seq!['F', '#'].len() == 2 && seq!['F', '#'][0] == 'F' && seq!['F', '#'][1] == '#');
    assert(seq!['G', '#'].len() == 2 && seq!['G', '#'][0] == 'G' && seq!['G', '#'][1] == '#');
    assert(seq!['A', '#'].len() == 2 && seq!['A', '#'][0] == 'A' && seq!['A', '#'][1] == '#');
    assert(seq!['D', 'b'].len() == 2 && seq!['D', 'b'][0] == 'D' && seq!['D', 'b'][1] == 'b');
    assert(seq!['E', 'b'].len() == 2 && seq!['E', 'b'][0] == 'E' && seq!['E', 'b'][1] == 'b');
    assert(seq!['G', 'b'].len() == 2 && seq!['G', 'b'][0] == 'G' && seq!['G', 'b'][1] == 'b');
    assert(seq!['A', 'b'].len() == 2 && seq!['A', 'b'][0] == 'A' && seq!['A', 'b'][1] == 'b');
    assert(seq!['B', 'b'].len() == 2 && seq!['B', 'b'][0] == 'B' && seq!['B', 'b'][1] == 'b');
}

/// Decoding an ordinal and encoding the result gives the ordinal back, and
/// encoding a pitch class and decoding the result gives the pitch class back.
pub proof fn ordinal_is_a_bijection(i: int, key: Key)
    ensures
        0 <= i < 12 ==> key_at(i).spec_ordinal() == i,
        0 <= key.spec_ordinal() < 12,
        key_at(key.spec_ordinal()) == key,
{
}

/// The canonical spelling of a pitch class denotes that pitch class, and so
/// does each of its accepted spellings.
pub proof fn spelling_denotes_its_key(key: Key)
    ensures
        key_named(key.spec_text()) == Some(key),
        forall|i: int|
            0 <= i < key.spec_valid_names().len() ==> key_named(
                #[trigger] key.spec_valid_names()[i],
            ) == Some(key),
{
    assert(seq!['C'].len() == 1 && seq!['C'][0] == 'C');
    assert(seq!['D'].len() == 1 && seq!['D'][0] == 'D');
    assert(seq!['E'].len() == 1 && seq!['E'][0] == 'E');
    assert(seq!['F'].len() == 1 && seq!['F'][0] == 'F');
    assert(seq!['G'].len() == 1 && seq!['G'][0] == 'G');
    assert(seq!['A'].len() == 1 && seq!['A'][0] == 'A');
    assert(seq!['B'].len() == 1 && seq!['B'][0] == 'B');
    assert(seq!['C', '#'].len() == 2 && seq!['C', '#'][0] == 'C' && seq!['C', '#'][1] == '#');
    assert(seq!['D', '#'].len() == 2 && seq!['D', '#'][0] == 'D' && seq!['D', '#'][1] == '#');
    assert(seq!['F', '#'].len() == 2 && seq!['F', '#'][0] == 'F' && seq!['F', '#'][1] == '#');
    assert(seq!['G', '#'].len() == 2 && seq!['G', '#'][0] == 'G' && seq!['G', '#'][1] == '#');
    assert(seq!['A', '#'].len() == 2 && seq!['A', '#'][0] == 'A' && seq!['A', '#'][1] == '#');
    assert(seq!['D', 'b'].len() == 2 && seq!['D', 'b'][0] == 'D' && seq!['D', 'b'][1] == 'b');
    assert(seq!['E', 'b'].len() == 2 && seq!['E', 'b'][0] == 'E' && seq!['E', 'b'][1] == 'b');
    assert(seq!['G', 'b'].len() == 2 && seq!['G', 'b'][0] == 'G' && seq!['G', 'b'][1] == 'b');
    assert(seq!['A', 'b'].len() == 2 && seq!['A', 'b'][0] == 'A' && seq!['A', 'b'][1] == 'b');
    assert(seq!['B', 'b'].len() == 2 && seq!['B', 'b'][0] == 'B' && seq!['B', 'b'][1] == 'b');
}

impl Key {
    /// The canonical ordinal of this pitch class, counted in semitones from C.
    pub open spec fn spec_ordinal(self) -> int {
        match self {
            Key::C => 0,
            Key::Db => 1,
            Key::D => 2,
            Key::Eb => 3,
            Key::E => 4,
            Key::F => 5,
            Key::Gb => 6,
            Key::G => 7,
            Key::Ab => 8,
            Key::A => 9,
            Key::Bb => 10,
            Key::B => 11,
        }
    }

    /// The canonical display spelling.
    pub open spec fn spec_text(self) -> Seq<char> {
        match self {
            Key::C => seq!['C'],
            Key::Db => seq!['D', 'b'],
            Key::D => seq!['D'],
            Key::Eb => seq!['E', 'b'],
            Key::E => seq!['E'],
            Key::F => seq!['F'],
            Key::Gb => seq!['G', 'b'],
            Key::G => seq!['G'],
            Key::Ab => seq!['A', 'b'],
            Key::A => seq!['A'],
            Key::Bb => seq!['B', 'b'],
            Key::B => seq!['B'],
        }
    }

    /// Every accepted spelling, the sharp one first where there is one.
    pub open spec fn spec_valid_names(self) -> Seq<Seq<char>> {
        match self {
            Key::C => seq![seq!['C']],
            Key::Db => seq![seq!['C', '#'], seq!['D', 'b']],
            Key::D => seq![seq!['D']],
            Key::Eb => seq![seq!['D', '#'], seq!['E', 'b']],
            Key::E => seq![seq!['E']],
            Key::F => seq![seq!['F']],
            Key::Gb => seq![seq!['F', '#'], seq!['G', 'b']],
            Key::G => seq![seq!['G']],
            Key::Ab => seq![seq!['G', '#'], seq!['A', 'b']],
            Key::A => seq![seq!['A']],
            Key::Bb => seq![seq!['A', '#'], seq!['B', 'b']],
            Key::B => seq![seq!['B']],
        }
    }

    /// The ordinal in `[0, 12)`.
    pub fn ordinal(&self) -> (r: usize)
        ensures
            r == self.spec_ordinal(),
            r < 12,
    {
        match self {
            Key::C => 0,
            Key::Db => 1,
            Key::D => 2,
            Key::Eb => 3,
            Key::E => 4,
            Key::F => 5,
            Key::Gb => 6,
            Key::G => 7,
            Key::Ab => 8,
            Key::A => 9,
            Key::Bb => 10,
            Key::B => 11,
        }
    }

    /// Decodes an ordinal in `[0, 12)`.
    pub fn from_ordinal(ordinal: usize) -> (r: Key)
        requires
            ordinal < 12,
        ensures
            r == key_at(ordinal as int),
            r.spec_ordinal() == ordinal,
    {
        if ordinal == 0 {
            Key::C
        } else if ordinal == 1 {
            Key::Db
        } else if ordinal == 2 {
            Key::D
        } else if ordinal == 3 {
            Key::Eb
        } else if ordinal == 4 {
            Key::E
        } else if ordinal == 5 {
            Key::F
        } else if ordinal == 6 {
            Key::Gb
        } else if ordinal == 7 {
            Key::G
        } else if ordinal == 8 {
            Key::Ab
        } else if ordinal == 9 {
            Key::A
        } else if ordinal == 10 {
            Key::Bb
        } else {
            Key::B
        }
    }

    /// All twelve pitch classes in ordinal order.
    pub fn all() -> (r: Vec<Key>)
        ensures
            r@.len() == 12,
            forall|i: int| 0 <= i < 12 ==> r@[i] == key_at(i),
    {
        vec![
            Key::C,
            Key::Db,
            Key::D,
            Key::Eb,
            Key::E,
            Key::F,
            Key::Gb,
            Key::G,
            Key::Ab,
            Key::A,
            Key::Bb,
            Key::B,
        ]
    }

    /// The canonical display spelling.
    pub fn text(&self) -> (r: &'static str)
        ensures
            r@ == self.spec_text(),
    {
        proof {
            reveal_strlit("C");
            reveal_strlit("Db");
            reveal_strlit("D");
            reveal_strlit("Eb");
            reveal_strlit("E");
            reveal_strlit("F");
            reveal_strlit("Gb");
            reveal_strlit("G");
            reveal_strlit("Ab");
            reveal_strlit("A");
            reveal_strlit("Bb");
            reveal_strlit("B");
        }
        match self {
            Key::C => "C",
            Key::Db => "Db",
            Key::D => "D",
            Key::Eb => "Eb",
            Key::E => "E",
            Key::F => "F",
            Key::Gb => "Gb",
            Key::G => "G",
            Key::Ab => "Ab",
            Key::A => "A",
            Key::Bb => "Bb",
            Key::B => "B",
        }
    }

    /// Every accepted spelling, the sharp one first where there is one.
    pub fn valid_names(&self) -> (r: Vec<&'static str>)
        ensures
            r@.len() == self.spec_valid_names().len(),
            forall|i: int| 0 <= i < r@.len() ==> r@[i]@ == self.spec_valid_names()[i],
    {
        proof {
            reveal_strlit("C");
            reveal_strlit("C#");
            reveal_strlit("Db");
            reveal_strlit("D");
            reveal_strlit("D#");
            reveal_strlit("Eb");
            reveal_strlit("E");
            reveal_strlit("F");
            reveal_strlit("F#");
            reveal_strlit("Gb");
            reveal_strlit("G");
            reveal_strlit("G#");
            reveal_strlit("Ab");
            reveal_strlit("A");
            reveal_strlit("A#");
            reveal_strlit("Bb");
            reveal_strlit("B");
        }
        match self {
            Key::C => vec!["C"],
            Key::Db => vec!["C#", "Db"],
            Key::D => vec!["D"],
            Key::Eb => vec!["D#", "Eb"],
            Key::E => vec!["E"],
            Key::F => vec!["F"],
            Key::Gb => vec!["F#", "Gb"],
            Key::G => vec!["G"],
            Key::Ab => vec!["G#", "Ab"],
            Key::A => vec!["A"],
            Key::Bb => vec!["A#", "Bb"],
            Key::B => vec!["B"],
        }
    }

    /// Exact, case-sensitive lookup of a spelling.
    pub fn parse(source: &str) -> (r: Option<Key>)
        ensures
            r == key_named(source@),
    {
        let n: usize = source.unicode_len();
        if n == 0 || n > 2 {
            return None;
        }
        let letter: char = source.get_char(0);
        if n == 1 {
            assert(source@ =~= seq![letter]);
            return Key::natural(letter);
        }
        let accidental: char = source.get_char(1);
        assert(source@ =~= seq![letter, accidental]);
        Key::altered(letter, accidental)
    }

    /// The pitch class whose spelling is exactly `chars[from..to]`.
    pub fn named(chars: &Vec<char>, from: usize, to: usize) -> (r: Option<Key>)
        requires
            from <= to <= chars@.len(),
        ensures
            r == key_named(chars@.subrange(from as int, to as int)),
    {
        let ghost name = chars@.subrange(from as int, to as int);
        let n: usize = to - from;
        if n == 0 || n > 2 {
            proof {
                if key_named(name) is Some {
                    name_shapes(name);
                }
            }
            return None;
        }
        let letter: char = chars[from];
        if n == 1 {
            assert(name =~= seq![letter]);
            return Key::natural(letter);
        }
        let accidental: char = chars[from + 1];
        assert(name =~= seq![letter, accidental]);
        Key::altered(letter, accidental)
    }

    /// The pitch class spelled by one letter alone.
    fn natural(letter: char) -> (r: Option<Key>)
        ensures
            r == key_named(seq![letter]),
    {
        assert(forall|a: char, b: char, c: char| seq![a] != seq![b, c]) by {
            assert forall|a: char, b: char, c: char| seq![a] != seq![b, c] by {
                assert(seq![a].len() == 1);
                assert(seq![b, c].len() == 2);
            }
        }
        assert(forall|a: char, b: char| seq![a] == seq![b] ==> a == b) by {
            assert forall|a: char, b: char| seq![a] == seq![b] implies a == b by {
                assert(seq![a][0] == a);
                assert(seq![b][0] == b);
            }
        }
        if letter == 'C' {
            Some(Key::C)
        } else if letter == 'D' {
            Some(Key::D)
        } else if letter == 'E' {
            Some(Key::E)
        } else if letter == 'F' {
            Some(Key::F)
        } else if letter == 'G' {
            Some(Key::G)
        } else if letter == 'A' {
            Some(Key::A)
        } else if letter == 'B' {
            Some(Key::B)
        } else {
            None
        }
    }

    /// The pitch class spelled by a letter and an accidental.
    fn altered(letter: char, accidental: char) -> (r: Option<Key>)
        ensures
            r == key_named(seq![letter, accidental]),
    {
        assert(forall|a: char, b: char, c: char| seq![a] != seq![b, c]) by {
            assert forall|a: char, b: char, c: char| seq![a] != seq![b, c] by {
                assert(seq![a].len() == 1);
                assert(seq![b, c].len() == 2);
            }
        }
        assert(forall|a: char, b: char, c: char, d: char|
            seq![a, b] == seq![c, d] ==> a == c && b == d) by {
            assert forall|a: char, b: char, c: char, d: char|
                seq![a, b] == seq![c, d] implies a == c && b == d by {
                assert(seq![a, b][0] == a);
                assert(seq![a, b][1] == b);
                assert(seq![c, d][0] == c);
                assert(seq![c, d][1] == d);
            }
        }
        if accidental == '#' {
            if letter == 'C' {
                Some(Key::Db)
            } else if letter == 'D' {
                Some(Key::Eb)
            } else if letter == 'F' {
                Some(Key::Gb)
            } else if letter == 'G' {
                Some(Key::Ab)
            } else if letter == 'A' {
                Some(Key::Bb)
            } else {
                None
            }
        } else if accidental == 'b' {
            if letter == 'D' {
                Some(Key::Db)
            } else if letter == 'E' {
                Some(Key::Eb)
            } else if letter == 'G' {
                Some(Key::Gb)
            } else if letter == 'A' {
                Some(Key::Ab)
            } else if letter == 'B' {
                Some(Key::Bb)
            } else {
                None
            }
        } else {
            None
        }
    }
}

} // verus!
