//! Chords: a root, a quality and a bass.

use vstd::prelude::*;
use vstd::string::StringExecFns;
use crate::key::Key;
use crate::key::key_at;
use crate::key::key_named;
use crate::key::name_shapes;
use crate::key::spelling_denotes_its_key;
use crate::text::chars_of;
use crate::variant::Variant;
use crate::variant::variant_named;
use crate::variant::suffix_has_no_slash;
use crate::variant::suffix_denotes_its_variant;

verus! {

/// A chord. The bass is the root itself unless another pitch class is asked
/// for below the chord.
#[derive(Debug, Clone, Copy, PartialEq, Eq, Hash, Structural)]
pub struct Chord {
    pub root: Key,
    pub variant: Variant,
    pub bass: Key,
}

/// The pitch class `interval` semitones above `root`.
pub open spec fn chord_tone(root: Key, interval: usize) -> Key {
    key_at((root.spec_ordinal() + interval) % 12)
}

/// Every interval of every quality is at most 14, and a quality has three or
/// four of them.
pub proof fn intervals_are_small(variant: Variant)
    ensures
        3 <= variant.spec_intervals().len() <= 4,
        forall|i: int|
            0 <= i < variant.spec_intervals().len() ==> #[trigger] variant.spec_intervals()[i]
                <= 14,
{
}

/// Whether `key` occurs in `keys`.
pub fn contains_key(keys: &Vec<Key>, key: Key) -> (r: bool)
    ensures
        r == keys@.contains(key),
{
    let mut i: usize = 0;
    while i < keys.len()
        invariant
            i <= keys@.len(),
            forall|j: int| 0 <= j < i ==> keys@[j] != key,
        decreases keys@.len() - i,
    {
        if keys[i] == key {
            return true;
        }
        i = i + 1;
    }
    false
}

impl Chord {
    /// The pitch classes of the chord, one for each interval of the quality,
    /// in the order of the intervals.
    pub open spec fn spec_keys(self) -> Seq<Key> {
        Seq::new(
            self.variant.spec_intervals().len(),
            |i: int| chord_tone(self.root, self.variant.spec_intervals()[i]),
        )
    }

    /// The pitch classes of the chord, and the bass after them where it is
    /// not among them.
    pub open spec fn spec_keys_with_bass(self) -> Seq<Key> {
        if self.spec_keys().contains(self.bass) {
            self.spec_keys()
        } else {
            self.spec_keys().push(self.bass)
        }
    }

    /// The pitch-class set of the chord.
    pub open spec fn key_set(self) -> Set<Key> {
        self.spec_keys().to_set()
    }

    /// The pitch-class set of the chord together with its bass.
    pub open spec fn key_set_with_bass(self) -> Set<Key> {
        self.key_set().insert(self.bass)
    }

    /// The display form: root, suffix of the quality, and a slash and the
    /// bass where the bass is not the root.
    pub open spec fn spec_text(self) -> Seq<char> {
        if self.root == self.bass {
            self.root.spec_text() + self.variant.spec_text()
        } else {
            self.root.spec_text() + self.variant.spec_text() + seq!['/'] + self.bass.spec_text()
        }
    }

    /// The chord of `variant` on `root`, with the root in the bass.
    pub fn simple(root: Key, variant: Variant) -> (r: Chord)
        ensures
            r == (Chord { root, variant, bass: root }),
    {
        Chord::new(root, variant, root)
    }

    pub fn new(root: Key, variant: Variant, bass: Key) -> (r: Chord)
        ensures
            r == (Chord { root, variant, bass }),
    {
        Chord { root, variant, bass }
    }

    /// The display form, such as `Db7/Ab`.
    pub fn text(&self) -> (r: String)
        ensures
            r@ == self.spec_text(),
    {
        let mut out: String = String::from_str(self.root.text());
        out.append(self.variant.text());
        if self.root != self.bass {
            proof {
                reveal_strlit("/");
            }
            assert("/"@ =~= seq!['/']);
            out.append("/");
            out.append(self.bass.text());
        }
        out
    }

    /// The pitch classes of the chord, in the order of the intervals. No
    /// pitch class occurs twice.
    pub fn keys(&self) -> (r: Vec<Key>)
        ensures
            r@ == self.spec_keys(),
            r@.to_set() == self.key_set(),
            r@.no_duplicates(),
    {
        let intervals: Vec<usize> = self.variant.intervals();
        let root_ordinal: usize = self.root.ordinal();
        let mut out: Vec<Key> = Vec::new();
        let mut i: usize = 0;
        proof {
            intervals_are_small(self.variant);
        }
        while i < intervals.len()
            invariant
                i <= intervals@.len(),
                intervals@ == self.variant.spec_intervals(),
                root_ordinal == self.root.spec_ordinal(),
                forall|j: int| 0 <= j < intervals@.len() ==> #[trigger] intervals@[j] <= 14,
                out@.len() == i,
                forall|j: int|
                    0 <= j < i ==> out@[j] == chord_tone(
                        self.root,
                        self.variant.spec_intervals()[j],
                    ),
            decreases intervals@.len() - i,
        {
            let interval: usize = intervals[i];
            out.push(Key::from_ordinal((root_ordinal + interval) % 12));
            i = i + 1;
        }
        assert(out@ =~= self.spec_keys());
        proof {
            self.keys_are_distinct();
        }
        out
    }

    /// The pitch classes of the chord, and the bass after them where it is
    /// not among them. No pitch class occurs twice.
    pub fn keys_with_bass(&self) -> (r: Vec<Key>)
        ensures
            r@ == self.spec_keys_with_bass(),
            r@.to_set() == self.key_set_with_bass(),
            r@.no_duplicates(),
    {
        let mut out: Vec<Key> = self.keys();
        if !contains_key(&out, self.bass) {
            out.push(self.bass);
        }
        assert(out@.to_set() =~= self.key_set_with_bass()) by {
            assert forall|k: Key| out@.to_set().contains(k) == self.key_set_with_bass().contains(
                k,
            ) by {
                if out@.contains(k) {
                    let j = choose|j: int| 0 <= j < out@.len() && out@[j] == k;
                    if j < self.spec_keys().len() {
                        assert(self.spec_keys()[j] == k);
                    }
                }
                if self.spec_keys().contains(k) {
                    let j = choose|j: int| 0 <= j < self.spec_keys().len() && self.spec_keys()[j] == k;
                    assert(out@[j] == k);
                }
                if k == self.bass && !self.spec_keys().contains(self.bass) {
                    assert(out@[out@.len() - 1] == k);
                }
            }
        }
        out
    }

    /// The intervals of a quality lead to pitch classes that differ from one
    /// another, whatever the root.
    pub proof fn keys_are_distinct(self)
        ensures
            self.spec_keys().no_duplicates(),
    {
        let iv = self.variant.spec_intervals();
        let r = self.root.spec_ordinal();
        assert forall|i: int, j: int|
            0 <= i < self.spec_keys().len() && 0 <= j < self.spec_keys().len() && i
                != j implies self.spec_keys()[i] != self.spec_keys()[j] by {
            let a = (r + iv[i]) % 12;
            let b = (r + iv[j]) % 12;
            assert(key_at(a).spec_ordinal() == a);
            assert(key_at(b).spec_ordinal() == b);
            assert(a != b);
        }
    }
}

/// Whether `text` is `root_name`, then `suffix`, then, where the bass is not
/// left out, a slash and `bass_name`, and these three denote the parts of
/// `chord`. A chord whose bass is left out has its root as its bass.
pub open spec fn spells_as(
    text: Seq<char>,
    chord: Chord,
    root_name: Seq<char>,
    suffix: Seq<char>,
    bass_name: Seq<char>,
) -> bool {
    &&& key_named(root_name) == Some(chord.root)
    &&& variant_named(suffix) == Some(chord.variant)
    &&& (text == root_name + suffix && chord.bass == chord.root && bass_name.len() == 0) || (
    key_named(bass_name) == Some(chord.bass) && text == root_name + suffix + seq!['/'] + bass_name)
}

/// Whether `text` is a way to write `chord`: a spelling of the root, the
/// suffix of the quality, and then nothing or a slash and a spelling of the
/// bass.
pub open spec fn spells(text: Seq<char>, chord: Chord) -> bool {
    exists|root_name: Seq<char>, suffix: Seq<char>, bass_name: Seq<char>|
        spells_as(text, chord, root_name, suffix, bass_name)
}

/// How long the spelling of the root at the start of `text` is: two
/// characters where the second is an accidental, else one.
pub open spec fn root_length(text: Seq<char>) -> int {
    if text.len() >= 2 && (text[1] == '#' || text[1] == 'b') {
        2
    } else {
        1
    }
}

/// The position of the first slash of `text` at or after `i`, and the length
/// of `text` where there is none.
pub open spec fn slash_from(text: Seq<char>, i: int) -> int
    decreases text.len() - i,
{
    if i >= text.len() {
        text.len() as int
    } else if text[i] == '/' {
        i
    } else {
        slash_from(text, i + 1)
    }
}

/// The chord that `text` writes, if it writes one. The root is read first,
/// the suffix is all that stands between the root and the first slash or the
/// end, and the bass is all that stands after that slash.
pub open spec fn chord_named(text: Seq<char>) -> Option<Chord> {
    if text.len() == 0 {
        None
    } else {
        let r = root_length(text);
        let s = slash_from(text, r);
        match (key_named(text.subrange(0, r)), variant_named(text.subrange(r, s))) {
            (Some(root), Some(variant)) => if s == text.len() {
                Some(Chord { root, variant, bass: root })
            } else {
                match key_named(text.subrange(s + 1, text.len() as int)) {
                    Some(bass) => Some(Chord { root, variant, bass }),
                    None => None,
                }
            },
            _ => None,
        }
    }
}

/// No slash stands between `i` and the first slash from `i` on.
pub proof fn slash_from_is_first(text: Seq<char>, i: int)
    requires
        0 <= i <= text.len(),
    ensures
        i <= slash_from(text, i) <= text.len(),
        forall|j: int| i <= j < slash_from(text, i) ==> text[j] != '/',
        slash_from(text, i) < text.len() ==> text[slash_from(text, i)] == '/',
    decreases text.len() - i,
{
    if i < text.len() && text[i] != '/' {
        slash_from_is_first(text, i + 1);
    }
}

/// A position that no slash stands before, and that holds a slash or is the
/// end, is the first slash.
pub proof fn first_slash_is_slash_from(text: Seq<char>, i: int, k: int)
    requires
        0 <= i <= k <= text.len(),
        forall|j: int| i <= j < k ==> text[j] != '/',
        k < text.len() ==> text[k] == '/',
    ensures
        slash_from(text, i) == k,
    decreases k - i,
{
    if i < k {
        first_slash_is_slash_from(text, i + 1, k);
    }
}

/// What `chord_named` reads from a text is a chord that the text writes.
pub proof fn named_chord_is_spelled(text: Seq<char>)
    requires
        chord_named(text) is Some,
    ensures
        spells(text, chord_named(text).unwrap()),
{
    let chord = chord_named(text).unwrap();
    let r = root_length(text);
    slash_from_is_first(text, r);
    let s = slash_from(text, r);
    let root_name = text.subrange(0, r);
    let suffix = text.subrange(r, s);
    if s == text.len() {
        let bass_name = Seq::<char>::empty();
        assert(text =~= root_name + suffix);
        assert(spells_as(text, chord, root_name, suffix, bass_name));
    } else {
        let bass_name = text.subrange(s + 1, text.len() as int);
        assert(text =~= root_name + suffix + seq!['/'] + bass_name);
        assert(spells_as(text, chord, root_name, suffix, bass_name));
    }
}

/// A text that writes a chord is read as that chord.
pub proof fn spelled_chord_is_named(
    text: Seq<char>,
    chord: Chord,
    root_name: Seq<char>,
    suffix: Seq<char>,
    bass_name: Seq<char>,
)
    requires
        spells_as(text, chord, root_name, suffix, bass_name),
    ensures
        chord_named(text) == Some(chord),
{
    name_shapes(root_name);
    suffix_has_no_slash(suffix);
    let with_bass = !(text == root_name + suffix && chord.bass == chord.root && bass_name.len()
        == 0);
    if with_bass {
        name_shapes(bass_name);
    }
    let n = root_name.len() as int;
    let k = n + suffix.len();
    assert(text[0] == root_name[0]);
    if text.len() >= 2 {
        if n == 2 {
            assert(text[1] == root_name[1]);
        } else if suffix.len() > 0 {
            assert(text[1] == suffix[0]);
        } else {
            assert(text[1] == '/');
        }
    }
    assert(root_length(text) == n);
    assert(text.subrange(0, n) =~= root_name);
    assert forall|j: int| n <= j < k implies text[j] != '/' by {
        assert(text[j] == suffix[j - n]);
    }
    if with_bass {
        assert(text[k] == '/');
    }
    first_slash_is_slash_from(text, n, k);
    assert(text.subrange(n, k) =~= suffix);
    if with_bass {
        assert(text.subrange(k + 1, text.len() as int) =~= bass_name);
    }
}

/// A text writes one chord at most.
pub proof fn spelling_is_unambiguous(text: Seq<char>, a: Chord, b: Chord)
    requires
        spells(text, a),
        spells(text, b),
    ensures
        a == b,
{
    let (r1, s1, b1) = choose|root_name: Seq<char>, suffix: Seq<char>, bass_name: Seq<char>|
        spells_as(text, a, root_name, suffix, bass_name);
    spelled_chord_is_named(text, a, r1, s1, b1);
    let (r2, s2, b2) = choose|root_name: Seq<char>, suffix: Seq<char>, bass_name: Seq<char>|
        spells_as(text, b, root_name, suffix, bass_name);
    spelled_chord_is_named(text, b, r2, s2, b2);
}

/// Reading the display form of a chord gives the chord back, root, quality
/// and bass; and the display form of a chord whose bass is its root has no
/// slash and no bass.
pub proof fn text_round_trips(chord: Chord)
    ensures
        chord_named(chord.spec_text()) == Some(chord),
        spells(chord.spec_text(), chord),
        chord.bass == chord.root ==> chord.spec_text() == chord.root.spec_text()
            + chord.variant.spec_text(),
{
    spelling_denotes_its_key(chord.root);
    spelling_denotes_its_key(chord.bass);
    suffix_denotes_its_variant(chord.variant);
    let bass_name = if chord.root == chord.bass {
        Seq::<char>::empty()
    } else {
        chord.bass.spec_text()
    };
    assert(spells_as(
        chord.spec_text(),
        chord,
        chord.root.spec_text(),
        chord.variant.spec_text(),
        bass_name,
    ));
    spelled_chord_is_named(
        chord.spec_text(),
        chord,
        chord.root.spec_text(),
        chord.variant.spec_text(),
        bass_name,
    );
}

impl Chord {
    /// Reads a chord written as a root, the suffix of a quality and, where a
    /// bass is asked for, a slash and the bass. The result is `None` where
    /// the text writes no chord.
    pub fn parse(source: &str) -> (r: Option<Chord>)
        ensures
            r == chord_named(source@),
            match r {
                Some(chord) => spells(source@, chord),
                None => forall|chord: Chord| !spells(source@, chord),
            },
    {
        let chars: Vec<char> = chars_of(source);
        let r: Option<Chord> = Chord::read(&chars);
        proof {
            let text = source@;
            if r is Some {
                named_chord_is_spelled(text);
            } else {
                assert forall|chord: Chord| !spells(text, chord) by {
                    if spells(text, chord) {
                        let (rn, sf, bn) = choose|
                            root_name: Seq<char>,
                            suffix: Seq<char>,
                            bass_name: Seq<char>,
                        | spells_as(text, chord, root_name, suffix, bass_name);
                        spelled_chord_is_named(text, chord, rn, sf, bn);
                    }
                }
            }
        }
        r
    }

    /// Reads a chord from its characters.
    pub fn read(chars: &Vec<char>) -> (r: Option<Chord>)
        ensures
            r == chord_named(chars@),
    {
        let n: usize = chars.len();
        if n == 0 {
            return None;
        }
        let root_end: usize = if n >= 2 && (chars[1] == '#' || chars[1] == 'b') {
            2
        } else {
            1
        };
        let mut slash: usize = root_end;
        while slash < n && chars[slash] != '/'
            invariant
                root_end <= slash <= n,
                n == chars@.len(),
                slash_from(chars@, root_end as int) == slash_from(chars@, slash as int),
            decreases n - slash,
        {
            slash = slash + 1;
        }
        let Some(root) = Key::named(chars, 0, root_end) else {
            return None;
        };
        let Some(variant) = Variant::named(chars, root_end, slash) else {
            return None;
        };
        if slash == n {
            return Some(Chord { root, variant, bass: root });
        }
        match Key::named(chars, slash + 1, n) {
            Some(bass) => Some(Chord { root, variant, bass }),
            None => None,
        }
    }
}

} // verus!
