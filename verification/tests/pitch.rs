use chorddb::chord::Chord;
use chorddb::key::Key;
use chorddb::note::Note;
use chorddb::variant::Variant;

fn older_keys() -> Vec<Key> {
    vec![
        Key::A,
        Key::Bb,
        Key::B,
        Key::C,
        Key::Db,
        Key::D,
        Key::Eb,
        Key::E,
        Key::F,
        Key::Gb,
        Key::G,
        Key::Ab,
    ]
}

fn older_variants() -> Vec<Variant> {
    vec![Variant::Major, Variant::Minor, Variant::Seventh]
}

fn parse_chord(text: String) -> Option<Chord> {
    Chord::parse(&text)
}

#[test]
fn chord_exploration() {
    println!("{:?}", Chord::parse("A"));
    println!("{:?}", Chord::parse("Bm"));
    println!("{:?}", Chord::parse("C/D"));
    println!("{:?}", Chord::parse("Db7/Ab"));
    println!("{:?}", Chord::parse("C#7/G#"));
    println!("{:?}", Chord::parse("SomeRandomString"));
}

#[test]
fn chord_validate_key_ordinals() {
    for key in older_keys() {
        assert_eq!(key, Key::from_ordinal(key.ordinal()));
    }
}

#[test]
fn chord_validate_key_parsing() {
    for key in older_keys() {
        assert_eq!(key, Key::parse(key.text()).unwrap());
    }
}

#[test]
fn chord_validate_all_chords_parse() {
    for root in older_keys() {
        for variant in older_variants() {
            let chord = parse_chord(format!("{}{}", root.text(), variant.text())).unwrap();
            assert_eq!(chord.root, root);
            assert_eq!(chord.variant, variant);
            assert_eq!(chord.bass, root);

            for bass in older_keys() {
                let chord =
                    parse_chord(format!("{}{}/{}", root.text(), variant.text(), bass.text()))
                        .unwrap();
                assert_eq!(chord.root, root);
                assert_eq!(chord.variant, variant);
                assert_eq!(chord.bass, bass);
            }
        }
    }
}

#[test]
fn mod_exploration() {
    println!("{:?}", Chord::parse("A"));
    println!("{:?}", Chord::parse("Bm"));
    println!("{:?}", Chord::parse("C/D"));
    println!("{:?}", Chord::parse("Db7/Ab"));
    println!("{:?}", Chord::parse("C#7/G#"));
    println!("{:?}", Chord::parse("SomeRandomString"));
}

#[test]
fn mod_validate_key_ordinals() {
    let all = Key::all();
    for key in Key::all() {
        assert_eq!(key, all[key.ordinal()]);
    }
}

#[test]
fn mod_validate_key_parsing() {
    for key in Key::all() {
        assert_eq!(key, Key::parse(key.text()).unwrap());
    }
}

#[test]
fn mod_validate_all_chords_parse() {
    for root in Key::all() {
        for variant in Variant::all() {
            let chord = parse_chord(format!("{}{}", root.text(), variant.text())).unwrap();
            assert_eq!(chord.root, root);
            assert_eq!(chord.variant, variant);
            assert_eq!(chord.bass, root);

            for bass in Key::all() {
                let chord =
                    parse_chord(format!("{}{}/{}", root.text(), variant.text(), bass.text()))
                        .unwrap();
                assert_eq!(chord.root, root);
                assert_eq!(chord.variant, variant);
                assert_eq!(chord.bass, bass);
            }
        }
    }
}

#[test]
fn ordinals_decode_and_encode() {
    for i in 0..12usize {
        assert_eq!(Key::from_ordinal(i).ordinal(), i);
    }
    assert_eq!(Key::C.ordinal(), 0);
    assert_eq!(Key::B.ordinal(), 11);
}

#[test]
fn sharp_spellings_are_accepted() {
    assert_eq!(Key::parse("C#"), Some(Key::Db));
    assert_eq!(Key::parse("D#"), Some(Key::Eb));
    assert_eq!(Key::parse("F#"), Some(Key::Gb));
    assert_eq!(Key::parse("G#"), Some(Key::Ab));
    assert_eq!(Key::parse("A#"), Some(Key::Bb));
    assert_eq!(Key::Db.valid_names(), vec!["C#", "Db"]);
    assert_eq!(Key::C.valid_names(), vec!["C"]);
}

#[test]
fn unknown_spellings_are_refused() {
    assert_eq!(Key::parse(""), None);
    assert_eq!(Key::parse("c"), None);
    assert_eq!(Key::parse("H"), None);
    assert_eq!(Key::parse("E#"), None);
    assert_eq!(Key::parse("Cb"), None);
    assert_eq!(Key::parse("Dbb"), None);
    assert_eq!(Key::parse("é"), None);
}

#[test]
fn note_ordinal_counts_semitones() {
    assert_eq!(Note::new(Key::E, 2).ordinal(), 28);
    assert_eq!(Note::new(Key::C, 0).ordinal(), 0);
    assert_eq!(Note::new(Key::B, -1).ordinal(), -1);
    assert_eq!(Note::new(Key::C, -1).ordinal(), -12);
}

#[test]
fn note_from_negative_ordinal_floors() {
    let n = Note::from_ordinal(-1);
    assert_eq!(n.key(), Key::B);
    assert_eq!(n.octave(), -1);
    let n = Note::from_ordinal(-12);
    assert_eq!(n.key(), Key::C);
    assert_eq!(n.octave(), -1);
    let n = Note::from_ordinal(-13);
    assert_eq!(n.key(), Key::B);
    assert_eq!(n.octave(), -2);
    let n = Note::from_ordinal(33);
    assert_eq!(n.key(), Key::A);
    assert_eq!(n.octave(), 2);
}

#[test]
fn note_add_renormalizes() {
    let e2 = Note::new(Key::E, 2);
    assert_eq!(e2.add(5), Note::new(Key::A, 2));
    assert_eq!(e2.add(8), Note::new(Key::C, 3));
    assert_eq!(e2.add(-5), Note::new(Key::B, 1));
    assert_eq!(Note::new(Key::C, 0).add(-1), Note::new(Key::B, -1));
    assert_eq!(Note::new(Key::C, 0).add(-25), Note::new(Key::B, -3));
    assert_eq!(e2.add(0), e2);
}

#[test]
fn notes_are_ordered_by_ordinal() {
    assert!(Note::new(Key::B, 2).is_below(&Note::new(Key::C, 3)));
    assert!(!Note::new(Key::C, 3).is_below(&Note::new(Key::B, 2)));
    assert!(!Note::new(Key::C, 3).is_below(&Note::new(Key::C, 3)));
}

#[test]
fn note_text_joins_key_and_octave() {
    assert_eq!(Note::new(Key::E, 2).text(), "E2");
    assert_eq!(Note::new(Key::Db, 10).text(), "Db10");
    assert_eq!(Note::new(Key::A, -1).text(), "A-1");
    assert_eq!(Note::new(Key::A, 0).text(), "A0");
    assert_eq!(Note::new(Key::A, i32::MIN).text(), "A-2147483648");
}

#[test]
fn variant_intervals_are_fixed() {
    assert_eq!(Variant::Major.intervals(), vec![0, 4, 7]);
    assert_eq!(Variant::Minor.intervals(), vec![0, 3, 7]);
    assert_eq!(Variant::Seventh.intervals(), vec![0, 4, 7, 10]);
    assert_eq!(Variant::MinorSeventh.intervals(), vec![0, 3, 7, 10]);
    assert_eq!(Variant::MinorSixth.intervals(), vec![0, 3, 7, 9]);
    assert_eq!(Variant::SuspendedSecond.intervals(), vec![0, 2, 7]);
    assert_eq!(Variant::AddNinth.intervals(), vec![0, 4, 7, 14]);
    assert_eq!(Variant::Diminished.intervals(), vec![0, 3, 6]);
    assert_eq!(Variant::Augmented.intervals(), vec![0, 4, 8]);
}

#[test]
fn variant_suffixes_parse_back() {
    for variant in Variant::all() {
        assert_eq!(Variant::parse(variant.text()), Some(variant));
    }
    assert_eq!(Variant::parse("m7"), Some(Variant::MinorSeventh));
    assert_eq!(Variant::parse("M"), None);
    assert_eq!(Variant::parse("m77"), None);
    assert_eq!(Variant::parse("sus4"), None);
    assert_eq!(Variant::parse("maj7"), None);
}

#[test]
fn variant_simplification_table() {
    assert_eq!(Variant::MinorSixth.simplified(), Some(Variant::Minor));
    assert_eq!(Variant::MinorSeventh.simplified(), Some(Variant::Minor));
    assert_eq!(Variant::Seventh.simplified(), Some(Variant::Major));
    assert_eq!(Variant::AddNinth.simplified(), Some(Variant::Major));
    assert_eq!(Variant::Major.simplified(), None);
    assert_eq!(Variant::Minor.simplified(), None);
    assert_eq!(Variant::SuspendedSecond.simplified(), None);
    assert_eq!(Variant::Diminished.simplified(), None);
    assert_eq!(Variant::Augmented.simplified(), None);
}

#[test]
fn chord_keys_follow_the_intervals() {
    let c = Chord::simple(Key::C, Variant::Major);
    assert_eq!(c.keys(), vec![Key::C, Key::E, Key::G]);
    let b = Chord::simple(Key::B, Variant::Major);
    assert_eq!(b.keys(), vec![Key::B, Key::Eb, Key::Gb]);
    let dm7 = Chord::simple(Key::D, Variant::MinorSeventh);
    assert_eq!(dm7.keys(), vec![Key::D, Key::F, Key::A, Key::C]);
    let cadd9 = Chord::simple(Key::C, Variant::AddNinth);
    assert_eq!(cadd9.keys(), vec![Key::C, Key::E, Key::G, Key::D]);
}

#[test]
fn chord_keys_with_bass_adds_a_foreign_bass() {
    let b_over_a = Chord::new(Key::B, Variant::Major, Key::A);
    assert_eq!(b_over_a.keys_with_bass(), vec![Key::B, Key::Eb, Key::Gb, Key::A]);
    let c_over_e = Chord::new(Key::C, Variant::Major, Key::E);
    assert_eq!(c_over_e.keys_with_bass(), vec![Key::C, Key::E, Key::G]);
    let c = Chord::simple(Key::C, Variant::Major);
    assert_eq!(c.keys_with_bass(), c.keys());
}

#[test]
fn chord_text_omits_a_root_bass() {
    assert_eq!(Chord::simple(Key::A, Variant::Major).text(), "A");
    assert_eq!(Chord::new(Key::A, Variant::Major, Key::A).text(), "A");
    assert_eq!(Chord::new(Key::Db, Variant::Seventh, Key::Ab).text(), "Db7/Ab");
    assert_eq!(Chord::new(Key::C, Variant::AddNinth, Key::E).text(), "Cadd9/E");
    assert_eq!(Chord::simple(Key::Gb, Variant::SuspendedSecond).text(), "Gbsus2");
}

#[test]
fn chord_text_round_trips() {
    for root in Key::all() {
        for variant in Variant::all() {
            for bass in Key::all() {
                let chord = Chord::new(root, variant, bass);
                assert_eq!(Chord::parse(&chord.text()), Some(chord));
            }
        }
    }
}

#[test]
fn chord_parse_takes_the_longest_suffix() {
    assert_eq!(Chord::parse("Am7"), Some(Chord::simple(Key::A, Variant::MinorSeventh)));
    assert_eq!(Chord::parse("Am"), Some(Chord::simple(Key::A, Variant::Minor)));
    assert_eq!(Chord::parse("A7"), Some(Chord::simple(Key::A, Variant::Seventh)));
    assert_eq!(
        Chord::parse("C#7/G#"),
        Some(Chord::new(Key::Db, Variant::Seventh, Key::Ab))
    );
    assert_eq!(Chord::parse("Bb"), Some(Chord::simple(Key::Bb, Variant::Major)));
    assert_eq!(Chord::parse("C/C"), Some(Chord::simple(Key::C, Variant::Major)));
}

#[test]
fn chord_parse_refuses_what_is_no_chord() {
    assert_eq!(Chord::parse(""), None);
    assert_eq!(Chord::parse("SomeRandomString"), None);
    assert_eq!(Chord::parse("H"), None);
    assert_eq!(Chord::parse("C/"), None);
    assert_eq!(Chord::parse("C/H"), None);
    assert_eq!(Chord::parse("C/D/E"), None);
    assert_eq!(Chord::parse("Cm7b"), None);
    assert_eq!(Chord::parse("Cb"), None);
    assert_eq!(Chord::parse("/C"), None);
    assert_eq!(Chord::parse("C 7"), None);
    assert_eq!(Chord::parse("cm"), None);
    assert_eq!(Chord::parse("Amaj"), None);
}

#[test]
fn notes_compare_by_ordinal() {
    let mut notes = vec![
        Note::new(Key::C, 3),
        Note::new(Key::B, 2),
        Note::new(Key::E, 4),
        Note::new(Key::A, 2),
        Note::new(Key::C, -1),
    ];
    notes.sort();
    let ordinals: Vec<i64> = notes.iter().map(|n| n.ordinal()).collect();
    assert_eq!(ordinals, vec![-12, 33, 35, 36, 52]);
    assert!(Note::new(Key::B, 2) < Note::new(Key::C, 3));
    assert!(Note::new(Key::C, 3) > Note::new(Key::B, 2));
    assert!(Note::new(Key::C, 3) <= Note::new(Key::C, 3));
    assert_eq!(
        Note::new(Key::B, 2).partial_cmp(&Note::new(Key::C, 3)),
        Some(std::cmp::Ordering::Less)
    );
    assert_eq!(
        Note::new(Key::B, 2).cmp(&Note::new(Key::C, 3)),
        std::cmp::Ordering::Less
    );
}
