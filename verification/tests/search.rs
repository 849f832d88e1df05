use chorddb::chord::Chord;
use chorddb::finder::find_fingerings;
use chorddb::finder::get_valid_fingering;
use chorddb::finder::is_in_range;
use chorddb::finder::BacktrackState;
use chorddb::finder::Rejection;
use chorddb::fingering::Fingering;
use chorddb::instrument::Corda;
use chorddb::instrument::StringInstrument;
use chorddb::key::Key;
use chorddb::note::Note;
use chorddb::variant::Variant;

fn build_state_for(
    chord: &Chord,
    instrument: &StringInstrument,
    placements: Vec<Option<usize>>,
) -> BacktrackState {
    let mut state = BacktrackState::starting(chord, instrument);
    for placement in placements {
        state.push_placement(placement);
    }
    state
}

fn placements_of(fingerings: &[Fingering]) -> Vec<Vec<Option<usize>>> {
    fingerings.iter().map(|f| f.placements().to_vec()).collect()
}

#[test]
fn finder_exploration() {
    let guitar = StringInstrument::guitar_standard();
    let chords = [
        Chord::parse("A7").unwrap(),
        Chord::parse("A").unwrap(),
        Chord::parse("Am").unwrap(),
        Chord::parse("Bb").unwrap(),
        Chord::parse("B").unwrap(),
        Chord::parse("C").unwrap(),
        Chord::parse("Db").unwrap(),
        Chord::parse("D").unwrap(),
        Chord::parse("Eb").unwrap(),
        Chord::parse("E").unwrap(),
        Chord::parse("F").unwrap(),
        Chord::parse("Gb").unwrap(),
        Chord::parse("G").unwrap(),
        Chord::parse("Ab").unwrap(),
        Chord::parse("Dbm").unwrap(),
        Chord::parse("Db7").unwrap(),
        Chord::parse("Db7/C").unwrap(),
    ];
    for chord in chords {
        let fingerings = find_fingerings(&chord, &guitar);
        println!("Found {} fingerings for {}", fingerings.len(), chord.text());
        for f in fingerings.iter().take(10) {
            println!("({}) for Instrument<{}>", f.to_str(), f.instrument_id());
        }
    }
}

#[test]
fn test_is_valid_fingering() {
    let guitar = StringInstrument::guitar_standard();
    let chord = Chord::parse("Cadd9").expect("Invalid chord");
    let fingering = vec![None, Some(3), Some(2), Some(0), Some(3), Some(0)];
    let state = build_state_for(&chord, &guitar, fingering.clone());
    if let Err(why) = get_valid_fingering(&chord, &guitar, &state) {
        panic!(
            "Expected fingering {:?} to be valid for {} but it was not. Error: {:?}",
            fingering,
            chord.text(),
            why
        )
    }
}

#[test]
fn bass_chord_on_guitar() {
    let guitar = StringInstrument::guitar_standard();
    let chord = Chord::parse("B/A").expect("Invalid chord");
    let fingerings = find_fingerings(&chord, &guitar);
    assert_ne!(fingerings.len(), 0);
    let all = placements_of(&fingerings);
    assert!(all.contains(&vec![None, Some(0), Some(4), Some(4), Some(4), Some(2)]));
    assert_eq!(
        fingerings.first().unwrap().placements(),
        &[Some(5), Some(2), Some(1), Some(4), Some(0), Some(2)]
    );
    assert_eq!(fingerings.len(), 365);
    for f in &fingerings {
        assert_eq!(f.instrument_id(), "guitar");
        assert_eq!(f.placements().len(), 6);
    }
}

#[test]
fn validator_names_each_rejection() {
    let guitar = StringInstrument::guitar_standard();
    let chord = Chord::parse("B/A").unwrap();
    let muted = build_state_for(&chord, &guitar, vec![None; 6]);
    assert_eq!(
        get_valid_fingering(&chord, &guitar, &muted).err(),
        Some(Rejection::NoNotes)
    );
    let wrong_bass = build_state_for(
        &chord,
        &guitar,
        vec![Some(2), Some(0), Some(4), Some(4), Some(4), Some(2)],
    );
    assert_eq!(
        get_valid_fingering(&chord, &guitar, &wrong_bass).err(),
        Some(Rejection::BadBass)
    );
    let doubled_bass = build_state_for(
        &chord,
        &guitar,
        vec![Some(5), Some(0), Some(4), Some(4), Some(4), Some(2)],
    );
    assert_eq!(
        get_valid_fingering(&chord, &guitar, &doubled_bass).err(),
        Some(Rejection::BadNotes)
    );
    let missing_third = build_state_for(
        &chord,
        &guitar,
        vec![None, Some(0), Some(4), Some(4), Some(0), Some(2)],
    );
    assert_eq!(
        get_valid_fingering(&chord, &guitar, &missing_third).err(),
        Some(Rejection::BadNotes)
    );
    let good = build_state_for(
        &chord,
        &guitar,
        vec![None, Some(0), Some(4), Some(4), Some(4), Some(2)],
    );
    let fingering = get_valid_fingering(&chord, &guitar, &good).unwrap();
    assert_eq!(
        fingering.placements(),
        &[None, Some(0), Some(4), Some(4), Some(4), Some(2)]
    );
    assert_eq!(fingering.instrument_id(), "guitar");
}

#[test]
fn root_bass_counts_the_lowest_note() {
    let guitar = StringInstrument::guitar_standard();
    let chord = Chord::parse("C").unwrap();
    let open_c = build_state_for(
        &chord,
        &guitar,
        vec![None, Some(3), Some(2), Some(0), Some(1), Some(0)],
    );
    assert!(get_valid_fingering(&chord, &guitar, &open_c).is_ok());
    let without_root = build_state_for(
        &chord,
        &guitar,
        vec![None, None, Some(2), Some(0), Some(0), Some(0)],
    );
    assert_eq!(
        get_valid_fingering(&chord, &guitar, &without_root).err(),
        Some(Rejection::BadBass)
    );
}

#[test]
fn push_and_pop_restore_the_state() {
    let guitar = StringInstrument::guitar_standard();
    let chord = Chord::parse("C").unwrap();
    let mut state = build_state_for(&chord, &guitar, vec![None, Some(3), Some(2)]);
    assert_eq!(state.first_fingered_placement(), Some(2));
    assert_eq!(state.last_fingered_placement(), Some(3));
    state.push_placement(Some(0));
    assert_eq!(state.first_fingered_placement(), Some(2));
    state.push_placement(Some(5));
    assert_eq!(state.last_fingered_placement(), Some(5));
    state.pop_placement();
    state.pop_placement();
    assert_eq!(state.first_fingered_placement(), Some(2));
    assert_eq!(state.last_fingered_placement(), Some(3));
    state.pop_placement();
    state.pop_placement();
    assert_eq!(state.first_fingered_placement(), None);
    state.pop_placement();
    state.pop_placement();
    assert_eq!(state.last_fingered_placement(), None);
}

#[test]
fn span_guard_bounds_the_hand() {
    let guitar = StringInstrument::guitar_standard();
    let chord = Chord::parse("C").unwrap();
    let empty = build_state_for(&chord, &guitar, vec![]);
    assert!(is_in_range(&empty, &23));
    let open_only = build_state_for(&chord, &guitar, vec![Some(0), None]);
    assert!(is_in_range(&open_only, &17));
    let state = build_state_for(&chord, &guitar, vec![Some(5), Some(0), Some(7)]);
    assert!(is_in_range(&state, &0));
    assert!(is_in_range(&state, &3));
    assert!(is_in_range(&state, &9));
    assert!(!is_in_range(&state, &2));
    assert!(!is_in_range(&state, &10));
    let low = build_state_for(&chord, &guitar, vec![Some(1), Some(3)]);
    assert!(is_in_range(&low, &5));
    assert!(!is_in_range(&low, &6));
    assert!(is_in_range(&low, &1));
}

#[test]
fn search_is_repeatable() {
    let guitar = StringInstrument::guitar_standard();
    let chord = Chord::parse("Am7").unwrap();
    let first = find_fingerings(&chord, &guitar);
    let second = find_fingerings(&chord, &guitar);
    assert!(!first.is_empty());
    assert_eq!(placements_of(&first), placements_of(&second));
}

#[test]
fn small_instrument_searches_the_simpler_chord() {
    let mimi = StringInstrument::mimi();
    let asked = Chord::new(Key::D, Variant::MinorSeventh, Key::A);
    let simpler = Chord::simple(Key::D, Variant::Minor);
    let found = find_fingerings(&asked, &mimi);
    let expected = find_fingerings(&simpler, &mimi);
    assert!(!found.is_empty());
    assert_eq!(placements_of(&found), placements_of(&expected));
    let dm7_as_it_stands = StringInstrument::without_bass(
        "wide",
        "Wide",
        "four strings",
        vec![
            Corda::new(Note::new(Key::D, 3), 16),
            Corda::new(Note::new(Key::G, 3), 16),
            Corda::new(Note::new(Key::B, 3), 16),
            Corda::new(Note::new(Key::E, 4), 16),
        ],
    );
    let kept = find_fingerings(&asked, &dm7_as_it_stands);
    let rooted = find_fingerings(&Chord::simple(Key::D, Variant::MinorSeventh), &dm7_as_it_stands);
    assert_eq!(placements_of(&kept), placements_of(&rooted));
    assert!(!kept.is_empty());
}

#[test]
fn impossible_requests_find_nothing() {
    let one_string = StringInstrument::with_bass(
        "mono",
        "Mono",
        "one string",
        vec![Corda::new(Note::new(Key::E, 2), 3)],
    );
    assert!(find_fingerings(&Chord::simple(Key::C, Variant::Major), &one_string).is_empty());
    let no_strings = StringInstrument::with_bass("none", "None", "no strings", vec![]);
    assert!(find_fingerings(&Chord::simple(Key::C, Variant::Major), &no_strings).is_empty());
    let no_frets = StringInstrument::without_bass(
        "stub",
        "Stub",
        "no frets",
        vec![
            Corda::new(Note::new(Key::C, 3), 0),
            Corda::new(Note::new(Key::E, 3), 0),
            Corda::new(Note::new(Key::G, 3), 0),
        ],
    );
    assert!(find_fingerings(&Chord::simple(Key::C, Variant::Major), &no_frets).is_empty());
}

#[test]
fn open_strings_alone_can_be_a_chord() {
    let triad = StringInstrument::without_bass(
        "triad",
        "Triad",
        "three open strings",
        vec![
            Corda::new(Note::new(Key::C, 3), 1),
            Corda::new(Note::new(Key::E, 3), 1),
            Corda::new(Note::new(Key::G, 3), 1),
        ],
    );
    let found = find_fingerings(&Chord::simple(Key::C, Variant::Major), &triad);
    assert_eq!(placements_of(&found), vec![vec![Some(0), Some(0), Some(0)]]);
}

#[test]
fn instrument_parts_are_kept() {
    let guitar = StringInstrument::guitar_standard();
    assert_eq!(guitar.id(), "guitar");
    assert_eq!(guitar.name(), "Guitar");
    assert_eq!(guitar.description(), "6-String Guitar, Standard Tuning (EADGBE)");
    assert!(guitar.has_bass());
    assert_eq!(guitar.strings().len(), 6);
    assert_eq!(guitar.strings()[0], Corda::new(Note::new(Key::E, 2), 24));
    let mimi = StringInstrument::mimi();
    assert_eq!(mimi.id(), "mimi");
    assert_eq!(mimi.name(), "Mimi");
    assert_eq!(mimi.description(), "Loog Guitar, tuned GBE");
    assert!(!mimi.has_bass());
    assert!(guitar.same_as(&guitar.duplicate()));
    assert!(!guitar.same_as(&mimi));
}

#[test]
fn small_instrument_keeps_a_chord_without_a_simpler_one() {
    let mimi = StringInstrument::mimi();
    let dim = Chord::new(Key::B, Variant::Diminished, Key::D);
    let found = find_fingerings(&dim, &mimi);
    let rooted = find_fingerings(&Chord::simple(Key::B, Variant::Diminished), &mimi);
    assert!(!found.is_empty());
    assert_eq!(placements_of(&found), placements_of(&rooted));
    let major = find_fingerings(&Chord::simple(Key::B, Variant::Major), &mimi);
    assert_ne!(placements_of(&found), placements_of(&major));
}

#[test]
fn unreachable_bass_finds_nothing() {
    let short = StringInstrument::with_bass(
        "short",
        "Short",
        "four strings, three frets",
        vec![
            Corda::new(Note::new(Key::E, 2), 3),
            Corda::new(Note::new(Key::A, 2), 3),
            Corda::new(Note::new(Key::D, 3), 3),
            Corda::new(Note::new(Key::G, 3), 3),
        ],
    );
    let chord = Chord::new(Key::E, Variant::Minor, Key::C);
    assert!(find_fingerings(&chord, &short).is_empty());
    assert!(!find_fingerings(&Chord::simple(Key::E, Variant::Minor), &short).is_empty());
}

fn admissible(chord: &Chord, instrument: &StringInstrument, p: &[Option<usize>]) -> bool {
    let tones = chord.keys_with_bass();
    let mut state = BacktrackState::starting(chord, instrument);
    for (i, placement) in p.iter().enumerate() {
        if let Some(fret) = placement {
            let string = instrument.strings()[i];
            if *fret >= string.frets {
                return false;
            }
            let sounded = string.note.add(*fret as i32).key();
            if !tones.contains(&sounded) {
                return false;
            }
            if !is_in_range(&state, fret) {
                return false;
            }
        }
        state.push_placement(*placement);
    }
    get_valid_fingering(chord, instrument, &state).is_ok()
}

#[test]
fn search_finds_every_admissible_assignment_and_no_other() {
    let mimi = StringInstrument::mimi();
    let choices: Vec<Option<usize>> = (0..16).map(Some).chain([None]).collect();
    for chord in [
        Chord::simple(Key::C, Variant::Major),
        Chord::simple(Key::G, Variant::Major),
        Chord::simple(Key::A, Variant::Minor),
        Chord::simple(Key::B, Variant::Diminished),
        Chord::simple(Key::E, Variant::SuspendedSecond),
    ] {
        let mut expected: Vec<Vec<Option<usize>>> = vec![];
        for a in &choices {
            for b in &choices {
                for c in &choices {
                    let p = vec![*a, *b, *c];
                    if admissible(&chord, &mimi, &p) {
                        expected.push(p);
                    }
                }
            }
        }
        let found = placements_of(&find_fingerings(&chord, &mimi));
        assert!(!found.is_empty());
        assert_eq!(found, expected);
    }
}

#[test]
fn every_guitar_fingering_passes_the_validator() {
    let guitar = StringInstrument::guitar_standard();
    let chord = Chord::parse("Cadd9").unwrap();
    let found = find_fingerings(&chord, &guitar);
    assert!(placements_of(&found).contains(&vec![
        None,
        Some(3),
        Some(2),
        Some(0),
        Some(3),
        Some(0)
    ]));
    for f in &found {
        assert!(admissible(&chord, &guitar, f.placements()));
    }
    let mut seen = placements_of(&found);
    seen.sort();
    seen.dedup();
    assert_eq!(seen.len(), found.len());
}
