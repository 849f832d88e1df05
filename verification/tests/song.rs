use chorddb::chord::Chord;
use chorddb::instrument::StringInstrument;
use chorddb::key::Key;
use chorddb::precomputed::PrecomputedChords;
use chorddb::song::extract_chords;
use chorddb::song::serialize_bit;
use chorddb::song::serialize_line;
use chorddb::song::top_fingerings;
use chorddb::song::LineBitModel;
use chorddb::tablature::parse_line;
use chorddb::tablature::parse_tablature;
use chorddb::tablature::Comp;
use chorddb::tablature::LineBit;
use chorddb::variant::Variant;

#[test]
fn records_keep_what_was_written() {
    let text = LineBit {
        comp: Comp::Text("la la".to_owned()),
        position: 3,
    };
    assert_eq!(
        serialize_bit(&text),
        LineBitModel {
            bit_type: "text".to_owned(),
            position: 3,
            text: "la la".to_owned(),
            chord: None,
        }
    );
    let chord = LineBit {
        comp: Comp::Chord {
            chord: Chord::new(Key::Db, Variant::Seventh, Key::Ab),
            original_text: "C#7/G#".to_owned(),
        },
        position: 9,
    };
    assert_eq!(
        serialize_bit(&chord),
        LineBitModel {
            bit_type: "chord".to_owned(),
            position: 9,
            text: "C#7/G#".to_owned(),
            chord: Some("Db7/Ab".to_owned()),
        }
    );
}

#[test]
fn a_line_gives_one_record_for_each_piece() {
    let records = serialize_line(&parse_line("sing A# now"));
    assert_eq!(records.len(), 3);
    assert_eq!(records[0].bit_type, "text");
    assert_eq!(records[0].text, "sing");
    assert_eq!(records[1].bit_type, "chord");
    assert_eq!(records[1].text, "A#");
    assert_eq!(records[1].chord, Some("Bb".to_owned()));
    assert_eq!(records[1].position, 5);
    assert_eq!(records[2].position, 8);
    assert!(serialize_line(&vec![]).is_empty());
}

#[test]
fn chords_of_a_song_are_listed_once() {
    let tab = parse_tablature("Am G Am\nwords C#m and Dbm\nG   F/C");
    let chords = extract_chords(&tab);
    assert_eq!(
        chords,
        vec![
            Chord::simple(Key::A, Variant::Minor),
            Chord::simple(Key::G, Variant::Major),
            Chord::simple(Key::Db, Variant::Minor),
            Chord::new(Key::F, Variant::Major, Key::C),
        ]
    );
    assert!(extract_chords(&parse_tablature("no chords here")).is_empty());
    assert!(extract_chords(&vec![]).is_empty());
}

#[test]
fn charts_show_the_best_fingering_of_each_chord() {
    let mimi = StringInstrument::mimi();
    let table = PrecomputedChords::new(&mimi);
    let chords = vec![
        Chord::simple(Key::C, Variant::Major),
        Chord::new(Key::C, Variant::Major, Key::E),
        Chord::simple(Key::G, Variant::Major),
    ];
    let charts = top_fingerings(&table, &mimi, &chords);
    assert_eq!(charts.len(), 2);
    assert_eq!(charts[0].chord, "C");
    assert_eq!(charts[0].fingering, "010");
    assert_eq!(charts[1].chord, "G");
    assert_eq!(charts[1].fingering, "433");
    let guitar = StringInstrument::guitar_standard();
    assert!(top_fingerings(&table, &guitar, &chords).is_empty());
}
