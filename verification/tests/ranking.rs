use chorddb::chord::Chord;
use chorddb::finder::find_fingerings;
use chorddb::fingering::Fingering;
use chorddb::instrument::StringInstrument;
use chorddb::key::Key;
use chorddb::precomputed::rank_fingerings;
use chorddb::precomputed::ChordRepository;
use chorddb::precomputed::PrecomputedChords;
use chorddb::ranker::PENALTY_LIMIT;
use chorddb::ranker::UNPLAYABLE;
use chorddb::variant::Variant;

const X: Option<usize> = None;

fn fingering(placements: Vec<Option<usize>>) -> Fingering {
    Fingering::new("guitar".to_string(), placements)
}

fn penalty(placements: Vec<Option<usize>>) -> i32 {
    PrecomputedChords::fingering_penalty(&fingering(placements))
}

#[test]
fn penalty_of_known_shapes() {
    assert_eq!(penalty(vec![X, Some(0), Some(4), Some(4), Some(4), Some(2)]), 44);
    assert_eq!(penalty(vec![X, Some(0), Some(1), Some(4), Some(0), Some(2)]), 37);
    assert_eq!(penalty(vec![X, Some(3), Some(2), Some(0), Some(1), Some(0)]), 21);
    assert_eq!(penalty(vec![Some(0), Some(2), Some(2), Some(1), Some(0), Some(0)]), 7);
    assert_eq!(penalty(vec![Some(1), Some(3), Some(3), Some(2), Some(1), Some(1)]), 29);
    assert_eq!(penalty(vec![X, X, Some(0), Some(2), Some(3), Some(2)]), 31);
    assert_eq!(penalty(vec![Some(3), Some(2), Some(0), Some(0), Some(0), Some(3)]), 12);
    assert_eq!(penalty(vec![Some(5), Some(7), Some(7), Some(6), Some(5), Some(5)]), 45);
    assert_eq!(penalty(vec![Some(0), Some(5), Some(6), Some(7), Some(8), X]), 57);
    assert_eq!(penalty(vec![X, Some(13), Some(12), X]), 70);
}

#[test]
fn penalty_of_nothing_played() {
    assert_eq!(penalty(vec![]), 0);
    assert_eq!(penalty(vec![Some(0), Some(0), Some(0)]), 0);
    assert_eq!(penalty(vec![X, X, X, X, X, X]), 120);
}

#[test]
fn penalty_counts_holes() {
    assert_eq!(penalty(vec![Some(2), X, Some(2), X, Some(2), X]), 68);
    assert_eq!(penalty(vec![Some(1), Some(1), X, Some(3), Some(3), Some(0)]), 116);
    assert_eq!(penalty(vec![X, Some(1), Some(1), Some(0), Some(3), Some(3)]), 76);
    assert_eq!(penalty(vec![Some(2), Some(2), Some(0), Some(4), Some(4)]), 70);
}

#[test]
fn too_many_fingers_get_the_fixed_penalty() {
    assert_eq!(UNPLAYABLE, 1000);
    assert_eq!(penalty(vec![Some(1), Some(2), Some(3), Some(4), Some(5), X]), 1000);
    assert_eq!(penalty(vec![Some(1), Some(2), Some(2), Some(2), Some(2)]), 1000);
    assert_eq!(penalty(vec![Some(9), Some(8), Some(7), Some(6), Some(5), Some(4), Some(3)]), 1000);
    assert_ne!(penalty(vec![Some(1), Some(2), Some(2), Some(2), Some(1)]), 1000);
}

#[test]
fn penalty_is_never_negative_and_stops_at_the_limit() {
    assert_eq!(PENALTY_LIMIT, i32::MAX);
    assert_eq!(penalty(vec![Some(50000), X, Some(4)]), i32::MAX);
    assert_eq!(penalty(vec![Some(1), X, Some(50000)]), i32::MAX);
    assert_eq!(penalty(vec![Some(usize::MAX), Some(1)]), i32::MAX);
    assert_eq!(penalty(vec![Some(usize::MAX)]), i32::MAX);
    assert_eq!(penalty(vec![Some(1), Some(46341)]), i32::MAX);
    assert_eq!(penalty(vec![Some(30000), Some(30001), Some(30002)]), 120007);
    for placements in [
        vec![],
        vec![X],
        vec![Some(0)],
        vec![Some(usize::MAX), X, Some(0)],
        vec![Some(3), Some(3), Some(3), Some(3)],
    ] {
        assert!(penalty(placements) >= 0);
    }
}

#[test]
fn holes_are_told_apart() {
    let f = fingering(vec![X, Some(1), X, Some(1), Some(0)]);
    assert!(PrecomputedChords::has_note_hole(&f));
    assert!(PrecomputedChords::has_bar_hole(&f, &1));
    assert!(!PrecomputedChords::has_bar_hole(&f, &0));
    assert!(!PrecomputedChords::has_bar_hole(&f, &7));
    let f = fingering(vec![X, X, Some(2), Some(2), Some(3), X]);
    assert!(!PrecomputedChords::has_note_hole(&f));
    assert!(PrecomputedChords::has_bar_hole(&f, &2));
    assert!(PrecomputedChords::has_bar_hole(&f, &3));
    let f = fingering(vec![Some(0), Some(2), Some(2), Some(1), Some(0), Some(0)]);
    assert!(!PrecomputedChords::has_note_hole(&f));
    assert!(PrecomputedChords::has_bar_hole(&f, &1));
    assert!(!PrecomputedChords::has_bar_hole(&f, &0));
    let f = fingering(vec![Some(2), Some(2), Some(3)]);
    assert!(!PrecomputedChords::has_bar_hole(&f, &2));
    let f = fingering(vec![]);
    assert!(!PrecomputedChords::has_note_hole(&f));
    assert!(!PrecomputedChords::has_bar_hole(&f, &0));
}

#[test]
fn fingering_text_has_commas_only_for_wide_frets() {
    assert_eq!(
        fingering(vec![X, Some(3), Some(2), Some(0), Some(1), Some(0)]).to_str(),
        "X32010"
    );
    assert_eq!(
        fingering(vec![X, Some(10), Some(12), Some(12), Some(11), Some(10)]).to_str(),
        "X,10,12,12,11,10"
    );
    assert_eq!(fingering(vec![Some(1), Some(13)]).to_str(), "1,13");
    assert_eq!(fingering(vec![Some(9), Some(9)]).to_str(), "99");
    assert_eq!(fingering(vec![Some(10)]).to_str(), "10");
    assert_eq!(fingering(vec![X]).to_str(), "X");
    assert_eq!(fingering(vec![]).to_str(), "");
    assert_eq!(
        fingering(vec![Some(usize::MAX), X]).to_str(),
        format!("{},X", usize::MAX)
    );
}

#[test]
fn fingering_keeps_its_parts() {
    let f = Fingering::new("mimi".to_string(), vec![Some(2), X, Some(0)]);
    assert_eq!(f.instrument_id(), "mimi");
    assert_eq!(f.placements(), &[Some(2), X, Some(0)]);
}

#[test]
fn ranking_is_ordered_and_stable() {
    let input = vec![
        fingering(vec![X, Some(0), Some(4), Some(4), Some(4), Some(2)]),
        fingering(vec![Some(1), Some(2), Some(3), Some(4), Some(5), X]),
        fingering(vec![Some(0), Some(2), Some(2), Some(1), Some(0), Some(0)]),
        fingering(vec![Some(3), Some(0), Some(0)]),
        fingering(vec![Some(0), Some(0), Some(3)]),
        fingering(vec![X, Some(0), Some(1), Some(4), Some(0), Some(2)]),
    ];
    let ranked = rank_fingerings(input);
    let texts: Vec<String> = ranked.iter().map(|f| f.to_str()).collect();
    assert_eq!(texts, vec!["022100", "300", "003", "X01402", "X04442", "12345X"]);
    let penalties: Vec<i32> = ranked
        .iter()
        .map(|f| PrecomputedChords::fingering_penalty(f))
        .collect();
    assert_eq!(penalties, vec![7, 12, 12, 37, 44, 1000]);
    assert!(rank_fingerings(vec![]).is_empty());
}

#[test]
fn precomputed_chords_are_ranked_searches() {
    let mimi = StringInstrument::mimi();
    let table = PrecomputedChords::new(&mimi);
    for root in Key::all() {
        for variant in Variant::all() {
            let chord = Chord::simple(root, variant);
            let stored = table.get_fingerings(&mimi, &chord);
            let ranked = rank_fingerings(find_fingerings(&chord, &mimi));
            assert_eq!(stored.len(), ranked.len());
            for (a, b) in stored.iter().zip(ranked.iter()) {
                assert_eq!(a.placements(), b.placements());
                assert_eq!(a.instrument_id(), "mimi");
            }
            for pair in stored.windows(2) {
                assert!(
                    PrecomputedChords::fingering_penalty(&pair[0])
                        <= PrecomputedChords::fingering_penalty(&pair[1])
                );
            }
        }
    }
    let c = table.get_fingerings(&mimi, &Chord::simple(Key::C, Variant::Major));
    assert!(!c.is_empty());
    assert_eq!(c[0].to_str(), "010");
}

#[test]
fn precomputed_chords_answer_only_what_they_hold() {
    let mimi = StringInstrument::mimi();
    let table = PrecomputedChords::new(&mimi);
    let with_bass = Chord::new(Key::C, Variant::Major, Key::E);
    assert!(table.get_fingerings(&mimi, &with_bass).is_empty());
    let guitar = StringInstrument::guitar_standard();
    assert!(table
        .get_fingerings(&guitar, &Chord::simple(Key::C, Variant::Major))
        .is_empty());
}
