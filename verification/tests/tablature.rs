use chorddb::chord::Chord;
use chorddb::key::Key;
use chorddb::tablature::parse_line;
use chorddb::tablature::parse_tablature;
use chorddb::tablature::tokenize;
use chorddb::tablature::Comp;
use chorddb::tablature::LineBit;
use chorddb::tablature::Token;
use chorddb::variant::Variant;

#[test]
fn test_parse_line() {
    assert_eq!(
        parse_line("I'm a genius"),
        vec![LineBit {
            comp: Comp::Text("I'm a genius".to_owned()),
            position: 0
        }]
    );
    assert_eq!(
        parse_line("I'M A GENIUS"),
        vec![
            LineBit {
                comp: Comp::Text("I'M".to_owned()),
                position: 0
            },
            LineBit {
                comp: Comp::Chord {
                    chord: Chord::simple(Key::A, Variant::Major),
                    original_text: "A".to_owned()
                },
                position: 4
            },
            LineBit {
                comp: Comp::Text("GENIUS".to_owned()),
                position: 6
            }
        ]
    );
    assert_eq!(
        parse_line("C#7/G#"),
        vec![LineBit {
            comp: Comp::Chord {
                chord: Chord::new(Key::Db, Variant::Seventh, Key::Ab),
                original_text: "C#7/G#".to_owned()
            },
            position: 0
        }]
    );
    assert_eq!(
        parse_line(" trailing A7 whitespace "),
        vec![
            LineBit {
                comp: Comp::Text("trailing".to_owned()),
                position: 1
            },
            LineBit {
                comp: Comp::Chord {
                    chord: Chord::simple(Key::A, Variant::Seventh),
                    original_text: "A7".to_owned()
                },
                position: 10
            },
            LineBit {
                comp: Comp::Text("whitespace".to_owned()),
                position: 13
            }
        ]
    );
}

#[test]
fn tokens_are_the_longest_runs() {
    assert_eq!(
        tokenize("  Am \t G7"),
        vec![
            Token::Whitespace("  ".to_owned()),
            Token::Text("Am".to_owned()),
            Token::Whitespace(" \t ".to_owned()),
            Token::Text("G7".to_owned()),
        ]
    );
    assert_eq!(tokenize(""), vec![]);
    assert_eq!(tokenize("\r\n"), vec![Token::Whitespace("\r\n".to_owned())]);
    assert_eq!(
        tokenize("a\u{a0}b c"),
        vec![
            Token::Text("a\u{a0}b".to_owned()),
            Token::Whitespace(" ".to_owned()),
            Token::Text("c".to_owned()),
        ]
    );
}

#[test]
fn empty_and_blank_lines_have_no_pieces() {
    assert_eq!(parse_line(""), vec![]);
    assert_eq!(parse_line("   \t "), vec![]);
}

#[test]
fn chords_in_a_row_keep_their_positions() {
    assert_eq!(
        parse_line("Am  G7 C"),
        vec![
            LineBit {
                comp: Comp::Chord {
                    chord: Chord::simple(Key::A, Variant::Minor),
                    original_text: "Am".to_owned()
                },
                position: 0
            },
            LineBit {
                comp: Comp::Chord {
                    chord: Chord::simple(Key::G, Variant::Seventh),
                    original_text: "G7".to_owned()
                },
                position: 4
            },
            LineBit {
                comp: Comp::Chord {
                    chord: Chord::simple(Key::C, Variant::Major),
                    original_text: "C".to_owned()
                },
                position: 7
            },
        ]
    );
}

#[test]
fn positions_count_bytes_and_leading_white_counts_characters() {
    assert_eq!(
        parse_line("é A"),
        vec![
            LineBit {
                comp: Comp::Text("é".to_owned()),
                position: 0
            },
            LineBit {
                comp: Comp::Chord {
                    chord: Chord::simple(Key::A, Variant::Major),
                    original_text: "A".to_owned()
                },
                position: 3
            },
        ]
    );
    assert_eq!(
        parse_line("\u{a0}x\u{2003} D"),
        vec![
            LineBit {
                comp: Comp::Text("x".to_owned()),
                position: 1
            },
            LineBit {
                comp: Comp::Chord {
                    chord: Chord::simple(Key::D, Variant::Major),
                    original_text: "D".to_owned()
                },
                position: 7
            },
        ]
    );
}

#[test]
fn tablature_is_read_line_by_line() {
    let lines = parse_tablature("Am G\r\nla la\n\nC\r");
    assert_eq!(lines.len(), 4);
    assert_eq!(lines[0].len(), 2);
    assert_eq!(lines[0][1].position, 3);
    assert_eq!(
        lines[1],
        vec![LineBit {
            comp: Comp::Text("la la".to_owned()),
            position: 0
        }]
    );
    assert_eq!(lines[2], vec![]);
    assert_eq!(
        lines[3],
        vec![LineBit {
            comp: Comp::Chord {
                chord: Chord::simple(Key::C, Variant::Major),
                original_text: "C".to_owned()
            },
            position: 0
        }]
    );
    assert_eq!(parse_tablature("").len(), 0);
    assert_eq!(parse_tablature("\n").len(), 1);
    assert_eq!(parse_tablature("A\n").len(), 1);
    assert_eq!(parse_tablature("A\nB").len(), 2);
    let same: Vec<usize> = "Am G\r\nla la\n\nC\r".lines().map(|l| l.len()).collect();
    assert_eq!(same, vec![4, 5, 0, 2]);
}
