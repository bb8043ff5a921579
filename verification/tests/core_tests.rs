use lobachevsky::core_types::{Chord, ChordQuality, Mode, Note, PitchClass};
use lobachevsky::LobachevskyError;

#[test]
fn can_transpose_pitch_classes() {
    assert_eq!(PitchClass::C.transpose(3), PitchClass::Ds);
    assert_eq!(PitchClass::A.transpose(3), PitchClass::C);
    assert_eq!(PitchClass::B.transpose(1), PitchClass::C);
    assert_eq!(PitchClass::C.transpose(-1), PitchClass::B);
}

#[test]
fn converting_notes_to_midi() {
    let middle_c = Note::new(PitchClass::C, 4);
    assert_eq!(middle_c.to_midi(), 60);

    let a440 = Note::new(PitchClass::A, 4);
    assert_eq!(a440.to_midi(), 69);

    assert_eq!(Note::from_midi(60), middle_c);
}

#[test]
fn chord_notes() {
    let c_major = Chord::c_major();
    let notes = c_major.notes(4);
    assert_eq!(notes[0], Note::new(PitchClass::C, 4));
    assert_eq!(notes[1], Note::new(PitchClass::E, 4));
    assert_eq!(notes[2], Note::new(PitchClass::G, 4));
}

#[test]
fn can_parse_chords() {
    assert_eq!(("C", ChordQuality::Major), ChordQuality::split_root_quality("C"));
    assert_eq!(("Eb", ChordQuality::Minor), ChordQuality::split_root_quality("Ebm"));
    assert_eq!(("Db", ChordQuality::Diminished), ChordQuality::split_root_quality("Db°"));
    assert_eq!(("Ab", ChordQuality::Augmented), ChordQuality::split_root_quality("Ab+"));
    assert_eq!(("C#", ChordQuality::DominantSeventh), ChordQuality::split_root_quality("C#7"));
    assert_eq!(("B", ChordQuality::HalfDiminished), ChordQuality::split_root_quality("Bø7"));
    assert_eq!(("E", ChordQuality::FullyDiminished), ChordQuality::split_root_quality("E°7"));
    assert_eq!(("A", ChordQuality::MinorSeventh), ChordQuality::split_root_quality("Am7"));
    assert_eq!(("G", ChordQuality::MajorSeventh), ChordQuality::split_root_quality("Gmaj7"));
    assert_eq!(("D", ChordQuality::MinorMajorSeventh), ChordQuality::split_root_quality("DmMaj7"));
    assert_eq!(
        ("Bb", ChordQuality::AugmentedMajorSeventh),
        ChordQuality::split_root_quality("Bb+maj7")
    );
    assert_eq!(("G#", ChordQuality::Sus2), ChordQuality::split_root_quality("G#sus2"));
    assert_eq!(("F", ChordQuality::Sus4), ChordQuality::split_root_quality("Fsus4"));
    assert_eq!(("F#", ChordQuality::SevenSus2), ChordQuality::split_root_quality("F#7sus2"));
    assert_eq!(("C", ChordQuality::SevenSus4), ChordQuality::split_root_quality("C7sus4"));
    assert_eq!(("B", ChordQuality::HalfDiminished), ChordQuality::split_root_quality("Bm7b5"));
    assert_eq!(("E", ChordQuality::FullyDiminished), ChordQuality::split_root_quality("Edim7"));
    assert_eq!(("D", ChordQuality::Diminished), ChordQuality::split_root_quality("Ddim"));
    assert_eq!(("C", ChordQuality::Augmented), ChordQuality::split_root_quality("Caug"));
    assert_eq!(ChordQuality::split_root_quality("Fø7"), ChordQuality::split_root_quality("Fm7b5"));
    assert_eq!(ChordQuality::split_root_quality("G°7"), ChordQuality::split_root_quality("Gdim7"));
    assert_eq!(ChordQuality::split_root_quality("A°"), ChordQuality::split_root_quality("Adim"));
    assert_eq!(ChordQuality::split_root_quality("D+"), ChordQuality::split_root_quality("Daug"));
    assert_eq!(("F#", ChordQuality::Major), ChordQuality::split_root_quality("F#"));
    assert_eq!(("Bb", ChordQuality::Minor), ChordQuality::split_root_quality("Bbm"));
    assert_eq!(("D#", ChordQuality::DominantSeventh), ChordQuality::split_root_quality("D#7"));
}

#[test]
fn transposing_by_an_octave_changes_nothing() {
    for p in [PitchClass::C, PitchClass::Fs, PitchClass::B] {
        assert_eq!(p.transpose(12), p);
        assert_eq!(p.transpose(-12), p);
        assert_eq!(p.transpose(5).transpose(7), p);
    }
}

#[test]
fn midi_round_trip_and_wrapping() {
    for m in [0u8, 21, 60, 69, 127] {
        assert_eq!(Note::from_midi(m).to_midi(), m);
    }
    assert_eq!(Note::from_midi(61), Note::new(PitchClass::Cs, 4));
    assert_eq!(Note::new(PitchClass::C, 4).transpose(12), Note::new(PitchClass::C, 5));
}

#[test]
fn pitch_names_and_errors() {
    assert_eq!(PitchClass::try_from("Eb").unwrap(), PitchClass::Ds);
    assert_eq!(PitchClass::try_from("A#").unwrap(), PitchClass::As);
    match PitchClass::try_from("H") {
        Err(LobachevskyError::InvalidPitch { input }) => assert_eq!(input, "H"),
        other => panic!("unexpected {:?}", other),
    }
    assert_eq!(PitchClass::Cs.enharmonic_name(false), "D♭");
    assert_eq!(PitchClass::Cs.enharmonic_name(true), "C♯");
}

#[test]
fn modes_and_their_triads() {
    assert_eq!(Mode::try_from("DORIAN").unwrap(), Mode::Dorian);
    match Mode::try_from("blues") {
        Err(LobachevskyError::InvalidMode { input }) => assert_eq!(input, "blues"),
        other => panic!("unexpected {:?}", other),
    }
    let triads = Mode::Ionian.triads(PitchClass::C);
    assert_eq!(triads.len(), 7);
    assert_eq!(triads[0], Chord::c_major());
    assert_eq!(triads[1], Chord::d_minor());
    assert_eq!(triads[6], Chord::new(PitchClass::B, ChordQuality::Diminished));
    assert!(Mode::Ionian.contains_chord(PitchClass::C, Chord::a_minor()));
    assert!(!Mode::Ionian.contains_chord(PitchClass::C, Chord::minor(PitchClass::C)));
    assert_eq!(Mode::Lydian.intervals(), vec![0, 2, 4, 6, 7, 9, 11]);
}

#[test]
fn chord_parsing_and_names() {
    assert_eq!(Chord::try_from("F#m").unwrap(), Chord::minor(PitchClass::Fs));
    assert_eq!(Chord::try_from("Cmaj7").unwrap(), Chord::c_major_seventh());
    match Chord::try_from("Xm") {
        Err(LobachevskyError::InvalidPitch { input }) => assert_eq!(input, "X"),
        other => panic!("unexpected {:?}", other),
    }
    assert_eq!(Chord::a_minor().name(true), "Am");
    assert_eq!(ChordQuality::DominantSeventh.underlying_triad(), ChordQuality::Major);
    assert!(ChordQuality::Sus4.is_suspended());
    assert!(ChordQuality::MinorSeventh.is_seventh());
    assert_eq!(Chord::c_dominant_seventh().notes(4).len(), 4);
}

#[test]
fn root_and_symbol_split_back() {
    let roots = [
        "C", "B#", "C#", "Cs", "Db", "D", "D#", "Ds", "Eb", "E", "Fb", "F", "E#", "F#", "Fs", "Gb", "G", "G#", "Gs",
        "Ab", "A", "A#", "As", "Bb", "B", "Cb",
    ];
    let qualities = [
        ChordQuality::Major,
        ChordQuality::Minor,
        ChordQuality::Diminished,
        ChordQuality::Augmented,
        ChordQuality::MajorSeventh,
        ChordQuality::MinorSeventh,
        ChordQuality::DominantSeventh,
        ChordQuality::MinorMajorSeventh,
        ChordQuality::HalfDiminished,
        ChordQuality::FullyDiminished,
        ChordQuality::AugmentedMajorSeventh,
        ChordQuality::Sus2,
        ChordQuality::Sus4,
        ChordQuality::SevenSus2,
        ChordQuality::SevenSus4,
    ];
    for root in roots {
        for q in qualities {
            let text = format!("{}{}", root, q.symbol());
            assert_eq!(ChordQuality::split_root_quality(&text), (root, q));
            let pitch = PitchClass::try_from(root).ok().unwrap();
            assert_eq!(Chord::try_from(text.as_str()).ok(), Some(Chord::new(pitch, q)));
        }
    }
}
