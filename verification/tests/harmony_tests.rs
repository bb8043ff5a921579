use lobachevsky::bass::BassStrategy;
use lobachevsky::cli_inputs::{
    parse_mode_and_tonic, parse_transforms, ExtendedInput, GenerateInput, HexatonicInput, ModalInput,
    ProgressionInput,
};
use lobachevsky::composition::{calculate_aligned_bars, plan_progression};
use lobachevsky::core_types::{Chord, Mode, PitchClass};
use lobachevsky::generation::HexatonicCycle;
use lobachevsky::harmony::HarmonicPattern;
use lobachevsky::melody::{CallResponseType, MelodyStrategy, SelfHarmony};
use lobachevsky::theory::Transform;
use lobachevsky::LobachevskyError;

fn pattern_of(names: &[&str]) -> HarmonicPattern {
    HarmonicPattern {
        name: "test".to_string(),
        description: None,
        start_chord: "C".to_string(),
        transformations: names.iter().map(|s| s.to_string()).collect(),
        mode: None,
        tonic: None,
        return_to_start: None,
        tempo_hint: None,
        bars_hint: None,
    }
}

#[test]
fn parsing_harmonic_pattern_transform() {
    let pattern = pattern_of(&["P", "L", "R", "PL"]);
    let transforms = pattern.parse_transformations().expect("Should parse transforms");
    assert_eq!(transforms.len(), 4);
}

#[test]
fn parse_transformations() {
    let pattern = pattern_of(&["P", "R", "L"]);
    let transforms = pattern.parse_transformations().expect("Should parse transforms");
    assert_eq!(transforms.len(), 3);
    assert_eq!(transforms[0], Transform::P);
    assert_eq!(transforms[1], Transform::R);
    assert_eq!(transforms[2], Transform::L);
}

#[test]
fn test_compound_transformations() {
    let mut pattern = pattern_of(&["PL", "RP", "LPL"]);
    pattern.name = "compound_test".to_string();
    let transforms = pattern.parse_transformations().expect("Should parse compound transforms");
    assert_eq!(transforms.len(), 3);
}

#[test]
fn first_bad_transformation_is_the_error() {
    let pattern = pattern_of(&["P", "Q", "Z"]);
    match pattern.parse_transformations() {
        Err(LobachevskyError::InvalidTransformation { input }) => assert_eq!(input, "Q"),
        other => panic!("unexpected {:?}", other),
    }
}

#[test]
fn typed_patterns() {
    let mut pattern = pattern_of(&["P", "L"]);
    pattern.mode = Some("Dorian".to_string());
    pattern.tonic = Some("D".to_string());
    pattern.start_chord = "Dm".to_string();
    pattern.return_to_start = Some(true);
    let typed = pattern.to_typed().unwrap();
    assert_eq!(typed.start_chord, Chord::d_minor());
    assert_eq!(typed.mode, Some(Mode::Dorian));
    assert_eq!(typed.tonic, Some(PitchClass::D));
    assert!(typed.return_to_start);
    assert_eq!(typed.name, "test");

    pattern.tonic = None;
    match pattern.to_typed() {
        Err(LobachevskyError::ParseError { message }) => {
            assert_eq!(message, "Mode and tonic must both be specified or both be absent")
        }
        other => panic!("unexpected {:?}", other.map(|t| t.name)),
    }
    pattern.start_chord = "Hm".to_string();
    assert!(matches!(pattern.to_typed(), Err(LobachevskyError::InvalidPitch { .. })));
    let default = HarmonicPattern::default();
    assert_eq!(default.start_chord, "Cmaj");
    // "Cmaj" names C major.
    assert_eq!(default.to_typed().unwrap().start_chord, Chord::c_major());
}

#[test]
fn test_bar_alignment() {
    let test_cases = vec![
        (8, 16),
        (16, 16),
        (17, 32),
        (32, 32),
        (33, 48),
        (48, 48),
        (64, 64),
        (100, 112),
        (127, 128),
        (128, 128),
        (200, 208),
        (256, 256),
    ];
    for (input, expected) in test_cases {
        let aligned = calculate_aligned_bars(input);
        assert_eq!(
            aligned, expected,
            "Bar alignment failed: {} bars should align to {} but got {}",
            input, expected, aligned
        );
    }
}

#[test]
fn test_bar_alignment_edge_cases() {
    assert_eq!(calculate_aligned_bars(0), 16);
    assert_eq!(calculate_aligned_bars(1), 16);
    assert_eq!(calculate_aligned_bars(15), 16);
    assert_eq!(calculate_aligned_bars(31), 32);
    assert_eq!(calculate_aligned_bars(1000), 1008);
}

#[test]
fn composition_fills_the_aligned_bars() {
    let typed = pattern_of(&["R", "L"]).to_typed().unwrap();
    let chords = plan_progression(&typed, 10);
    assert_eq!(chords.len(), 16);
    assert_eq!(chords[0], Chord::c_major());
    assert_eq!(chords[1], Chord::a_minor());
    assert_eq!(chords[2], Chord::f_major());
}

#[test]
fn cli_inputs() {
    let input = ProgressionInput::from_cli("Am", "P, L ,R", 8, true, None, None).unwrap();
    assert_eq!(input.start_chord, Chord::a_minor());
    assert_eq!(input.transforms, vec![Transform::P, Transform::L, Transform::R]);
    assert!(input.return_to_start);
    match ProgressionInput::from_cli("Am", "P,,L", 8, false, None, None) {
        Err(LobachevskyError::InvalidTransformation { input }) => assert_eq!(input, ""),
        _ => panic!("an empty field is not a transformation"),
    }
    match ProgressionInput::from_cli("C", "P", 8, false, Some("dorian"), None) {
        Err(LobachevskyError::ParseError { message }) => {
            assert_eq!(message, "Both mode and tonic must be specified for modal constraints")
        }
        _ => panic!("mode without tonic"),
    }
    let modal = ProgressionInput::from_cli("C", "PL", 8, false, Some("ionian"), Some("C")).unwrap();
    assert_eq!((modal.mode, modal.tonic), (Some(Mode::Ionian), Some(PitchClass::C)));

    let hex = HexatonicInput::from_cli("Northern", "C").unwrap();
    assert_eq!(hex.cycle, HexatonicCycle::Northern);
    match HexatonicInput::from_cli("Southern", "C") {
        Err(LobachevskyError::ParseError { message }) => assert_eq!(
            message,
            "Invalid cycle type 'Southern'. Use: northern, western, or eastern"
        ),
        _ => panic!("unknown cycle"),
    }

    let m = ModalInput::from_cli("lydian", "F", Some("F"), "P,R", 4, true).unwrap();
    assert_eq!(m.mode, Mode::Lydian);
    assert_eq!(m.start_chord, Some(Chord::f_major()));
    assert!(m.analyze);
    assert!(matches!(
        ModalInput::from_cli("blues", "F", None, "P", 4, false),
        Err(LobachevskyError::InvalidMode { .. })
    ));

    let e = ExtendedInput::from_cli("Cmaj7", "P", 4, false).unwrap();
    assert_eq!(e.start_chord, Chord::c_major_seventh());

    assert_eq!(parse_transforms("lr").unwrap(), vec![Transform::lr()]);
    assert_eq!(parse_mode_and_tonic(None, None).unwrap(), (None, None));
}

#[test]
fn generate_input_from_arguments_and_patterns() {
    let g = GenerateInput::from_cli(
        Some("techno"),
        None,
        "Em",
        "P,L",
        None,
        None,
        "markov_3_intervals",
        32,
        128,
        4,
        false,
    )
    .unwrap();
    assert_eq!(g.rhythm_name, Some("techno".to_string()));
    assert_eq!(g.harmony.name, "cli_generated");
    assert_eq!(g.harmony.start_chord, Chord::e_minor());
    assert_eq!(g.harmony.tempo_hint, Some(128));
    assert_eq!(g.melody_strategy, MelodyStrategy::Markov(3, true));
    assert!(g.bass_strategy.is_none());

    let h = pattern_of(&["R"]);
    let g = GenerateInput::from_cli(None, Some(&h), "X", "??", None, None, "bass_lead", 8, 90, 2, false).unwrap();
    assert_eq!(g.harmony.name, "test");
    assert_eq!(g.melody_strategy, MelodyStrategy::BassLead);
}

#[test]
fn melody_and_bass_names() {
    assert_eq!(MelodyStrategy::from("LEAD_SYNTH"), MelodyStrategy::LeadSynth);
    assert_eq!(MelodyStrategy::from("markov"), MelodyStrategy::Markov(2, false));
    assert_eq!(MelodyStrategy::from("markov_x_interval"), MelodyStrategy::Markov(2, true));
    assert_eq!(MelodyStrategy::from("something"), MelodyStrategy::LeadSynth);
    assert_eq!(SelfHarmony::from("Consonant"), SelfHarmony::Consonant);
    assert_eq!(SelfHarmony::from("other"), SelfHarmony::Neutral);
    assert_eq!(CallResponseType::from("sequence_-3"), CallResponseType::Sequence(-3));
    assert_eq!(CallResponseType::from("sequence_300"), CallResponseType::Sequence(5));
    assert_eq!(CallResponseType::from("other"), CallResponseType::Echo);
    assert_eq!(BassStrategy::from("pedal_f#"), BassStrategy::Pedal(PitchClass::Fs));
    assert_eq!(BassStrategy::from("pedal"), BassStrategy::Pedal(PitchClass::C));
    assert_eq!(BassStrategy::from("Root_Fifth"), BassStrategy::RootFifth);
    assert_eq!(BassStrategy::from("unknown"), BassStrategy::Root);
}

#[test]
fn bass_strategy_from_string() {
    assert!(matches!(BassStrategy::from("root"), BassStrategy::Root));
    assert!(matches!(BassStrategy::from("walking"), BassStrategy::Walking));
    assert!(matches!(BassStrategy::from("rhythmic"), BassStrategy::Rhythmic));
    if let BassStrategy::Pedal(pc) = BassStrategy::from("pedal_G") {
        assert_eq!(pc, PitchClass::G);
    } else {
        panic!("Expected Pedal(G)");
    }
}

#[test]
fn call_response_type_from_string() {
    assert!(matches!(CallResponseType::from("echo"), CallResponseType::Echo));
    assert!(matches!(CallResponseType::from("complement"), CallResponseType::Complement));
    assert!(matches!(CallResponseType::from("contrast"), CallResponseType::Contrast));
    assert!(matches!(CallResponseType::from("inversion"), CallResponseType::Inversion));
    if let CallResponseType::Sequence(interval) = CallResponseType::from("sequence_5") {
        assert_eq!(interval, 5);
    } else {
        panic!("Expected Sequence(5)");
    }
}

#[test]
fn modal_length_counts_transformations() {
    let m = ModalInput::from_cli("ionian", "C", Some("C"), "L", 2, false).unwrap();
    let plan = m.plan();
    assert_eq!(plan.start_chord, Chord::c_major());
    assert_eq!(plan.progression.len(), 3);
    assert_eq!(plan.progression[0], Chord::c_major());
    let none = ModalInput::from_cli("ionian", "C", Some("C"), "L", 0, false).unwrap();
    assert_eq!(none.plan().progression, vec![Chord::c_major()]);
}

#[test]
fn extended_length_counts_chords() {
    let e = ExtendedInput::from_cli("C", "P,L", 8, false).unwrap();
    let ab = PitchClass::Gs;
    let chords = e.progression();
    assert_eq!(
        chords,
        vec![
            Chord::c_major(),
            Chord::minor(PitchClass::C),
            Chord::major(ab),
            Chord::minor(ab),
            Chord::major(PitchClass::E),
            Chord::minor(PitchClass::E),
            Chord::c_major(),
            Chord::minor(PitchClass::C),
        ]
    );
    let empty = ExtendedInput::from_cli("C", "P,L", 0, false).unwrap();
    assert_eq!(empty.progression(), Vec::<Chord>::new());
}

#[test]
fn progression_input_of_length_zero_is_empty() {
    let p = ProgressionInput::from_cli("F", "P,R,L", 0, true, None, None).unwrap();
    assert_eq!(p.progression(), Vec::<Chord>::new());
}
