use lobachevsky::core_types::{Chord, ChordQuality, Mode, Note, PitchClass};
use lobachevsky::generation::{HexatonicCycle, HexatonicExplorer, ProgressionBuilder};
use lobachevsky::theory::{ModalNeoRiemannian, NeoRiemannian, Transform, VoiceLeading};
use lobachevsky::LobachevskyError;

#[test]
fn basic_transformations() {
    let nr = NeoRiemannian::new();
    let c_major = Chord::c_major();
    let c_minor = nr.transform(c_major, &Transform::P).expect("test transform should work");
    assert_eq!(c_minor.quality, ChordQuality::Minor);
    assert_eq!(c_minor.root, PitchClass::C);
    let a_minor = nr.transform(c_major, &Transform::R).expect("test transform should work");
    assert_eq!(a_minor, Chord::a_minor());
    let e_minor = nr.transform(c_major, &Transform::L).expect("test transform should work");
    assert_eq!(e_minor, Chord::e_minor());
}

#[test]
fn compound_transformations() {
    let nr = NeoRiemannian::new();
    let c_major = Chord::c_major();
    let result = nr.transform(c_major, &Transform::rp()).expect("test transform should work");
    assert_eq!(result, Chord::major(PitchClass::A));
}

#[test]
fn hexatonic_cycles() {
    let nr = NeoRiemannian::new();
    let pattern = vec![Transform::P, Transform::L];
    let cycle = nr
        .hexatonic_cycle(Chord::c_major(), &pattern)
        .expect("test hexatonic cycle should work");
    assert_eq!(cycle.len(), 6);
    let last = cycle.last().expect("test cycle should have members");
    let back_to_start = nr.transform(*last, &pattern[1]).expect("test transform should work");
    assert_eq!(back_to_start, cycle[0]);
}

#[test]
fn transformations_are_involutions() {
    let nr = NeoRiemannian::new();
    for root in [PitchClass::C, PitchClass::Fs, PitchClass::As] {
        for chord in [Chord::major(root), Chord::minor(root)] {
            for t in [Transform::P, Transform::R, Transform::L] {
                let once = nr.transform(chord, &t).unwrap();
                assert_ne!(once.quality, chord.quality);
                assert_eq!(nr.transform(once, &t).unwrap(), chord);
            }
        }
    }
}

#[test]
fn only_triads_transform() {
    let nr = NeoRiemannian::new();
    assert_eq!(nr.transform(Chord::c_major_seventh(), &Transform::P), None);
    assert_eq!(nr.transform(Chord::new(PitchClass::B, ChordQuality::Diminished), &Transform::R), None);
}

#[test]
fn compound_is_its_steps_in_order() {
    let nr = NeoRiemannian::new();
    for chord in [Chord::c_major(), Chord::minor(PitchClass::E), Chord::major(PitchClass::Gs)] {
        let p_then_l = nr.transform(nr.transform(chord, &Transform::P).unwrap(), &Transform::L).unwrap();
        assert_eq!(nr.transform(chord, &Transform::pl()).unwrap(), p_then_l);
    }
}

#[test]
fn sequences_stop_at_the_first_failure() {
    let nr = NeoRiemannian::new();
    let walk = nr.apply_sequence(Chord::c_major(), &[Transform::P, Transform::L, Transform::R]);
    assert_eq!(walk, vec![Chord::c_major(), Chord::minor(PitchClass::C), Chord::major(PitchClass::Gs), Chord::minor(PitchClass::F)]);
    let stuck = nr.apply_sequence(Chord::c_major_seventh(), &[Transform::P, Transform::L]);
    assert_eq!(stuck, vec![Chord::c_major_seventh()]);
}

#[test]
fn northern_cycles_close_and_others_do_not() {
    let nr = NeoRiemannian::new();
    let start = Chord::minor(PitchClass::D);
    let cycle = nr.hexatonic_cycle(start, &[Transform::P, Transform::L]).unwrap();
    assert_eq!(cycle.len(), 6);
    for i in 0..6 {
        for j in (i + 1)..6 {
            assert_ne!(cycle[i], cycle[j]);
        }
    }
    assert_eq!(nr.hexatonic_cycle(start, &[Transform::P, Transform::R]), None);
    assert_eq!(nr.hexatonic_cycle(start, &[Transform::L, Transform::R]), None);
}

#[test]
fn all_hexatonic_cycles_are_grouped() {
    let nr = NeoRiemannian::new();
    let groups = nr.all_hexatonic_cycles();
    assert_eq!(groups.len(), 3);
    assert_eq!(groups[0].0, "Northern (PL)");
    assert_eq!(groups[0].1.len(), 4);
    // The Western (PR) walks close after eight chords, the Eastern (LR)
    // walk after all 24.
    assert_eq!(groups[1].1.len(), 3);
    assert!(groups[1].1.iter().all(|c| c.len() == 8));
    assert_eq!(groups[2].1.len(), 1);
    assert_eq!(groups[2].1[0].len(), 24);
    assert_eq!(nr.closed_cycle(Chord::c_major(), &[Transform::P, Transform::L]).unwrap().len(), 6);
}

#[test]
fn transform_names() {
    assert_eq!(Transform::try_from(" Parallel ").unwrap(), Transform::P);
    assert_eq!(Transform::try_from("leading tone").unwrap(), Transform::L);
    assert_eq!(Transform::try_from("RP").unwrap(), Transform::rp());
    assert_eq!(
        Transform::try_from("lpl").unwrap(),
        Transform::Compound(vec![Transform::L, Transform::P, Transform::L])
    );
    match Transform::try_from("PX") {
        Err(LobachevskyError::InvalidTransformation { input }) => assert_eq!(input, "PX"),
        other => panic!("unexpected {:?}", other),
    }
}

#[test]
fn modal_transformations_stay_in_the_mode() {
    let modal = ModalNeoRiemannian::new(Mode::Ionian, PitchClass::C);
    assert_eq!(modal.mode_info(), (Mode::Ionian, PitchClass::C));
    assert_eq!(modal.valid_chords().len(), 7);
    // R of C major is A minor, inside C Ionian.
    assert_eq!(modal.transform(Chord::c_major(), &Transform::R), Some(Chord::a_minor()));
    // Chords outside the mode do not transform.
    assert_eq!(modal.transform(Chord::minor(PitchClass::C), &Transform::P), None);
    for chord in modal.valid_chords().clone() {
        for t in [Transform::P, Transform::R, Transform::L] {
            if let Some(next) = modal.transform(chord, &t) {
                assert!(Mode::Ionian.contains_chord(PitchClass::C, next));
            }
        }
    }
}

#[test]
fn progression_builder() {
    let progression = ProgressionBuilder::new()
        .start(Chord::f_major())
        .pattern(&[Transform::P, Transform::R, Transform::L])
        .length(4)
        .build();
    assert_eq!(progression.len(), 4);
    assert_eq!(progression[0], Chord::f_major());
}

#[test]
fn progression_with_return() {
    let progression = ProgressionBuilder::new()
        .start(Chord::c_major())
        .pattern(&[Transform::R, Transform::L])
        .length(4)
        .with_return()
        .build();
    assert_eq!(progression.len(), 4);
    assert_eq!(progression[0], Chord::c_major());
    assert_eq!(progression[3], Chord::c_major());
}

#[test]
fn progression_walks_the_pattern() {
    let progression = ProgressionBuilder::new()
        .start(Chord::c_major())
        .add_transform(Transform::R)
        .add_transform(Transform::L)
        .length(5)
        .build();
    assert_eq!(
        progression,
        vec![
            Chord::c_major(),
            Chord::a_minor(),
            Chord::f_major(),
            Chord::d_minor(),
            Chord::major(PitchClass::As)
        ]
    );
    let empty = ProgressionBuilder::new().length(3).build();
    assert_eq!(empty, vec![Chord::c_major(); 3]);
}

#[test]
fn modal_progression_keeps_to_the_mode() {
    let builder = ProgressionBuilder::new()
        .start(Chord::c_major())
        .pattern(&[Transform::P, Transform::L])
        .length(6)
        .with_mode(Mode::Ionian, PitchClass::C);
    assert_eq!(builder.modal_info(), Some((Mode::Ionian, PitchClass::C)));
    for chord in builder.build() {
        assert!(Mode::Ionian.contains_chord(PitchClass::C, chord));
    }
}

#[test]
fn random_walks_draw_basic_transformations() {
    let builder = ProgressionBuilder::new().random_walk(10);
    let progression = builder.build();
    assert_eq!(progression.len(), 10);
    let nr = NeoRiemannian::new();
    for pair in progression.windows(2) {
        let moved = [Transform::P, Transform::R, Transform::L]
            .iter()
            .any(|t| nr.transform(pair[0], t) == Some(pair[1]));
        assert!(moved);
    }
}

#[test]
fn hexatonic_explorer() {
    let explorer = HexatonicExplorer::new();
    let cycle = explorer.get_cycle(HexatonicCycle::Northern, Chord::c_major()).unwrap();
    assert_eq!(cycle[1], Chord::minor(PitchClass::C));
    let western = explorer.get_cycle(HexatonicCycle::Western, Chord::c_major()).unwrap();
    let eb = PitchClass::Ds;
    let gb = PitchClass::Fs;
    assert_eq!(
        western,
        vec![
            Chord::c_major(),
            Chord::minor(PitchClass::C),
            Chord::major(eb),
            Chord::minor(eb),
            Chord::major(gb),
            Chord::minor(gb),
            Chord::major(PitchClass::A),
            Chord::minor(PitchClass::A),
        ]
    );
    let eastern = explorer.get_cycle(HexatonicCycle::Eastern, Chord::c_major()).unwrap();
    assert_eq!(eastern.len(), 24);
    assert_eq!(eastern[1], Chord::minor(PitchClass::E));
    let mut seen = eastern.clone();
    seen.sort_by_key(|c| (c.root.to_semitone(), c.quality == ChordQuality::Minor));
    seen.dedup();
    assert_eq!(seen.len(), 24);
    assert_eq!(explorer.find_all_cycles(HexatonicCycle::Northern).len(), 4);
    assert_eq!(explorer.find_all_cycles(HexatonicCycle::Western).len(), 3);
    assert_eq!(explorer.find_all_cycles(HexatonicCycle::Eastern).len(), 1);
    assert!(explorer.find_all_cycles(HexatonicCycle::Augmented).is_empty());
}

#[test]
fn modal_compounds_stay_in_each_mode() {
    for mode in [Mode::Ionian, Mode::Dorian, Mode::Lydian, Mode::Aeolian] {
        let modal = ModalNeoRiemannian::new(mode, PitchClass::D);
        let valid = modal.valid_chords().clone();
        for chord in &valid {
            for t in [Transform::P, Transform::R, Transform::L, Transform::Compound(vec![Transform::P, Transform::L])] {
                if let Some(d) = modal.transform(*chord, &t) {
                    assert!(valid.contains(&d), "{:?} left the mode from {:?}", d, chord);
                }
            }
        }
        // A chord outside the mode does not transform.
        let outside = Chord::new(PitchClass::Ds, ChordQuality::Major);
        if !valid.contains(&outside) {
            assert_eq!(modal.transform(outside, &Transform::P), None);
        }
    }
}

#[test]
fn flat_and_sharp_spellings() {
    assert_eq!(PitchClass::try_from("Db").ok(), Some(PitchClass::Cs));
    assert_eq!(PitchClass::try_from("Gb").ok(), Some(PitchClass::Fs));
    assert_eq!(PitchClass::try_from("Cb").ok(), Some(PitchClass::B));
    assert_eq!(PitchClass::try_from("Fb").ok(), Some(PitchClass::E));
    assert_eq!(PitchClass::try_from("E#").ok(), Some(PitchClass::F));
    assert_eq!(PitchClass::try_from("B#").ok(), Some(PitchClass::C));
    assert!(PitchClass::try_from("H").is_err());
    assert_eq!(Chord::try_from("Dbm").ok(), Some(Chord::minor(PitchClass::Cs)));
}

#[test]
fn cmaj_names_c_major() {
    assert_eq!(Chord::try_from("Cmaj").ok(), Some(Chord::c_major()));
    assert_eq!(Chord::try_from("Cmaj7").ok(), Some(Chord::c_major_seventh()));
    assert_eq!(Chord::try_from("Gbmaj").ok(), Some(Chord::major(PitchClass::Fs)));
}

#[test]
fn length_zero_gives_no_chords() {
    let built = ProgressionBuilder::new().pattern(&[Transform::P]).length(0).build();
    assert!(built.is_empty());
    let returning = ProgressionBuilder::new().pattern(&[Transform::P]).length(0).with_return().build();
    assert!(returning.is_empty());
    for n in 0..6 {
        assert_eq!(ProgressionBuilder::new().pattern(&[Transform::P, Transform::L]).length(n).build().len(), n);
        assert_eq!(ProgressionBuilder::new().pattern(&[Transform::R]).length(n).with_return().build().len(), n);
    }
}

#[test]
fn voice_leading_picks_the_closest_inversion() {
    let from = [Note::new(PitchClass::C, 4), Note::new(PitchClass::E, 4), Note::new(PitchClass::G, 4)];
    let best = VoiceLeading::optimize(&from, Chord::f_major(), 4);
    assert_eq!(best, vec![Note::new(PitchClass::C, 4), Note::new(PitchClass::F, 4), Note::new(PitchClass::A, 4)]);
    assert_eq!(VoiceLeading::distance(&from, &best), 3);
    // Staying on the same chord keeps it where it is.
    assert_eq!(VoiceLeading::optimize(&from, Chord::c_major(), 4), from.to_vec());
    // Another number of voices leaves the chord in root position.
    assert_eq!(
        VoiceLeading::optimize(&from[..2], Chord::f_major(), 4),
        vec![Note::new(PitchClass::F, 4), Note::new(PitchClass::A, 4), Note::new(PitchClass::C, 5)]
    );
}

#[test]
fn unicode_white_space_is_trimmed() {
    assert_eq!(Transform::try_from(" p ").unwrap(), Transform::P);
    assert_eq!(Transform::try_from("\u{3000}r\t\n").unwrap(), Transform::R);
    assert_eq!(Transform::try_from("\u{a0}L\u{2009}").unwrap(), Transform::L);
    assert!(Transform::try_from("\u{200b}P").is_err());
}

#[test]
fn voice_distance_is_symmetric() {
    let a = [Note::new(PitchClass::C, 4), Note::new(PitchClass::E, 4), Note::new(PitchClass::G, 4)];
    let b = [Note::new(PitchClass::F, 4), Note::new(PitchClass::A, 4), Note::new(PitchClass::C, 5)];
    assert_eq!(VoiceLeading::distance(&a, &b), VoiceLeading::distance(&b, &a));
    assert_eq!(VoiceLeading::distance(&a, &b), 15);
    assert_eq!(VoiceLeading::distance(&a, &a), 0);
    assert_eq!(VoiceLeading::distance(&a, &b[..2]), i32::MAX);
}

#[test]
fn modal_steps_substitute_inside_the_mode() {
    let modal = ModalNeoRiemannian::new(Mode::Ionian, PitchClass::C);
    // P of C major is C minor, outside C Ionian: the mode's chord on C is C major itself.
    assert_eq!(modal.transform(Chord::c_major(), &Transform::P), Some(Chord::c_major()));
    // The diminished chord of the mode does not move.
    let b_dim = Chord::new(PitchClass::B, ChordQuality::Diminished);
    assert!(modal.valid_chords().contains(&b_dim));
    assert_eq!(modal.transform(b_dim, &Transform::R), None);
    // L of A minor is F major, inside the mode.
    assert_eq!(modal.transform(Chord::a_minor(), &Transform::L), Some(Chord::f_major()));
}
