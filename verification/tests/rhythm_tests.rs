use lobachevsky::core_types::{Chord, ChordQuality, Note, PitchClass};
use lobachevsky::euclidean::{Breshenham, EuclideanRhythm};
use lobachevsky::rhythm::{bass_note, euclidean_track, BassVoice, DrumVoice, EuclideanBassPattern, EuclideanPattern};
use lobachevsky::LobachevskyError;

fn hits(p: &[bool]) -> usize {
    p.iter().filter(|b| **b).count()
}

#[test]
fn drum_voices() {
    assert_eq!(DrumVoice::Kick.midi_note(), 36);
    assert_eq!(DrumVoice::HiHatOpen.midi_note(), 46);
    assert_eq!(DrumVoice::try_from("Closed_HiHat").unwrap(), DrumVoice::HiHatClosed);
    assert_eq!(DrumVoice::try_from("perc").unwrap(), DrumVoice::Percussion);
    match DrumVoice::try_from("Cowbell") {
        Err(LobachevskyError::InvalidDrumVoice { voice }) => assert_eq!(voice, "Cowbell"),
        other => panic!("unexpected {:?}", other),
    }
}

#[test]
fn euclidean_tracks_clamp_and_rotate() {
    // More hits than steps play every step.
    assert_eq!(euclidean_track(8, 10, 0), vec![true; 8]);
    // No steps, no pattern.
    assert!(euclidean_track(0, 3, 1).is_empty());
    let base = Breshenham::generate(8, 3).unwrap();
    let rotated = euclidean_track(8, 3, 2);
    assert_eq!(hits(&rotated), 3);
    let mut expected = base.clone();
    expected.rotate_left(2);
    assert_eq!(rotated, expected);
    // A rotation by a whole bar changes nothing.
    assert_eq!(euclidean_track(8, 3, 8), base);
    for (h, s) in [(5usize, 8usize), (4, 7), (7, 12), (3, 5), (13, 16), (1, 16)] {
        assert_eq!(hits(&euclidean_track(s, h, 0)), h.min(s));
    }
}

#[test]
fn euclidean_pattern_builder() {
    let pattern = EuclideanPattern::new(DrumVoice::Snare, 3, 8).with_rotation(2).with_velocity(100);
    assert_eq!(pattern.voice(), DrumVoice::Snare);
    assert_eq!(pattern.velocity(), 100);
    assert_eq!(pattern.steps(), 8);
    assert_eq!(pattern.generate_pattern(), euclidean_track(8, 3, 2));
    let default = EuclideanPattern::default();
    assert_eq!(default.voice(), DrumVoice::Kick);
    assert_eq!(hits(&default.generate_pattern()), 0);
}

#[test]
fn bass_voices_and_notes() {
    assert_eq!(BassVoice::BassSub.midi_channel(), 3);
    assert_eq!(BassVoice::BassStaccato.default_velocity(), 90);
    let c = Chord::c_major();
    assert_eq!(bass_note("root", &c, 2), Note::new(PitchClass::C, 2));
    assert_eq!(bass_note("third", &c, 2), Note::new(PitchClass::E, 2));
    assert_eq!(bass_note("third", &Chord::a_minor(), 2), Note::new(PitchClass::C, 2));
    assert_eq!(bass_note("fifth", &c, 2), Note::new(PitchClass::G, 2));
    assert_eq!(bass_note("octave", &c, 2), Note::new(PitchClass::C, 3));
    assert_eq!(bass_note("seventh", &Chord::new(PitchClass::G, ChordQuality::DominantSeventh), 2), Note::new(PitchClass::Fs, 2));
    assert_eq!(bass_note("seventh", &Chord::d_minor(), 2), Note::new(PitchClass::C, 2));
    assert_eq!(bass_note("ninth", &c, 2), Note::new(PitchClass::C, 2));
}

#[test]
fn euclidean_bass_pattern() {
    let bass = EuclideanBassPattern::new(BassVoice::BassLegato, 3, 8)
        .with_note_pattern(vec!["root".to_string(), "fifth".to_string()])
        .with_rotation(1);
    assert_eq!(bass.velocity(), 70);
    assert_eq!(bass.hits(), 3);
    assert_eq!(bass.step_pattern(), euclidean_track(8, 3, 1));
    assert_eq!(bass.note_at_step(0, &Chord::c_major()), Note::new(PitchClass::C, 2));
    assert_eq!(bass.note_at_step(3, &Chord::c_major()), Note::new(PitchClass::G, 2));
    let loud = EuclideanBassPattern::new(BassVoice::Bass, 2, 4).with_velocity(120);
    assert_eq!(loud.velocity(), 120);
    assert_eq!(loud.note_at_step(5, &Chord::f_major()), Note::new(PitchClass::F, 2));
}

/// The steps of one bar that sound, which is where a pattern's events fall.
fn hit_steps(pattern: &EuclideanPattern) -> Vec<usize> {
    pattern
        .generate_pattern()
        .iter()
        .enumerate()
        .filter(|(_, hit)| **hit)
        .map(|(i, _)| i)
        .collect()
}

fn check_basic() {
    let pattern = EuclideanPattern::new(DrumVoice::Kick, 3, 8);
    let events = hit_steps(&pattern);
    assert_eq!(events.len(), 3);
    assert!(events.len() == 3);
}

fn check_edge_cases() {
    assert_eq!(hit_steps(&EuclideanPattern::new(DrumVoice::Kick, 0, 8)).len(), 0);
    assert_eq!(hit_steps(&EuclideanPattern::new(DrumVoice::Kick, 3, 0)).len(), 0);
    assert_eq!(hit_steps(&EuclideanPattern::new(DrumVoice::Kick, 8, 8)).len(), 8);
    assert_eq!(hit_steps(&EuclideanPattern::new(DrumVoice::Kick, 10, 8)).len(), 8);
}

fn check_problematic_cases() {
    let test_cases = vec![(5, 8), (4, 7), (7, 12), (3, 5), (13, 16), (1, 16)];
    for (hits, steps) in test_cases {
        let pattern = EuclideanPattern::new(DrumVoice::Kick, hits, steps);
        let events = hit_steps(&pattern);
        assert_eq!(events.len(), hits.min(steps), "Pattern ({}, {}) should have {} hits", hits, steps, hits.min(steps));
        for step in &events {
            assert!(*step < steps, "Event at step {} is outside the bar for ({}, {})", step, hits, steps);
        }
    }
}

fn check_rotation() {
    let base = hit_steps(&EuclideanPattern::new(DrumVoice::Kick, 3, 8));
    let rotated = hit_steps(&EuclideanPattern::new(DrumVoice::Kick, 3, 8).with_rotation(2));
    assert_eq!(base.len(), rotated.len());
}

fn check_velocity() {
    let pattern = EuclideanPattern::new(DrumVoice::Kick, 3, 8).with_velocity(100);
    for _ in hit_steps(&pattern) {
        assert_eq!(pattern.velocity(), 100);
        assert_eq!(pattern.voice(), DrumVoice::Kick);
    }
}

#[test]
fn rhythm_euclidean_patterns_basic() {
    check_basic();
}

#[test]
fn rhythm_euclidean_edge_cases() {
    check_edge_cases();
}

#[test]
fn rhythm_euclidean_problematic_cases() {
    check_problematic_cases();
}

#[test]
fn rhythm_euclidean_rotation() {
    check_rotation();
}

#[test]
fn rhythm_euclidean_velocity() {
    check_velocity();
}

#[test]
fn mod_euclidean_patterns_basic() {
    check_basic();
}

#[test]
fn mod_euclidean_edge_cases() {
    check_edge_cases();
}

#[test]
fn mod_euclidean_problematic_cases() {
    check_problematic_cases();
}

#[test]
fn mod_euclidean_rotation() {
    check_rotation();
}

#[test]
fn mod_euclidean_velocity() {
    check_velocity();
}
