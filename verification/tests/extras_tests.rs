use lobachevsky::bass::{
    counterpoint_bass_notes, walking_bass_notes, WalkDraw, held_notes, BassStrategy, pedal_bass_notes, rhythmic_bass_notes, root_bass_notes, root_fifth_bass_notes};
use lobachevsky::composition::resolve_tempo_with_hints;
use lobachevsky::euclidean::{pattern_visual, pulse_positions};
use lobachevsky::generation::{
    arpeggio_melody as gen_arpeggio, chord_tones_melody as gen_chord_tones, generate_for_chord, stepwise_melody,
    MelodyStrategy as GenStrategy,
};
use lobachevsky::harmony::HarmonicPattern;
use lobachevsky::in_c::{all_at_last_pattern, ensemble_median};
use lobachevsky::library::LibraryItem;
use lobachevsky::morphing::{blend_pick, probabilistic_pick, sequential_pick, HarmonyInterpolationMethod};
use lobachevsky::tui_state::{
    listing, performance_command, performers_stepped, tempo_stepped, tui_melody_strategy, App, AppMode, Command,
    FileBrowser, FileEntry, Key, PerformanceCommand, PreviewInfo, SelectedField, Selections,
};
use lobachevsky::melody::{
    arpeggiated_line, bass_lead_line, complement_pitches, contrast_candidates, inversion_pitches, lead_line,
    scale_notes, sequence_pitches, parse_note, pluck_line, self_harmony_of, stab_line, textural_pad,
    MelodyStrategy, SelfHarmony,
};
use lobachevsky::PitchClass::{A, As, Cs, Fs, Gs, C, D, E, F, G};
use lobachevsky::{Chord, ChordQuality, LobachevskyError, Note, PitchClass, ProgressionBuilder, Transform};

#[test]
fn pattern_drawn_as_text() {
    let pattern = vec![true, false, false, true, false, false, true, false];
    assert_eq!(pattern_visual(&pattern), "X..X..X.");
    assert_eq!(pulse_positions(&pattern), vec![0, 3, 6]);
    assert_eq!(pattern_visual(&[]), "");
    assert_eq!(pulse_positions(&[false, false]), Vec::<usize>::new());
    assert_eq!(pulse_positions(&[true, true, false, true]), vec![0, 1, 3]);
}

#[test]
fn preview_duration_and_summary() {
    let mut p = PreviewInfo::default();
    assert_eq!(p.duration_string(), "Unknown");
    p.duration = Some((6, 9));
    assert_eq!(p.duration_string(), "6:09");
    p.duration = Some((12, 45));
    assert_eq!(p.duration_string(), "12:45");
    p.bars = 200;
    p.tempo = 130;
    p.track_count = 3;
    assert_eq!(p.summary_line(), "200 bars, 12:45 @ 130 BPM, 3 tracks");
}

#[test]
fn harmonic_pattern_listed_by_name() {
    let pattern = HarmonicPattern {
        name: "dark_descent".to_string(),
        description: None,
        start_chord: "Am".to_string(),
        transformations: vec!["P".to_string()],
        mode: None,
        tonic: None,
        return_to_start: None,
        tempo_hint: None,
        bars_hint: None,
    };
    assert_eq!(LibraryItem::name(&pattern), "dark_descent");
}

#[test]
fn blending_transformations() {
    let a = vec![Transform::P, Transform::L];
    let b = vec![Transform::R];
    let empty: Vec<Transform> = Vec::new();
    assert_eq!(probabilistic_pick(&a, &b, 3, false), Some(Transform::L));
    assert_eq!(probabilistic_pick(&a, &b, 3, true), Some(Transform::R));
    assert_eq!(probabilistic_pick(&a, &empty, 0, true), None);
    assert_eq!(sequential_pick(&a, &b, 2, true), Some(Transform::P));
    assert_eq!(sequential_pick(&a, &b, 2, false), Some(Transform::R));
    assert_eq!(sequential_pick(&a, &empty, 1, false), Some(Transform::L));
    assert_eq!(sequential_pick(&empty, &empty, 1, true), None);
    assert_eq!(
        blend_pick(HarmonyInterpolationMethod::HarmonicallySmooth, &empty, &b, 5, true),
        Some(Transform::R)
    );
    assert_eq!(
        blend_pick(HarmonyInterpolationMethod::Probabilistic, &a, &b, 1, false),
        Some(Transform::L)
    );
}

fn n(p: PitchClass, o: i8) -> Note {
    Note::new(p, o)
}

#[test]
fn arpeggio_pad_pluck_and_stab_lines() {
    let c = Chord::new(C, ChordQuality::Major);
    assert_eq!(
        arpeggiated_line(c, 4, 8, 0),
        vec![n(C, 4), n(E, 4), n(G, 4), n(E, 4), n(C, 5), n(E, 5), n(G, 5), n(E, 5)]
    );
    assert_eq!(arpeggiated_line(c, 4, 2, 2), vec![n(G, 4), n(E, 4)]);
    let am = Chord::new(A, ChordQuality::Minor);
    assert_eq!(textural_pad(am, 3), vec![n(A, 3), n(C, 4), n(E, 4)]);
    assert_eq!(
        pluck_line(c, 4, 4, 1, &vec![false, true, false, false]),
        vec![n(C, 4), n(G, 5), n(E, 4), n(G, 4)]
    );
    assert_eq!(stab_line(c, 4, 4, 2, &vec![5, 1, 2, 0]), vec![n(C, 4), n(E, 4), n(G, 4), n(C, 4)]);
}

#[test]
fn lead_and_bass_lines() {
    let c = Chord::new(C, ChordQuality::Major);
    assert_eq!(
        lead_line(c, 4, 5, &vec![0, 2, 0, 3, 4], &vec![0, 0, 0, 0, 1]),
        vec![n(C, 4), n(D, 4), n(C, 4), n(E, 4), n(E, 4)]
    );
    assert_eq!(lead_line(c, 4, 0, &vec![], &vec![]), vec![n(C, 4)]);
    assert_eq!(
        bass_lead_line(c, 5, 6, 0, &vec![false, false, false, false, false, true]),
        vec![n(C, 3), n(G, 3), n(G, 3), n(C, 3), n(G, 3), n(Gs, 3)]
    );
    assert_eq!(bass_lead_line(c, 2, 2, 3, &vec![false, false]), vec![n(C, 1), n(G, 1)]);
}

#[test]
fn note_names_read() {
    assert_eq!(parse_note("C4").unwrap(), n(C, 4));
    assert_eq!(parse_note("F#4").unwrap(), n(Fs, 4));
    assert_eq!(parse_note("Bb3").unwrap(), n(As, 3));
    assert_eq!(parse_note("E-1").unwrap(), n(E, -1));
    match parse_note("H4") {
        Err(LobachevskyError::InvalidPitch { input }) => assert_eq!(input, "H"),
        other => panic!("unexpected {:?}", other),
    }
    match parse_note("Cx") {
        Err(LobachevskyError::ParseError { message }) => assert_eq!(message, "Invalid octave: x"),
        other => panic!("unexpected {:?}", other),
    }
}

#[test]
fn self_harmony_of_lines() {
    assert_eq!(self_harmony_of(&[]), SelfHarmony::Neutral);
    assert_eq!(self_harmony_of(&[n(C, 4), n(C, 4)]), SelfHarmony::Neutral);
    assert_eq!(self_harmony_of(&[n(C, 4), n(E, 4), n(G, 4)]), SelfHarmony::Consonant);
    assert_eq!(self_harmony_of(&[n(C, 4), n(Cs, 4), n(D, 4)]), SelfHarmony::Dissonant);
    assert_eq!(self_harmony_of(&[n(C, 4), n(E, 4), n(Fs, 4)]), SelfHarmony::Moderate);
    assert_eq!(self_harmony_of(&[n(C, 4), n(F, 4)]), SelfHarmony::Moderate);
}

#[test]
fn ensemble_median_and_end() {
    assert_eq!(ensemble_median(&[]), 1);
    assert_eq!(ensemble_median(&[(7, true)]), 1);
    assert_eq!(ensemble_median(&[(5, false), (2, false), (9, false)]), 5);
    assert_eq!(ensemble_median(&[(5, false), (2, false), (9, false), (4, false)]), 5);
    assert_eq!(ensemble_median(&[(5, false), (40, true), (2, false), (3, false), (3, false)]), 3);
    assert!(all_at_last_pattern(&[53, 53]));
    assert!(all_at_last_pattern(&[]));
    assert!(!all_at_last_pattern(&[53, 52]));
}

#[test]
fn bass_note_lines() {
    let c = Chord::new(C, ChordQuality::Major);
    let f = Chord::new(F, ChordQuality::Major);
    assert_eq!(root_bass_notes(c, 2, 2), vec![n(C, 2), n(C, 2)]);
    assert_eq!(root_bass_notes(f, 2, 1), vec![n(F, 2)]);
    assert_eq!(pedal_bass_notes(G, 2, 3), vec![n(G, 2), n(G, 2), n(G, 2)]);
    assert_eq!(root_fifth_bass_notes(c, 2, 4), vec![n(C, 2), n(G, 2), n(C, 2), n(G, 2)]);
    assert_eq!(root_fifth_bass_notes(f, 2, 2), vec![n(F, 2), n(C, 2)]);
    assert_eq!(
        rhythmic_bass_notes(c, 2, 8, &vec![false, false, true, false, true, true, false, true]),
        vec![n(C, 2), n(G, 2), n(C, 2), n(C, 2), n(C, 2), n(C, 2)]
    );
    assert_eq!(held_notes(n(A, 1), 0), Vec::<Note>::new());
}

#[test]
fn interface_generation_choices() {
    assert_eq!(tui_melody_strategy(None), MelodyStrategy::LeadSynth);
    assert_eq!(tui_melody_strategy(Some("arpeggio")), MelodyStrategy::Arpeggiated);
    assert_eq!(tui_melody_strategy(Some("chord_tones")), MelodyStrategy::TexturalPads);
    assert_eq!(tui_melody_strategy(Some("stepwise")), MelodyStrategy::PluckSequence);
    assert_eq!(tui_melody_strategy(Some("mixed")), MelodyStrategy::LeadSynth);
    assert_eq!(tui_melody_strategy(Some("bass_lead")), MelodyStrategy::BassLead);

    let mut selections = Selections::default();
    assert!(!selections.can_generate());
    assert_eq!(selections.preview_bars(), 16);
    selections.bars = 20;
    assert_eq!(selections.preview_bars(), 8);
    selections.bars = 48;
    assert_eq!(selections.preview_bars(), 12);

    let harmony = selections.default_harmony();
    assert_eq!(harmony.name, "Default");
    assert_eq!(harmony.description.as_deref(), Some("Auto-generated progression starting from Cmaj"));
    assert_eq!(harmony.start_chord, Chord::new(C, ChordQuality::Major));
    assert_eq!(harmony.transformations, vec![Transform::P, Transform::R, Transform::L]);
    assert!(harmony.return_to_start);
    assert_eq!(harmony.bars_hint, Some(48));
    selections.starting_chord = "Zm".to_string();
    assert_eq!(selections.default_harmony().start_chord, Chord::new(C, ChordQuality::Major));
    selections.starting_chord = "F#m".to_string();
    assert_eq!(selections.default_harmony().start_chord, Chord::new(Fs, ChordQuality::Minor));

    selections.bass_pattern = Some("walking_bass".to_string());
    assert!(selections.can_generate());
    selections.melody_strategy = Some("stepwise".to_string());
    selections.bass_strategy = Some("Walking".to_string());
    let input = selections.generate_input(selections.default_harmony());
    assert_eq!(input.rhythm_name.as_deref(), Some("walking_bass"));
    assert_eq!(input.melody_strategy, MelodyStrategy::PluckSequence);
    assert_eq!(input.bass_strategy, Some(BassStrategy::Walking));
    assert_eq!(input.notes_per_chord, 16);
    assert!(input.call_response_type.is_none());
    selections.drums_pattern = Some("deep".to_string());
    assert_eq!(selections.generate_input(selections.default_harmony()).rhythm_name.as_deref(), Some("deep"));
}

fn file(name: &str) -> FileEntry {
    FileEntry { name: name.to_string(), path: format!("library/patterns/{}.toml", name), metadata: None }
}

#[test]
fn interface_keys_and_bars() {
    let drums = FileBrowser::new("library/patterns", "Drums", vec![file("deep"), file("dub")]);
    let bass = FileBrowser::new("library/patterns", "Bass", vec![]);
    let harmony = FileBrowser::new("library/harmonics", "Harmony", vec![file("descent")]);
    let mut app = App::new(drums, bass, harmony);
    assert_eq!(app.command_for(Key::Char('q'), false, false, true), Command::Quit);
    assert_eq!(app.command_for(Key::Char('g'), false, false, true), Command::Generate);
    assert_eq!(app.command_for(Key::Char('g'), true, false, false), Command::Ignore);
    assert_eq!(app.command_for(Key::Char('3'), false, false, true), Command::GoTo(AppMode::Harmony));
    assert_eq!(app.command_for(Key::Char(' '), false, false, true), Command::Preview);
    assert_eq!(app.command_for(Key::Char('r'), false, true, false), Command::Refresh);
    assert_eq!(app.command_for(Key::Char('+'), false, false, true), Command::Ignore);
    assert_eq!(app.command_for(Key::Tab, true, false, false), Command::PreviousMode);
    assert_eq!(app.command_for(Key::Tab, false, false, true), Command::NextMode);
    assert_eq!(app.command_for(Key::Esc, false, false, true), Command::Quit);
    assert_eq!(app.command_for(Key::Backspace, false, false, true), Command::Ignore);
    assert_eq!(app.command_for(Key::F(5), false, false, true), Command::Refresh);
    assert_eq!(app.command_for(Key::F(1), false, false, true), Command::Help);
    assert_eq!(app.current_selection_name(), "deep");
    app.navigate_down();
    assert_eq!(app.current_selection_name(), "dub");
    app.mode = AppMode::Bass;
    assert_eq!(app.current_selection_name(), "None");
    app.mode = AppMode::Params;
    assert_eq!(app.current_selection_name(), "");
    assert_eq!(app.command_for(Key::Char('+'), false, false, true), Command::BarsUp);
    assert_eq!(app.command_for(Key::Char('-'), false, false, true), Command::BarsDown);
    app.selections.bars = 500;
    app.bars_up();
    assert_eq!(app.selections.bars, 512);
    app.selections.bars = 64;
    app.bars_up();
    assert_eq!(app.selections.bars, 80);
    app.bars_down();
    app.bars_down();
    assert_eq!(app.selections.bars, 48);
    app.selections.bars = 20;
    app.bars_down();
    assert_eq!(app.selections.bars, 16);
    app.select_current();
    assert!(app.param_editor.editing_mode);
    assert_eq!(app.command_for(Key::Char('7'), false, false, true), Command::Type('7'));
    assert_eq!(app.command_for(Key::Esc, false, false, true), Command::CancelEdit);
    assert_eq!(app.command_for(Key::Backspace, false, false, true), Command::Backspace);
    assert_eq!(app.command_for(Key::Char('q'), false, false, true), Command::Quit);
}

#[test]
fn directory_listing_sorted_without_readme() {
    let files = vec![file("zeta"), file("README"), file("alpha"), file("Beta"), file("readme"), file("al")];
    let names: Vec<String> = listing(files).into_iter().map(|e| e.name).collect();
    assert_eq!(names, vec!["Beta", "al", "alpha", "zeta"]);
    assert!(listing(vec![]).is_empty());
}

#[test]
fn call_and_response_pitches() {
    let c = Chord::new(C, ChordQuality::Major);
    let scale = scale_notes(c, 4);
    assert_eq!(scale, vec![n(C, 4), n(D, 4), n(E, 4), n(F, 4), n(G, 4), n(A, 4), n(PitchClass::B, 4)]);
    assert_eq!(complement_pitches(c, 4, 4), vec![n(C, 4), n(E, 4), n(G, 4), n(C, 4)]);
    assert_eq!(sequence_pitches(&[n(C, 4), n(E, 4)], 7), vec![n(G, 4), n(PitchClass::B, 4)]);
    assert_eq!(sequence_pitches(&[n(C, 4)], -50), vec![n(C, 1)]);
    assert_eq!(inversion_pitches(&[n(C, 4), n(E, 4), n(G, 3)]), vec![n(C, 4), n(Gs, 3), n(F, 4)]);
    assert!(inversion_pitches(&[]).is_empty());
    assert_eq!(contrast_candidates(&scale, n(C, 4)), vec![n(E, 4), n(F, 4), n(G, 4)]);
}

#[test]
fn tempo_from_hints() {
    assert_eq!(resolve_tempo_with_hints(Some(90), Some(130), Some(100)), 90);
    assert_eq!(resolve_tempo_with_hints(None, Some(130), Some(100)), 130);
    assert_eq!(resolve_tempo_with_hints(None, None, Some(100)), 100);
    assert_eq!(resolve_tempo_with_hints(None, None, None), 120);
}

#[test]
fn walking_and_counterpoint_bass() {
    let c = Chord::new(C, ChordQuality::Major);
    let draw = |use_tone: bool, pick: usize, step: i16, from_target: bool| WalkDraw { use_tone, pick, step, from_target };
    let draws = vec![
        draw(false, 0, 1, false),
        draw(true, 1, 1, false),
        draw(false, 0, 2, false),
        draw(false, 0, 1, true),
    ];
    assert_eq!(walking_bass_notes(c, n(F, 2), 2, 4, &draws), vec![n(C, 2), n(E, 2), n(D, 2), n(E, 2)]);
    let closing_up = vec![draw(false, 0, 1, false), draw(false, 0, 1, false)];
    assert_eq!(walking_bass_notes(c, n(F, 2), 2, 2, &closing_up), vec![n(C, 2), n(D, 2)]);
    assert_eq!(walking_bass_notes(c, n(F, 2), 2, 0, &vec![]), vec![n(C, 2)]);
    assert_eq!(counterpoint_bass_notes(c, 2, n(C, 2), 3, &vec![1, 2, 0]), vec![n(E, 2), n(G, 2), n(C, 2)]);
    assert_eq!(counterpoint_bass_notes(c, 2, n(C, 5), 1, &vec![1]), vec![n(E, 2)]);
}

#[test]
fn drawn_pattern_builds_progression() {
    let progression = ProgressionBuilder::new()
        .start(Chord::c_major())
        .with_drawn_pattern(&[0, 1, 2])
        .build();
    assert_eq!(
        progression,
        vec![Chord::c_major(), Chord::new(C, ChordQuality::Minor), Chord::new(PitchClass::Ds, ChordQuality::Major)]
    );
    let walk = ProgressionBuilder::new().start(Chord::c_major()).random_walk(5).build();
    assert_eq!(walk.len(), 5);
    assert_eq!(walk[0], Chord::c_major());
}

#[test]
fn performance_keys_map_to_commands() {
    let f = SelectedField::NumPerformers;
    let p = SelectedField::IncludePulse;
    assert_eq!(performance_command(Key::Char('q'), false, true, true, f), PerformanceCommand::Quit);
    assert_eq!(performance_command(Key::F(1), false, true, true, f), PerformanceCommand::ToggleHelp);
    assert_eq!(performance_command(Key::Char('g'), false, true, true, f), PerformanceCommand::Ignore);
    assert_eq!(performance_command(Key::Char('g'), false, true, false, f), PerformanceCommand::Generate);
    assert_eq!(performance_command(Key::Char('g'), false, false, false, f), PerformanceCommand::Ignore);
    assert_eq!(performance_command(Key::Char('r'), false, true, false, f), PerformanceCommand::Reset);
    assert_eq!(performance_command(Key::Tab, false, true, false, f), PerformanceCommand::NextField);
    assert_eq!(performance_command(Key::Tab, true, false, false, f), PerformanceCommand::PreviousField);
    assert_eq!(performance_command(Key::Up, false, true, false, f), PerformanceCommand::PreviousField);
    assert_eq!(performance_command(Key::Down, false, true, false, f), PerformanceCommand::NextField);
    assert_eq!(performance_command(Key::Right, true, false, false, f), PerformanceCommand::Increase(true));
    assert_eq!(performance_command(Key::Left, false, true, false, f), PerformanceCommand::Decrease(false));
    assert_eq!(performance_command(Key::Char(' '), false, true, false, f), PerformanceCommand::Ignore);
    assert_eq!(performance_command(Key::Char(' '), false, true, false, p), PerformanceCommand::Toggle);
    assert_eq!(performance_command(Key::Enter, false, true, false, p), PerformanceCommand::Toggle);
    assert_eq!(performance_command(Key::Enter, false, true, false, f), PerformanceCommand::Ignore);
    assert_eq!(performance_command(Key::Esc, false, true, false, p), PerformanceCommand::Ignore);
}

#[test]
fn performance_values_step_within_bounds() {
    assert_eq!(performers_stepped(8, false, true), 9);
    assert_eq!(performers_stepped(8, true, true), 13);
    assert_eq!(performers_stepped(18, true, true), 20);
    assert_eq!(performers_stepped(8, true, false), 3);
    assert_eq!(performers_stepped(3, true, false), 1);
    assert_eq!(performers_stepped(1, false, false), 1);
    assert_eq!(tempo_stepped(120, false, true), 121);
    assert_eq!(tempo_stepped(175, true, true), 180);
    assert_eq!(tempo_stepped(120, true, false), 110);
    assert_eq!(tempo_stepped(65, true, false), 60);
    assert_eq!(tempo_stepped(60, false, false), 60);
}

#[test]
fn side_arrows_do_nothing_in_the_browser() {
    let drums = FileBrowser::new("library/patterns", "Drums", vec![]);
    let bass = FileBrowser::new("library/patterns", "Bass", vec![]);
    let harmony = FileBrowser::new("library/harmonics", "Harmony", vec![]);
    let app = App::new(drums, bass, harmony);
    assert_eq!(app.command_for(Key::Left, false, false, true), Command::Ignore);
    assert_eq!(app.command_for(Key::Right, true, false, false), Command::Ignore);
}

#[test]
fn simple_generator_lines() {
    let c = Chord::new(C, ChordQuality::Major);
    assert_eq!(
        gen_chord_tones(c, 4, &[2, 0, 1, 1]),
        vec![n(G, 4), n(C, 4), n(E, 4), n(E, 4)]
    );
    assert_eq!(gen_arpeggio(c, 4, 5, 0), vec![n(C, 4), n(E, 4), n(G, 4), n(E, 4), n(C, 4)]);
    assert_eq!(gen_arpeggio(c, 4, 4, 1), vec![n(G, 4), n(E, 4), n(C, 4), n(E, 4)]);
    assert_eq!(gen_arpeggio(c, 4, 4, 2), vec![n(C, 4), n(G, 4), n(E, 4), n(G, 4)]);
    assert_eq!(gen_arpeggio(c, 4, 4, 7), vec![n(C, 4), n(E, 4), n(G, 4), n(G, 4)]);
    assert_eq!(
        stepwise_melody(c, 4, 6),
        vec![n(C, 4), n(Cs, 4), n(D, 4), n(Cs, 4), n(C, 4), n(Cs, 4)]
    );
    let b = Chord::new(PitchClass::B, ChordQuality::Minor);
    assert_eq!(stepwise_melody(b, 3, 3), vec![n(PitchClass::B, 3), n(C, 4), n(Cs, 4)]);
    assert_eq!(stepwise_melody(c, 4, 0), Vec::<Note>::new());
}

#[test]
fn simple_generator_strategies() {
    let am = Chord::new(A, ChordQuality::Minor);
    let picks = [1, 1, 0];
    let tones = vec![n(C, 5), n(C, 5), n(A, 4)];
    assert_eq!(generate_for_chord(GenStrategy::ChordTones, am, 4, 3, 0, &picks), tones);
    assert_eq!(generate_for_chord(GenStrategy::CommonTones, am, 4, 3, 5, &picks), tones);
    assert_eq!(generate_for_chord(GenStrategy::Arpeggio, am, 4, 3, 0, &picks), vec![n(A, 4), n(C, 5), n(E, 5)]);
    assert_eq!(generate_for_chord(GenStrategy::Stepwise, am, 4, 3, 0, &picks), vec![n(A, 4), n(As, 4), n(PitchClass::B, 4)]);
    assert_eq!(generate_for_chord(GenStrategy::Mixed, am, 4, 3, 3, &picks), vec![n(A, 4), n(C, 5), n(E, 5)]);
    assert_eq!(generate_for_chord(GenStrategy::Mixed, am, 4, 3, 4, &picks), tones);
    assert_eq!(generate_for_chord(GenStrategy::Mixed, am, 4, 3, 5, &picks), vec![n(A, 4), n(As, 4), n(PitchClass::B, 4)]);
}

#[test]
fn bass_generator_root_strategy() {
    let chords = vec![Chord::c_major(), Chord::f_major()];
    let bass_line: Vec<Note> = chords.iter().flat_map(|c| root_bass_notes(*c, 2, 2)).collect();
    assert_eq!(bass_line.len(), 4);
    assert_eq!(bass_line[0].pitch_class, PitchClass::C);
    assert_eq!(bass_line[0].octave, 2);
    assert_eq!(bass_line[2].pitch_class, PitchClass::F);
}

#[test]
fn bass_generator_walking_strategy() {
    let chords = vec![Chord::c_major(), Chord::g_major()];
    let draw = |use_tone: bool, pick: usize, step: i16| WalkDraw { use_tone, pick, step, from_target: true };
    let first = walking_bass_notes(chords[0], n(G, 2), 2, 3, &vec![draw(true, 0, 1), draw(true, 1, 2), draw(false, 0, 3)]);
    let second = walking_bass_notes(chords[1], n(G, 2), 2, 3, &vec![draw(true, 0, 1), draw(false, 2, 1), draw(true, 1, -1)]);
    let bass_line: Vec<Note> = first.into_iter().chain(second).collect();
    assert_eq!(bass_line.len(), 6);
    assert_eq!(bass_line[0].pitch_class, PitchClass::C);
    let mut unique_pitches: Vec<PitchClass> = bass_line.iter().map(|note| note.pitch_class).collect();
    unique_pitches.sort_by_key(|p| p.to_semitone());
    unique_pitches.dedup();
    assert!(unique_pitches.len() > 1);
}

#[test]
fn bass_generator_pedal_strategy() {
    let chords = vec![Chord::c_major(), Chord::f_major(), Chord::g_major()];
    let bass_line: Vec<Note> = chords.iter().flat_map(|_| pedal_bass_notes(PitchClass::G, 2, 2)).collect();
    assert_eq!(bass_line.len(), 6);
    for note in bass_line {
        assert_eq!(note.pitch_class, PitchClass::G);
        assert_eq!(note.octave, 2);
    }
}

#[test]
fn bass_generator_root_fifth_strategy() {
    let bass_line = root_fifth_bass_notes(Chord::c_major(), 2, 4);
    assert_eq!(bass_line.len(), 4);
    assert_eq!(bass_line[0].pitch_class, PitchClass::C);
    assert_eq!(bass_line[1].pitch_class, PitchClass::G);
    assert_eq!(bass_line[2].pitch_class, PitchClass::C);
    assert_eq!(bass_line[3].pitch_class, PitchClass::G);
}

#[test]
fn generation_can_generate_melodies() {
    let progression = vec![Chord::c_major(), Chord::a_minor()];
    let melody: Vec<Note> = progression
        .iter()
        .enumerate()
        .flat_map(|(idx, chord)| generate_for_chord(GenStrategy::Arpeggio, *chord, 5, 4, idx, &[0, 0, 0, 0]))
        .collect();
    assert_eq!(melody.len(), 8);
}

#[test]
fn melody_can_generate_melodies() {
    let progression = vec![Chord::c_major(), Chord::a_minor()];
    let melody: Vec<Note> = progression
        .iter()
        .enumerate()
        .flat_map(|(idx, chord)| gen_arpeggio(*chord, 5, 4, idx))
        .collect();
    assert_eq!(melody.len(), 8);
}

#[test]
fn strategy_can_generate_melodies() {
    let progression = vec![Chord::c_major(), Chord::a_minor()];
    let melody: Vec<Note> = progression
        .iter()
        .enumerate()
        .flat_map(|(idx, chord)| arpeggiated_line(*chord, 5, 4, idx))
        .collect();
    assert_eq!(melody.len(), 8);
}

#[test]
fn call_response_sequence_generation() {
    let call = vec![n(C, 4), n(E, 4)];
    let response = sequence_pitches(&call, 7);
    assert_eq!(response.len(), 2);
    for (call_note, response_note) in call.iter().zip(response.iter()) {
        let interval = response_note.to_midi() as i16 - call_note.to_midi() as i16;
        assert_eq!(interval, 7);
    }
}

#[test]
fn call_response_inversion_generation() {
    let call = vec![n(E, 4), n(G, 4)];
    let response = inversion_pitches(&call);
    assert_eq!(call.len(), 2);
    assert_eq!(response.len(), 2);
    assert_eq!(response, vec![n(E, 4), n(Cs, 4)]);
}

#[test]
fn morphing_harmony_probabilistic_blend() {
    let transforms_a = vec![Transform::P];
    let transforms_b = vec![Transform::L];
    // At progress 0 the draw never falls under it; at progress 1 it always does.
    let transform_at_0 = blend_pick(HarmonyInterpolationMethod::Probabilistic, &transforms_a, &transforms_b, 0, false);
    assert!(transform_at_0.is_some());
    let transform_at_1 = blend_pick(HarmonyInterpolationMethod::Probabilistic, &transforms_a, &transforms_b, 0, true);
    assert!(transform_at_1.is_some());
}
