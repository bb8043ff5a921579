use lobachevsky::text::{parse_i8, parse_u16, parse_usize};
use lobachevsky::tui_state::{
    App, AppMode, EditableParam, FileBrowser, FileEntry, GrooveBrowser, MelodyBrowser, ParamEditor, ParamOutcome,
    PatternMetadata, PreviewInfo, SelectOutcome, SelectedField, Selections,
};

fn entry(name: &str, title: Option<&str>, tempo: Option<u16>) -> FileEntry {
    FileEntry {
        name: name.to_string(),
        path: format!("library/patterns/{}.toml", name),
        metadata: Some(PatternMetadata {
            name: title.map(|t| t.to_string()),
            description: None,
            tempo_hint: tempo,
        }),
    }
}

fn chars(s: &str) -> Vec<char> {
    s.chars().collect()
}

#[test]
fn decimal_parsing() {
    assert_eq!(parse_usize(&chars("128")), Some(128));
    assert_eq!(parse_usize(&chars("+7")), Some(7));
    assert_eq!(parse_usize(&chars("-7")), None);
    assert_eq!(parse_usize(&chars("")), None);
    assert_eq!(parse_usize(&chars("12a")), None);
    assert_eq!(parse_usize(&chars("18446744073709551615")), Some(usize::MAX));
    assert_eq!(parse_usize(&chars("18446744073709551616")), None);
    assert_eq!(parse_u16(&chars("65535")), Some(65535));
    assert_eq!(parse_u16(&chars("65536")), None);
    assert_eq!(parse_i8(&chars("-128")), Some(-128));
    assert_eq!(parse_i8(&chars("128")), None);
    assert_eq!(parse_i8(&chars("-")), None);
}

#[test]
fn mode_cycling() {
    let mut app = App::new(
        FileBrowser::new("library/patterns", "drum patterns", vec![]),
        FileBrowser::new("library/bass", "bass patterns", vec![]),
        FileBrowser::new("library/harmonics", "harmony patterns", vec![]),
    );
    assert_eq!(app.mode, AppMode::Drums);
    assert_eq!(app.mode_name(), "Drums");
    for _ in 0..7 {
        app.next_mode();
    }
    assert_eq!(app.mode, AppMode::Drums);
    app.previous_mode();
    assert_eq!(app.mode, AppMode::Preview);
    assert_eq!(app.mode_name(), "Preview");
    app.next_mode();
    assert_eq!(app.mode, AppMode::Drums);
    assert_eq!(SelectedField::TimingFlex.next(), SelectedField::NumPerformers);
    assert_eq!(SelectedField::NumPerformers.previous(), SelectedField::TimingFlex);
}

#[test]
fn browsers_keep_the_cursor_inside() {
    let mut melody = MelodyBrowser::new();
    assert_eq!(melody.selected(), Some("lead_synth"));
    for _ in 0..10 {
        melody.next();
    }
    assert_eq!(melody.selected(), Some("bass_lead"));
    melody.previous();
    assert_eq!(melody.selected(), Some("pluck_sequence"));
    let mut groove = GrooveBrowser::new();
    groove.previous();
    assert_eq!(groove.selected(), Some("human"));
    groove.next();
    assert_eq!(groove.selected(), Some("tight"));
}

#[test]
fn file_browser_refresh_keeps_the_selection() {
    let mut b = FileBrowser::new("dir", "drum patterns", vec![entry("a", None, None), entry("b", Some("Bee"), Some(90)), entry("c", None, None)]);
    assert!(!b.is_empty());
    assert_eq!(b.file_count(), 3);
    b.next();
    assert_eq!(b.selected_file(), Some("b"));
    let e = b.selected_entry().unwrap().clone();
    assert_eq!(b.display_name(&e), "Bee");
    assert_eq!(b.description(&e), "No description available");
    assert_eq!(b.tempo_hint(&e), Some(90));
    b.refresh(vec![entry("b", None, None), entry("c", None, None)]);
    assert_eq!(b.selected_index, 0);
    assert_eq!(b.selected_file(), Some("b"));
    b.refresh(vec![entry("z", None, None)]);
    assert_eq!(b.selected_index, 0);
    assert_eq!(b.file_names(), vec!["z"]);
    b.refresh(vec![]);
    assert_eq!(b.selected_file(), None);
}

#[test]
fn parameter_editing() {
    let mut editor = ParamEditor::new();
    assert_eq!(editor.current_param(), EditableParam::Bars);
    editor.add_char('x');
    assert_eq!(editor.edit_buffer, "");
    editor.start_editing("12");
    editor.add_char('8');
    assert_eq!(editor.edit_buffer, "128");
    editor.backspace();
    assert_eq!(editor.edit_buffer, "12");
    editor.stop_editing();
    assert!(!editor.editing_mode);
    assert_eq!(editor.edit_buffer, "");
    for _ in 0..9 {
        editor.next();
    }
    assert_eq!(editor.current_param(), EditableParam::BassStrategy);
}

#[test]
fn app_selects_and_edits() {
    let mut app = App::new(
        FileBrowser::new("library/patterns", "drum patterns", vec![entry("techno", None, Some(130))]),
        FileBrowser::new("library/bass", "bass patterns", vec![]),
        FileBrowser::new("library/harmonics", "harmony patterns", vec![]),
    );
    assert_eq!(app.select_current(), SelectOutcome::Chosen);
    assert_eq!(app.selections.drums_pattern, Some("techno".to_string()));
    app.next_mode();
    assert_eq!(app.select_current(), SelectOutcome::Nothing);
    // To the parameters: bars first.
    for _ in 0..4 {
        app.next_mode();
    }
    assert_eq!(app.mode, AppMode::Params);
    assert_eq!(app.select_current(), SelectOutcome::EditStarted);
    assert_eq!(app.param_editor.edit_buffer, "64");
    app.handle_param_backspace();
    app.handle_param_backspace();
    app.handle_param_char('9');
    assert_eq!(app.select_current(), SelectOutcome::EditApplied(ParamOutcome::BarsOutOfRange));
    assert_eq!(app.selections.bars, 64);
    app.select_current();
    app.param_editor.edit_buffer = "256".to_string();
    assert_eq!(app.select_current(), SelectOutcome::EditApplied(ParamOutcome::BarsSet(256)));
    assert_eq!(app.selections.bars, 256);
    // Tempo.
    app.navigate_down();
    app.select_current();
    assert_eq!(app.param_editor.edit_buffer, "Auto");
    app.param_editor.edit_buffer = "140".to_string();
    assert_eq!(app.select_current(), SelectOutcome::EditApplied(ParamOutcome::TempoSet(140)));
    assert_eq!(app.selections.tempo, Some(140));
    // Bass strategy.
    for _ in 0..4 {
        app.navigate_down();
    }
    app.select_current();
    app.param_editor.edit_buffer = "  Pedal_D ".to_string();
    assert_eq!(app.select_current(), SelectOutcome::EditApplied(ParamOutcome::BassSet));
    assert_eq!(app.selections.bass_strategy, Some("pedal_d".to_string()));
    app.select_current();
    app.param_editor.edit_buffer = "funky".to_string();
    assert_eq!(app.select_current(), SelectOutcome::EditApplied(ParamOutcome::BassInvalid));
}

#[test]
fn preview_information() {
    let mut selections = Selections::default();
    let empty = PreviewInfo::calculate(&selections, None, None).unwrap();
    assert_eq!(empty.tempo, 120);
    assert_eq!(empty.duration, Some((2, 8)));
    assert_eq!(empty.track_count, 1);
    assert_eq!(empty.description, "Melody: mixed");
    assert_eq!(empty.warnings, vec!["No rhythm pattern selected".to_string(), "No harmony pattern selected".to_string()]);
    assert!(!empty.is_ready());

    selections.drums_pattern = Some("techno".to_string());
    selections.harmony_pattern = Some("classic".to_string());
    selections.bars = 200;
    let p = PreviewInfo::calculate(&selections, Some(130), Some(90)).unwrap();
    assert_eq!(p.tempo, 130);
    assert_eq!(p.track_count, 3);
    assert_eq!(p.description, "Drums: techno | Harmony: classic | Melody: mixed");
    assert_eq!(p.warnings, vec!["Very long composition - consider shorter length".to_string()]);
    assert_eq!(PreviewInfo::calculate_duration(200, 130), (6, 9));
    assert_eq!(PreviewInfo::calculate_duration(0, 0), (0, 0));
    assert_eq!(PreviewInfo::calculate_duration(4, 0), (u32::MAX, 0));
    selections.tempo = Some(100);
    assert_eq!(PreviewInfo::resolve_tempo(&selections, Some(130), Some(90)), 100);
    selections.tempo = None;
    selections.drums_pattern = None;
    assert_eq!(PreviewInfo::resolve_tempo(&selections, Some(130), Some(90)), 90);
}
