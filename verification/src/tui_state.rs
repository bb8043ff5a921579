//! The state of the composition interface: categories, browsers with a
//! cursor, the parameter editor, and what the preview shows. Drawing,
//! keys and files belong to the program; these are the decisions.

use vstd::prelude::*;
use vstd::utf8::encode_utf8;

use crate::bass::{bass_strategy_named, BassStrategy};
use crate::cli_inputs::GenerateInput;
use crate::core_types::{pitch_named, split_symbol, Chord, ChordQuality, PitchClass};
use crate::harmony::TypedHarmonicPattern;
use crate::melody::MelodyStrategy;
use crate::theory::Transform;
use crate::text::{
    str_eq, chars_eq_str, chars_of, chars_start_with, concat, decimal_digits, decimal_text, has_prefix,
    lowercase, parse_u16, parse_usize, pop_char, push_char, trim, unicode_lowercase,
    unicode_trimmed, unsigned_parse,
};

verus! {

/// Categories of the interface, in tab order.
#[derive(Debug, Clone, Copy, PartialEq, Eq)]
pub enum AppMode {
    Drums,
    Bass,
    Harmony,
    Melody,
    Groove,
    Params,
    Preview,
}

/// The category after `m`, wrapping around.
pub open spec fn mode_after(m: AppMode) -> AppMode {
    match m {
        AppMode::Drums => AppMode::Bass,
        AppMode::Bass => AppMode::Harmony,
        AppMode::Harmony => AppMode::Melody,
        AppMode::Melody => AppMode::Groove,
        AppMode::Groove => AppMode::Params,
        AppMode::Params => AppMode::Preview,
        AppMode::Preview => AppMode::Drums,
    }
}

/// The category before `m`, wrapping around.
pub open spec fn mode_before(m: AppMode) -> AppMode {
    match m {
        AppMode::Drums => AppMode::Preview,
        AppMode::Bass => AppMode::Drums,
        AppMode::Harmony => AppMode::Bass,
        AppMode::Melody => AppMode::Harmony,
        AppMode::Groove => AppMode::Melody,
        AppMode::Params => AppMode::Groove,
        AppMode::Preview => AppMode::Params,
    }
}

/// Moving forward and back through the categories undo each other, and
/// seven moves forward visit every category and come back.
pub proof fn lemma_mode_cycle(m: AppMode)
    ensures
        mode_before(mode_after(m)) == m,
        mode_after(mode_before(m)) == m,
        mode_after(mode_after(mode_after(mode_after(mode_after(mode_after(mode_after(m)))))))
            == m,
{
}

/// A cursor moved down a list of `len` items: it stops at the last item.
pub open spec fn cursor_down(index: nat, len: nat) -> nat {
    if index + 1 < len {
        index + 1
    } else {
        index
    }
}

/// A cursor moved up: it stops at the first item.
pub open spec fn cursor_up(index: nat) -> nat {
    if index > 0 {
        (index - 1) as nat
    } else {
        0
    }
}

/// A cursor inside a list stays inside it, and a move down that was not at
/// the bottom is undone by a move up.
pub proof fn lemma_cursor(index: nat, len: nat)
    ensures
        index < len ==> cursor_down(index, len) < len && cursor_up(index) < len,
        index + 1 < len ==> cursor_up(cursor_down(index, len)) == index,
        index > 0 && index < len ==> cursor_down(cursor_up(index), len) == index,
{
}

/// The item under a cursor, if the cursor is on one.
pub open spec fn item_at(items: Seq<String>, index: nat) -> Option<Seq<char>> {
    if index < items.len() {
        Some(items[index as int]@)
    } else {
        None
    }
}

/// The characters of each string in a list.
pub open spec fn views_of(items: Seq<String>) -> Seq<Seq<char>> {
    items.map_values(|s: String| s@)
}

/// A list of owned strings from literals.
fn owned(words: &[&str]) -> (r: Vec<String>)
    ensures
        views_of(r@) == words@.map_values(|w: &str| w@),
{
    let mut out: Vec<String> = Vec::new();
    let mut i: usize = 0;
    while i < words.len()
        invariant
            i <= words@.len(),
            out@.len() == i,
            views_of(out@) == words@.take(i as int).map_values(|w: &str| w@),
        decreases words.len() - i,
    {
        let ghost before = out@;
        out.push(String::from_str(words[i]));
        proof {
            assert forall|j: int| 0 <= j < i + 1 implies views_of(out@)[j] == words@.take(
                i + 1,
            ).map_values(|w: &str| w@)[j] by {
                if j < i {
                    assert(out@[j] == before[j]);
                    assert(views_of(before)[j] == words@.take(i as int).map_values(|w: &str| w@)[j]);
                }
            }
        }
        i = i + 1;
        assert(views_of(out@) =~= words@.take(i as int).map_values(|w: &str| w@));
    }
    assert(words@.take(i as int) =~= words@);
    out
}

/// The string under a cursor.
fn selected_item(items: &Vec<String>, index: usize) -> (r: Option<&str>)
    ensures
        match item_at(items@, index as nat) {
            Some(s) => r matches Some(x) && x@ == s,
            None => r is None,
        },
{
    if index < items.len() {
        Some(items[index].as_str())
    } else {
        None
    }
}

/// Names of the melody strategies offered.
pub open spec fn melody_names() -> Seq<Seq<char>> {
    seq![
        "lead_synth"@,
        "arpeggiated"@,
        "rhythmic_stabs"@,
        "textural_pads"@,
        "pluck_sequence"@,
        "bass_lead"@,
    ]
}

/// The melody strategies on offer, with a cursor.
#[derive(Debug, Clone)]
pub struct MelodyBrowser {
    pub strategies: Vec<String>,
    pub selected_index: usize,
}

impl MelodyBrowser {
    /// All strategies, the cursor on the first.
    pub fn new() -> (r: Self)
        ensures
            views_of(r.strategies@) == melody_names(),
            r.selected_index == 0,
    {
        let words = [
            "lead_synth",
            "arpeggiated",
            "rhythmic_stabs",
            "textural_pads",
            "pluck_sequence",
            "bass_lead",
        ];
        let strategies = owned(&words);
        assert(words@.map_values(|w: &str| w@) =~= melody_names());
        MelodyBrowser { strategies, selected_index: 0 }
    }

    /// The strategy under the cursor.
    pub fn selected(&self) -> (r: Option<&str>)
        ensures
            match item_at(self.strategies@, self.selected_index as nat) {
                Some(s) => r matches Some(x) && x@ == s,
                None => r is None,
            },
    {
        selected_item(&self.strategies, self.selected_index)
    }

    /// Move the cursor down.
    pub fn next(&mut self)
        ensures
            final(self).selected_index == cursor_down(
                old(self).selected_index as nat,
                old(self).strategies@.len(),
            ),
            final(self).strategies == old(self).strategies,
    {
        if self.strategies.len() > 0 && self.selected_index < self.strategies.len() - 1 {
            self.selected_index = self.selected_index + 1;
        }
    }

    /// Move the cursor up.
    pub fn previous(&mut self)
        ensures
            final(self).selected_index == cursor_up(old(self).selected_index as nat),
            final(self).strategies == old(self).strategies,
    {
        if self.selected_index > 0 {
            self.selected_index = self.selected_index - 1;
        }
    }
}

impl Default for MelodyBrowser {
    fn default() -> (r: Self)
        ensures
            views_of(r.strategies@) == melody_names(),
            r.selected_index == 0,
    {
        Self::new()
    }
}

/// Names of the groove (humanisation) settings offered.
pub open spec fn groove_names() -> Seq<Seq<char>> {
    seq!["human"@, "tight"@, "loose"@, "swing"@, "shuffle"@]
}

/// The groove settings on offer, with a cursor.
#[derive(Debug, Clone)]
pub struct GrooveBrowser {
    pub groove_types: Vec<String>,
    pub selected_index: usize,
}

impl GrooveBrowser {
    /// All grooves, the cursor on the first.
    pub fn new() -> (r: Self)
        ensures
            views_of(r.groove_types@) == groove_names(),
            r.selected_index == 0,
    {
        let words = ["human", "tight", "loose", "swing", "shuffle"];
        let groove_types = owned(&words);
        assert(words@.map_values(|w: &str| w@) =~= groove_names());
        GrooveBrowser { groove_types, selected_index: 0 }
    }

    /// The groove under the cursor.
    pub fn selected(&self) -> (r: Option<&str>)
        ensures
            match item_at(self.groove_types@, self.selected_index as nat) {
                Some(s) => r matches Some(x) && x@ == s,
                None => r is None,
            },
    {
        selected_item(&self.groove_types, self.selected_index)
    }

    /// Move the cursor down.
    pub fn next(&mut self)
        ensures
            final(self).selected_index == cursor_down(
                old(self).selected_index as nat,
                old(self).groove_types@.len(),
            ),
            final(self).groove_types == old(self).groove_types,
    {
        if self.groove_types.len() > 0 && self.selected_index < self.groove_types.len() - 1 {
            self.selected_index = self.selected_index + 1;
        }
    }

    /// Move the cursor up.
    pub fn previous(&mut self)
        ensures
            final(self).selected_index == cursor_up(old(self).selected_index as nat),
            final(self).groove_types == old(self).groove_types,
    {
        if self.selected_index > 0 {
            self.selected_index = self.selected_index - 1;
        }
    }
}

impl Default for GrooveBrowser {
    fn default() -> (r: Self)
        ensures
            views_of(r.groove_types@) == groove_names(),
            r.selected_index == 0,
    {
        Self::new()
    }
}

/// The parameters that can be edited, in list order.
#[derive(Debug, Clone, Copy, PartialEq, Eq)]
pub enum EditableParam {
    Bars,
    Tempo,
    OutputFile,
    KeySignature,
    StartingChord,
    BassStrategy,
}

/// The parameter at a list position; past the list, the bars.
pub open spec fn param_at(index: nat) -> EditableParam {
    if index == 1 {
        EditableParam::Tempo
    } else if index == 2 {
        EditableParam::OutputFile
    } else if index == 3 {
        EditableParam::KeySignature
    } else if index == 4 {
        EditableParam::StartingChord
    } else if index == 5 {
        EditableParam::BassStrategy
    } else {
        EditableParam::Bars
    }
}

/// Names of the parameters, in list order.
pub open spec fn param_names() -> Seq<Seq<char>> {
    seq![
        "Bars"@,
        "Tempo"@,
        "Output File"@,
        "Key Signature"@,
        "Starting Chord"@,
        "Bass Strategy"@,
    ]
}

/// The parameter editor: a cursor over the parameters and, while editing,
/// the text typed so far.
#[derive(Debug, Clone)]
pub struct ParamEditor {
    pub selected_param: usize,
    pub param_names: Vec<String>,
    pub editing_mode: bool,
    pub edit_buffer: String,
}

impl ParamEditor {
    /// All parameters, the cursor on the first, not editing.
    pub fn new() -> (r: Self)
        ensures
            r.selected_param == 0,
            views_of(r.param_names@) == param_names(),
            !r.editing_mode,
            r.edit_buffer@.len() == 0,
    {
        let words = [
            "Bars",
            "Tempo",
            "Output File",
            "Key Signature",
            "Starting Chord",
            "Bass Strategy",
        ];
        let names = owned(&words);
        assert(words@.map_values(|w: &str| w@) =~= param_names());
        ParamEditor {
            selected_param: 0,
            param_names: names,
            editing_mode: false,
            edit_buffer: String::new(),
        }
    }

    /// Move the cursor down.
    pub fn next(&mut self)
        ensures
            final(self).selected_param == cursor_down(
                old(self).selected_param as nat,
                old(self).param_names@.len(),
            ),
            final(self).param_names == old(self).param_names,
            final(self).editing_mode == old(self).editing_mode,
            final(self).edit_buffer == old(self).edit_buffer,
    {
        if self.param_names.len() > 0 && self.selected_param < self.param_names.len() - 1 {
            self.selected_param = self.selected_param + 1;
        }
    }

    /// Move the cursor up.
    pub fn previous(&mut self)
        ensures
            final(self).selected_param == cursor_up(old(self).selected_param as nat),
            final(self).param_names == old(self).param_names,
            final(self).editing_mode == old(self).editing_mode,
            final(self).edit_buffer == old(self).edit_buffer,
    {
        if self.selected_param > 0 {
            self.selected_param = self.selected_param - 1;
        }
    }

    /// Start editing, from the current value.
    pub fn start_editing(&mut self, current_value: &str)
        ensures
            final(self).editing_mode,
            final(self).edit_buffer@ == current_value@,
            final(self).selected_param == old(self).selected_param,
            final(self).param_names == old(self).param_names,
    {
        self.editing_mode = true;
        self.edit_buffer = String::from_str(current_value);
    }

    /// Stop editing and clear the text.
    pub fn stop_editing(&mut self)
        ensures
            !final(self).editing_mode,
            final(self).edit_buffer@.len() == 0,
            final(self).selected_param == old(self).selected_param,
            final(self).param_names == old(self).param_names,
    {
        self.editing_mode = false;
        self.edit_buffer = String::new();
    }

    /// Type a character (only while editing).
    pub fn add_char(&mut self, c: char)
        ensures
            final(self).edit_buffer@ == if old(self).editing_mode {
                old(self).edit_buffer@.push(c)
            } else {
                old(self).edit_buffer@
            },
            final(self).editing_mode == old(self).editing_mode,
            final(self).selected_param == old(self).selected_param,
            final(self).param_names == old(self).param_names,
    {
        if self.editing_mode {
            push_char(&mut self.edit_buffer, c);
        }
    }

    /// Delete the last character typed (only while editing).
    pub fn backspace(&mut self)
        ensures
            final(self).edit_buffer@ == if old(self).editing_mode && old(self).edit_buffer@.len() > 0 {
                old(self).edit_buffer@.drop_last()
            } else {
                old(self).edit_buffer@
            },
            final(self).editing_mode == old(self).editing_mode,
            final(self).selected_param == old(self).selected_param,
            final(self).param_names == old(self).param_names,
    {
        if self.editing_mode {
            let _ = pop_char(&mut self.edit_buffer);
        }
    }

    /// The parameter under the cursor.
    pub fn current_param(&self) -> (r: EditableParam)
        ensures
            r == param_at(self.selected_param as nat),
    {
        match self.selected_param {
            0 => EditableParam::Bars,
            1 => EditableParam::Tempo,
            2 => EditableParam::OutputFile,
            3 => EditableParam::KeySignature,
            4 => EditableParam::StartingChord,
            5 => EditableParam::BassStrategy,
            _ => EditableParam::Bars,
        }
    }
}

impl Default for ParamEditor {
    fn default() -> (r: Self)
        ensures
            r.selected_param == 0,
            views_of(r.param_names@) == param_names(),
            !r.editing_mode,
            r.edit_buffer@.len() == 0,
    {
        Self::new()
    }
}

/// Fields of the performance settings, in tab order.
#[derive(Debug, Clone, Copy, PartialEq, Eq)]
pub enum SelectedField {
    NumPerformers,
    Duration,
    Tempo,
    IncludePulse,
    Variation,
    CanonProbability,
    TimingFlex,
}

/// The field after `f`, wrapping around.
pub open spec fn field_after(f: SelectedField) -> SelectedField {
    match f {
        SelectedField::NumPerformers => SelectedField::Duration,
        SelectedField::Duration => SelectedField::Tempo,
        SelectedField::Tempo => SelectedField::IncludePulse,
        SelectedField::IncludePulse => SelectedField::Variation,
        SelectedField::Variation => SelectedField::CanonProbability,
        SelectedField::CanonProbability => SelectedField::TimingFlex,
        SelectedField::TimingFlex => SelectedField::NumPerformers,
    }
}

/// The field before `f`, wrapping around.
pub open spec fn field_before(f: SelectedField) -> SelectedField {
    match f {
        SelectedField::NumPerformers => SelectedField::TimingFlex,
        SelectedField::Duration => SelectedField::NumPerformers,
        SelectedField::Tempo => SelectedField::Duration,
        SelectedField::IncludePulse => SelectedField::Tempo,
        SelectedField::Variation => SelectedField::IncludePulse,
        SelectedField::CanonProbability => SelectedField::Variation,
        SelectedField::TimingFlex => SelectedField::CanonProbability,
    }
}

/// Moving forward and back through the fields undo each other, and seven
/// moves forward come back.
pub proof fn lemma_field_cycle(f: SelectedField)
    ensures
        field_before(field_after(f)) == f,
        field_after(field_before(f)) == f,
        field_after(field_after(field_after(field_after(field_after(field_after(field_after(f)))))))
            == f,
{
}

impl SelectedField {
    /// The next field.
    pub fn next(&self) -> (r: Self)
        ensures
            r == field_after(*self),
    {
        match self {
            SelectedField::NumPerformers => SelectedField::Duration,
            SelectedField::Duration => SelectedField::Tempo,
            SelectedField::Tempo => SelectedField::IncludePulse,
            SelectedField::IncludePulse => SelectedField::Variation,
            SelectedField::Variation => SelectedField::CanonProbability,
            SelectedField::CanonProbability => SelectedField::TimingFlex,
            SelectedField::TimingFlex => SelectedField::NumPerformers,
        }
    }

    /// The previous field.
    pub fn previous(&self) -> (r: Self)
        ensures
            r == field_before(*self),
    {
        match self {
            SelectedField::NumPerformers => SelectedField::TimingFlex,
            SelectedField::Duration => SelectedField::NumPerformers,
            SelectedField::Tempo => SelectedField::Duration,
            SelectedField::IncludePulse => SelectedField::Tempo,
            SelectedField::Variation => SelectedField::IncludePulse,
            SelectedField::CanonProbability => SelectedField::Variation,
            SelectedField::TimingFlex => SelectedField::CanonProbability,
        }
    }
}

/// Where a generation stands.
#[derive(Debug, Clone)]
pub enum GenerationStatus {
    Idle,
    Generating,
    Success(String),
    Error(String),
}


/// Metadata read from a pattern file.
#[derive(Debug, Clone)]
pub struct PatternMetadata {
    pub name: Option<String>,
    pub description: Option<String>,
    pub tempo_hint: Option<u16>,
}

/// A pattern file found in a directory.
#[derive(Debug, Clone)]
pub struct FileEntry {
    /// File name without extension.
    pub name: String,
    /// Full path of the file.
    pub path: String,
    /// Metadata read from the file, if it could be read.
    pub metadata: Option<PatternMetadata>,
}

/// The names of a list of entries.
pub open spec fn entry_names(files: Seq<FileEntry>) -> Seq<Seq<char>> {
    files.map_values(|e: FileEntry| e.name@)
}

/// The first position of an entry named `name`, if any.
pub open spec fn position_of(files: Seq<FileEntry>, name: Seq<char>) -> Option<nat>
    decreases files.len(),
{
    if files.len() == 0 {
        None
    } else if files[0].name@ == name {
        Some(0)
    } else {
        match position_of(files.drop_first(), name) {
            Some(k) => Some(k + 1),
            None => None,
        }
    }
}

/// The first entry named `name` is where the list first holds one.
pub proof fn lemma_position_at(files: Seq<FileEntry>, name: Seq<char>, k: nat)
    requires
        k <= files.len(),
        forall|j: int| 0 <= j < k ==> files[j].name@ != name,
        k < files.len() ==> files[k as int].name@ == name,
    ensures
        k < files.len() ==> position_of(files, name) == Some(k),
        k == files.len() ==> position_of(files, name) is None,
    decreases files.len(),
{
    if files.len() > 0 && k > 0 {
        assert forall|j: int| 0 <= j < k - 1 implies files.drop_first()[j].name@ != name by {
            assert(files.drop_first()[j] == files[j + 1]);
        }
        if k < files.len() {
            assert(files.drop_first()[k - 1] == files[k as int]);
        }
        lemma_position_at(files.drop_first(), name, (k - 1) as nat);
    }
}

/// The cursor after a refresh: on the entry that was selected when it is
/// still there, else where it was, moved to the last entry if past it.
pub open spec fn refreshed_index(old_files: Seq<FileEntry>, index: nat, files: Seq<FileEntry>) -> nat {
    let kept = if index < old_files.len() {
        match position_of(files, old_files[index as int].name@) {
            Some(k) => k,
            None => index,
        }
    } else {
        index
    };
    if kept >= files.len() {
        if files.len() == 0 {
            0
        } else {
            (files.len() - 1) as nat
        }
    } else {
        kept
    }
}

/// The first position of an entry with the given name, computed.
fn find_entry(files: &Vec<FileEntry>, name: &String) -> (r: Option<usize>)
    ensures
        match position_of(files@, name@) {
            Some(k) => r matches Some(i) && i as nat == k,
            None => r is None,
        },
{
    let mut j: usize = 0;
    while j < files.len()
        invariant
            j <= files@.len(),
            forall|k: int| 0 <= k < j ==> files@[k].name@ != name@,
        decreases files.len() - j,
    {
        if files[j].name == *name {
            proof {
                lemma_position_at(files@, name@, j as nat);
            }
            return Some(j);
        }
        j = j + 1;
    }
    proof {
        lemma_position_at(files@, name@, j as nat);
    }
    None
}

/// A browser over the pattern files of a directory.
pub struct FileBrowser {
    /// Directory browsed.
    pub directory: String,
    /// Display name of the browser.
    pub name: String,
    /// The files found.
    pub files: Vec<FileEntry>,
    /// The cursor.
    pub selected_index: usize,
}

impl FileBrowser {
    /// A browser over the files found in a directory (listed by the
    /// caller, who reads the directory), the cursor on the first.
    pub fn new(directory: &str, name: &str, files: Vec<FileEntry>) -> (r: Self)
        ensures
            r.directory@ == directory@,
            r.name@ == name@,
            r.files@ == files@,
            r.selected_index == 0,
    {
        FileBrowser {
            directory: String::from_str(directory),
            name: String::from_str(name),
            files,
            selected_index: 0,
        }
    }

    /// The name of the file under the cursor.
    pub fn selected_file(&self) -> (r: Option<&str>)
        ensures
            self.selected_index < self.files@.len() ==> (r matches Some(x) && x@
                == self.files@[self.selected_index as int].name@),
            self.selected_index >= self.files@.len() ==> r is None,
    {
        if self.selected_index < self.files.len() {
            Some(self.files[self.selected_index].name.as_str())
        } else {
            None
        }
    }

    /// The entry under the cursor.
    pub fn selected_entry(&self) -> (r: Option<&FileEntry>)
        ensures
            self.selected_index < self.files@.len() ==> r == Some(
                &self.files@[self.selected_index as int],
            ),
            self.selected_index >= self.files@.len() ==> r is None,
    {
        if self.selected_index < self.files.len() {
            Some(&self.files[self.selected_index])
        } else {
            None
        }
    }

    /// Move the cursor down.
    pub fn next(&mut self)
        ensures
            final(self).selected_index == cursor_down(
                old(self).selected_index as nat,
                old(self).files@.len(),
            ),
            final(self).files == old(self).files,
            final(self).name == old(self).name,
            final(self).directory == old(self).directory,
    {
        if self.files.len() > 0 && self.selected_index < self.files.len() - 1 {
            self.selected_index = self.selected_index + 1;
        }
    }

    /// Move the cursor up.
    pub fn previous(&mut self)
        ensures
            final(self).selected_index == cursor_up(old(self).selected_index as nat),
            final(self).files == old(self).files,
            final(self).name == old(self).name,
            final(self).directory == old(self).directory,
    {
        if self.selected_index > 0 {
            self.selected_index = self.selected_index - 1;
        }
    }

    /// The name to show for an entry: its metadata name, else its file name.
    pub fn display_name(&self, entry: &FileEntry) -> (r: String)
        ensures
            r@ == match entry.metadata {
                Some(m) => match m.name {
                    Some(n) => n@,
                    None => entry.name@,
                },
                None => entry.name@,
            },
    {
        if let Some(metadata) = &entry.metadata {
            if let Some(display_name) = &metadata.name {
                return display_name.clone();
            }
        }
        entry.name.clone()
    }

    /// The description to show for an entry.
    pub fn description(&self, entry: &FileEntry) -> (r: String)
        ensures
            r@ == match entry.metadata {
                Some(m) => match m.description {
                    Some(d) => d@,
                    None => "No description available"@,
                },
                None => "No description available"@,
            },
    {
        if let Some(metadata) = &entry.metadata {
            if let Some(desc) = &metadata.description {
                return desc.clone();
            }
        }
        String::from_str("No description available")
    }

    /// The tempo hint of an entry, if its metadata has one.
    pub fn tempo_hint(&self, entry: &FileEntry) -> (r: Option<u16>)
        ensures
            r == match entry.metadata {
                Some(m) => m.tempo_hint,
                None => None,
            },
    {
        match &entry.metadata {
            Some(m) => m.tempo_hint,
            None => None,
        }
    }

    /// Replace the files by a fresh listing, keeping the cursor on the
    /// same file when it is still there, and inside the list.
    pub fn refresh(&mut self, files: Vec<FileEntry>)
        ensures
            final(self).files@ == files@,
            final(self).selected_index == refreshed_index(
                old(self).files@,
                old(self).selected_index as nat,
                files@,
            ),
            final(self).name == old(self).name,
            final(self).directory == old(self).directory,
    {
        let current: Option<String> = match self.selected_file() {
            Some(s) => Some(String::from_str(s)),
            None => None,
        };
        self.files = files;
        if let Some(name) = current {
            if let Some(index) = find_entry(&self.files, &name) {
                self.selected_index = index;
            }
        }
        if self.selected_index >= self.files.len() {
            self.selected_index = if self.files.len() > 0 {
                self.files.len() - 1
            } else {
                0
            };
        }
    }

    /// The names of all files.
    pub fn file_names(&self) -> (r: Vec<&str>)
        ensures
            r@.map_values(|x: &str| x@) == entry_names(self.files@),
    {
        let mut names: Vec<&str> = Vec::new();
        let mut i: usize = 0;
        while i < self.files.len()
            invariant
                i <= self.files@.len(),
                names@.len() == i,
                forall|k: int| 0 <= k < i ==> names@[k]@ == self.files@[k].name@,
            decreases self.files.len() - i,
        {
            names.push(self.files[i].name.as_str());
            i = i + 1;
        }
        assert(names@.map_values(|x: &str| x@) =~= entry_names(self.files@));
        names
    }

    /// Whether no files were found.
    pub fn is_empty(&self) -> (r: bool)
        ensures
            r == (self.files@.len() == 0),
    {
        self.files.len() == 0
    }

    /// How many files were found.
    pub fn file_count(&self) -> (r: usize)
        ensures
            r == self.files@.len(),
    {
        self.files.len()
    }
}


/// What the user has chosen so far.
#[derive(Debug, Clone)]
pub struct Selections {
    pub drums_pattern: Option<String>,
    pub bass_pattern: Option<String>,
    pub harmony_pattern: Option<String>,
    pub melody_strategy: Option<String>,
    /// Humanisation setting.
    pub groove_settings: Option<String>,
    /// Bass generation strategy.
    pub bass_strategy: Option<String>,
    pub bars: usize,
    pub tempo: Option<u16>,
    pub output_file: String,
    /// Musical key (such as "C", "Dm", "F#").
    pub key_signature: String,
    /// Starting chord (such as "Cmaj", "Am", "F#m").
    pub starting_chord: String,
}

/// The characters of an optional string.
pub open spec fn opt_chars(s: Option<String>) -> Option<Seq<char>> {
    match s {
        Some(x) => Some(x@),
        None => None,
    }
}

impl Default for Selections {
    fn default() -> (r: Self)
        ensures
            r.drums_pattern is None,
            r.bass_pattern is None,
            r.harmony_pattern is None,
            opt_chars(r.melody_strategy) == Some("mixed"@),
            opt_chars(r.groove_settings) == Some("human"@),
            opt_chars(r.bass_strategy) == Some("root"@),
            r.bars == 64,
            r.tempo is None,
            r.output_file@ == "generated.mid"@,
            r.key_signature@ == "C"@,
            r.starting_chord@ == "Cmaj"@,
    {
        Selections {
            drums_pattern: None,
            bass_pattern: None,
            harmony_pattern: None,
            melody_strategy: Some(String::from_str("mixed")),
            groove_settings: Some(String::from_str("human")),
            bass_strategy: Some(String::from_str("root")),
            bars: 64,
            tempo: None,
            output_file: String::from_str("generated.mid"),
            key_signature: String::from_str("C"),
            starting_chord: String::from_str("Cmaj"),
        }
    }
}

/// Composition length as minutes and seconds, from bars of four beats at
/// a tempo: whole minutes, then the whole seconds left. Without a tempo
/// the length is unbounded (the largest minute count), or nothing when
/// there are no bars.
pub open spec fn duration_of(bars: nat, tempo: nat) -> (u32, u32) {
    if tempo == 0 {
        if bars == 0 {
            (0, 0)
        } else {
            (u32::MAX, 0)
        }
    } else {
        let total = (bars * 240) / tempo;
        let minutes = total / 60;
        (
            if minutes > u32::MAX {
                u32::MAX
            } else {
                minutes as u32
            },
            (total % 60) as u32,
        )
    }
}

/// The tempo a composition is made at: the one chosen; else the rhythm
/// pattern's hint when a drum or bass pattern is chosen; else the harmony
/// pattern's hint when one is chosen; else 120.
pub open spec fn resolved_tempo(
    tempo: Option<u16>,
    has_rhythm: bool,
    pattern_hint: Option<u16>,
    has_harmony: bool,
    harmony_hint: Option<u16>,
) -> u16 {
    if tempo is Some {
        tempo.unwrap()
    } else if has_rhythm && pattern_hint is Some {
        pattern_hint.unwrap()
    } else if has_harmony && harmony_hint is Some {
        harmony_hint.unwrap()
    } else {
        120
    }
}

/// The number of tracks a composition will have: rhythm, harmony and
/// melody, each when chosen.
pub open spec fn track_count_of(s: Selections) -> nat {
    (if s.drums_pattern is Some || s.bass_pattern is Some {
        1nat
    } else {
        0nat
    }) + (if s.harmony_pattern is Some {
        1nat
    } else {
        0nat
    }) + (if s.melody_strategy is Some {
        1nat
    } else {
        0nat
    })
}

/// The warnings about a choice: no rhythm pattern, no harmony pattern, a
/// very long composition.
pub open spec fn warnings_of(s: Selections) -> Seq<Seq<char>> {
    (if s.drums_pattern is None && s.bass_pattern is None {
        seq!["No rhythm pattern selected"@]
    } else {
        seq![]
    }) + (if s.harmony_pattern is None {
        seq!["No harmony pattern selected"@]
    } else {
        seq![]
    }) + (if s.bars > 128 {
        seq!["Very long composition - consider shorter length"@]
    } else {
        seq![]
    })
}

/// One labelled part of the description, when the choice is made.
pub open spec fn labelled(label: Seq<char>, value: Option<String>) -> Seq<Seq<char>> {
    match value {
        Some(v) => seq![label + v@],
        None => seq![],
    }
}

/// Pieces joined with a separator between each two.
pub open spec fn joined(parts: Seq<Seq<char>>, sep: Seq<char>) -> Seq<char>
    decreases parts.len(),
{
    if parts.len() == 0 {
        seq![]
    } else if parts.len() == 1 {
        parts[0]
    } else {
        joined(parts.drop_last(), sep) + sep + parts.last()
    }
}

/// The description of a choice: drums, bass, harmony and melody, each when
/// chosen, joined by " | "; or a note that nothing is chosen.
pub open spec fn description_of(s: Selections) -> Seq<char> {
    let parts = labelled("Drums: "@, s.drums_pattern) + labelled("Bass: "@, s.bass_pattern)
        + labelled("Harmony: "@, s.harmony_pattern) + labelled("Melody: "@, s.melody_strategy);
    if parts.len() == 0 {
        "No selections made yet"@
    } else {
        joined(parts, " | "@)
    }
}

/// What will be generated.
#[derive(Debug, Clone)]
pub struct PreviewInfo {
    /// Length in minutes and seconds.
    pub duration: Option<(u32, u32)>,
    pub bars: usize,
    /// Tempo resolved from the choice and the patterns' hints.
    pub tempo: u16,
    pub track_count: usize,
    /// What will be created, briefly.
    pub description: String,
    /// Issues with the choice.
    pub warnings: Vec<String>,
}

impl Default for PreviewInfo {
    fn default() -> (r: Self)
        ensures
            r.duration is None,
            r.bars == 0,
            r.tempo == 0,
            r.track_count == 0,
            r.description@.len() == 0,
            r.warnings@.len() == 0,
    {
        PreviewInfo {
            duration: None,
            bars: 0,
            tempo: 0,
            track_count: 0,
            description: String::new(),
            warnings: Vec::new(),
        }
    }
}

/// Appends a labelled part when the choice is made.
fn push_labelled(parts: &mut Vec<String>, label: &str, value: &Option<String>)
    ensures
        views_of(final(parts)@) == views_of(old(parts)@) + labelled(label@, *value),
{
    match value {
        Some(v) => {
            let ghost before = parts@;
            parts.push(concat(label, v.as_str()));
            assert(views_of(parts@) =~= views_of(before) + labelled(label@, *value));
        },
        None => {
            assert(views_of(parts@) =~= views_of(parts@) + labelled(label@, *value));
        },
    }
}

impl PreviewInfo {
    /// The tempo a composition is made at; `pattern_hint` is the tempo hint
    /// of the rhythm pattern's file (drums, else bass) and `harmony_hint`
    /// that of the harmony pattern's file.
    pub fn resolve_tempo(selections: &Selections, pattern_hint: Option<u16>, harmony_hint: Option<
        u16,
    >) -> (r: u16)
        ensures
            r == resolved_tempo(
                selections.tempo,
                selections.drums_pattern is Some || selections.bass_pattern is Some,
                pattern_hint,
                selections.harmony_pattern is Some,
                harmony_hint,
            ),
    {
        if let Some(tempo) = selections.tempo {
            return tempo;
        }
        if selections.drums_pattern.is_some() || selections.bass_pattern.is_some() {
            if let Some(tempo) = pattern_hint {
                return tempo;
            }
        }
        if selections.harmony_pattern.is_some() {
            if let Some(tempo) = harmony_hint {
                return tempo;
            }
        }
        120
    }

    /// Length in minutes and seconds of `bars` bars of four beats.
    pub fn calculate_duration(bars: usize, tempo: u16) -> (r: (u32, u32))
        requires
            bars * 240 <= usize::MAX,
        ensures
            r == duration_of(bars as nat, tempo as nat),
    {
        if tempo == 0 {
            return if bars == 0 {
                (0, 0)
            } else {
                (u32::MAX, 0)
            };
        }
        let total = bars * 240 / (tempo as usize);
        let minutes = total / 60;
        let m: u32 = if minutes > u32::MAX as usize {
            u32::MAX
        } else {
            minutes as u32
        };
        (m, (total % 60) as u32)
    }

    /// How many tracks the choice makes.
    pub fn estimate_tracks(selections: &Selections) -> (r: usize)
        ensures
            r == track_count_of(*selections),
    {
        let mut count: usize = 0;
        if selections.drums_pattern.is_some() || selections.bass_pattern.is_some() {
            count = count + 1;
        }
        if selections.harmony_pattern.is_some() {
            count = count + 1;
        }
        if selections.melody_strategy.is_some() {
            count = count + 1;
        }
        count
    }

    /// The description of the choice.
    pub fn generate_description(selections: &Selections) -> (r: String)
        ensures
            r@ == description_of(*selections),
    {
        let mut parts: Vec<String> = Vec::new();
        push_labelled(&mut parts, "Drums: ", &selections.drums_pattern);
        push_labelled(&mut parts, "Bass: ", &selections.bass_pattern);
        push_labelled(&mut parts, "Harmony: ", &selections.harmony_pattern);
        push_labelled(&mut parts, "Melody: ", &selections.melody_strategy);
        assert(views_of(parts@) =~= labelled("Drums: "@, selections.drums_pattern) + labelled(
            "Bass: "@,
            selections.bass_pattern,
        ) + labelled("Harmony: "@, selections.harmony_pattern) + labelled(
            "Melody: "@,
            selections.melody_strategy,
        ));
        if parts.len() == 0 {
            return String::from_str("No selections made yet");
        }
        let mut text = parts[0].clone();
        let mut i: usize = 1;
        assert(views_of(parts@).take(1).drop_last() =~= Seq::<Seq<char>>::empty());
        while i < parts.len()
            invariant
                1 <= i <= parts@.len(),
                text@ == joined(views_of(parts@).take(i as int), " | "@),
            decreases parts.len() - i,
        {
            let with_sep = concat(text.as_str(), " | ");
            text = concat(with_sep.as_str(), parts[i].as_str());
            i = i + 1;
            assert(views_of(parts@).take(i as int).drop_last() =~= views_of(parts@).take(i - 1));
        }
        assert(views_of(parts@).take(i as int) =~= views_of(parts@));
        text
    }

    /// The warnings about the choice.
    pub fn check_warnings(selections: &Selections) -> (r: Vec<String>)
        ensures
            views_of(r@) == warnings_of(*selections),
    {
        let mut warnings: Vec<String> = Vec::new();
        if selections.drums_pattern.is_none() && selections.bass_pattern.is_none() {
            warnings.push(String::from_str("No rhythm pattern selected"));
        }
        let ghost first = views_of(warnings@);
        if selections.harmony_pattern.is_none() {
            warnings.push(String::from_str("No harmony pattern selected"));
        }
        let ghost second = views_of(warnings@);
        if selections.bars > 128 {
            warnings.push(String::from_str("Very long composition - consider shorter length"));
        }
        assert(views_of(warnings@) =~= warnings_of(*selections));
        warnings
    }

    /// What the choice will generate; `pattern_hint` and `harmony_hint`
    /// are the tempo hints read from the chosen patterns' files.
    pub fn calculate(selections: &Selections, pattern_hint: Option<u16>, harmony_hint: Option<u16>) -> (r: Result<
        Self,
        crate::errors::LobachevskyError,
    >)
        requires
            selections.bars * 240 <= usize::MAX,
        ensures
            r matches Ok(p) && {
                &&& p.bars == selections.bars
                &&& p.tempo == resolved_tempo(
                    selections.tempo,
                    selections.drums_pattern is Some || selections.bass_pattern is Some,
                    pattern_hint,
                    selections.harmony_pattern is Some,
                    harmony_hint,
                )
                &&& p.duration == Some(duration_of(selections.bars as nat, p.tempo as nat))
                &&& p.track_count == track_count_of(*selections)
                &&& p.description@ == description_of(*selections)
                &&& views_of(p.warnings@) == warnings_of(*selections)
            },
    {
        let tempo = Self::resolve_tempo(selections, pattern_hint, harmony_hint);
        Ok(
            PreviewInfo {
                duration: Some(Self::calculate_duration(selections.bars, tempo)),
                bars: selections.bars,
                tempo,
                track_count: Self::estimate_tracks(selections),
                description: Self::generate_description(selections),
                warnings: Self::check_warnings(selections),
            },
        )
    }

    /// Whether the choice is ready to generate: no warnings.
    pub fn is_ready(&self) -> (r: bool)
        ensures
            r == (self.warnings@.len() == 0),
    {
        self.warnings.len() == 0
    }

    /// The length as `minutes:seconds`, seconds in two digits, or
    /// `Unknown` when it was not worked out.
    pub fn duration_string(&self) -> (r: String)
        ensures
            r@ == duration_text(self.duration),
    {
        match self.duration {
            Some((minutes, seconds)) => {
                let m = decimal_text(minutes as usize);
                let with_colon = concat(m.as_str(), ":");
                let s = decimal_text(seconds as usize);
                if seconds < 10 {
                    let padded = concat(with_colon.as_str(), "0");
                    let r = concat(padded.as_str(), s.as_str());
                    assert(r@ =~= m@ + ":"@ + ("0"@ + s@));
                    r
                } else {
                    concat(with_colon.as_str(), s.as_str())
                }
            },
            None => String::from_str("Unknown"),
        }
    }

    /// One line that sums up the preview: bars, length, tempo and tracks.
    pub fn summary_line(&self) -> (r: String)
        ensures
            r@ == summary_text(*self),
    {
        let bars = decimal_text(self.bars);
        let a = concat(bars.as_str(), " bars, ");
        let d = self.duration_string();
        let b = concat(a.as_str(), d.as_str());
        let c = concat(b.as_str(), " @ ");
        let tempo = decimal_text(self.tempo as usize);
        let e = concat(c.as_str(), tempo.as_str());
        let f = concat(e.as_str(), " BPM, ");
        let tracks = decimal_text(self.track_count);
        let g = concat(f.as_str(), tracks.as_str());
        concat(g.as_str(), " tracks")
    }
}

/// A number in at least two digits, with a leading zero below ten.
pub open spec fn two_digits(n: nat) -> Seq<char> {
    if n < 10 {
        "0"@ + decimal_digits(n)
    } else {
        decimal_digits(n)
    }
}

/// A length shown as minutes, a colon and two-digit seconds.
pub open spec fn duration_text(d: Option<(u32, u32)>) -> Seq<char> {
    match d {
        Some((m, s)) => decimal_digits(m as nat) + ":"@ + two_digits(s as nat),
        None => "Unknown"@,
    }
}

/// The summary line of a preview.
pub open spec fn summary_text(p: PreviewInfo) -> Seq<char> {
    decimal_digits(p.bars as nat) + " bars, "@ + duration_text(p.duration) + " @ "@
        + decimal_digits(p.tempo as nat) + " BPM, "@ + decimal_digits(p.track_count as nat)
        + " tracks"@
}


/// The browsers of each category.
pub struct Browsers {
    pub drums_browser: FileBrowser,
    pub bass_browser: FileBrowser,
    pub harmony_browser: FileBrowser,
    pub melody_browser: MelodyBrowser,
    pub groove_browser: GrooveBrowser,
}

/// What a confirmed parameter edit did.
#[derive(Debug, Clone, Copy, PartialEq, Eq)]
pub enum ParamOutcome {
    /// The bars were set.
    BarsSet(usize),
    /// A number of bars outside 16 to 512.
    BarsOutOfRange,
    /// Not a number of bars.
    BarsInvalid,
    /// The tempo was set to follow the patterns.
    TempoAuto,
    /// The tempo was set.
    TempoSet(u16),
    /// A tempo outside 60 to 200.
    TempoOutOfRange,
    /// Not a tempo.
    TempoInvalid,
    /// The output file was set.
    OutputFileSet,
    /// An empty output file name.
    OutputFileEmpty,
    /// The key was set.
    KeySet,
    /// A key that is blank or too long.
    KeyInvalid,
    /// An empty key.
    KeyEmpty,
    /// The starting chord was set.
    ChordSet,
    /// A chord that is blank or too long.
    ChordInvalid,
    /// An empty chord.
    ChordEmpty,
    /// The bass strategy was set.
    BassSet,
    /// Not a bass strategy.
    BassInvalid,
    /// An empty bass strategy.
    BassEmpty,
}

/// The bass strategies accepted in the editor.
pub open spec fn is_bass_choice(s: Seq<char>) -> bool {
    s == "root"@ || s == "walking"@ || s == "rhythmic"@ || s == "counterpoint"@ || s
        == "root_fifth"@ || s == "pedal_c"@ || s == "pedal_g"@ || has_prefix(s, "pedal_"@)
}

/// What confirming the text `buf` for a parameter does: numbers are read
/// as `str::parse` reads them and kept in range; names are trimmed and
/// kept short (in UTF-8 bytes); bass strategies are also lower-cased.
pub open spec fn param_outcome(param: EditableParam, buf: Seq<char>) -> ParamOutcome {
    match param {
        EditableParam::Bars => match unsigned_parse(buf, usize::MAX as int) {
            Some(b) => if 16 <= b <= 512 {
                ParamOutcome::BarsSet(b as usize)
            } else {
                ParamOutcome::BarsOutOfRange
            },
            None => ParamOutcome::BarsInvalid,
        },
        EditableParam::Tempo => if buf == "Auto"@ || buf.len() == 0 {
            ParamOutcome::TempoAuto
        } else {
            match unsigned_parse(buf, u16::MAX as int) {
                Some(t) => if 60 <= t <= 200 {
                    ParamOutcome::TempoSet(t as u16)
                } else {
                    ParamOutcome::TempoOutOfRange
                },
                None => ParamOutcome::TempoInvalid,
            }
        },
        EditableParam::OutputFile => if buf.len() > 0 {
            ParamOutcome::OutputFileSet
        } else {
            ParamOutcome::OutputFileEmpty
        },
        EditableParam::KeySignature => if buf.len() == 0 {
            ParamOutcome::KeyEmpty
        } else if unicode_trimmed(buf).len() > 0 && (encode_utf8(unicode_trimmed(buf)).len() as usize) <= 3 {
            ParamOutcome::KeySet
        } else {
            ParamOutcome::KeyInvalid
        },
        EditableParam::StartingChord => if buf.len() == 0 {
            ParamOutcome::ChordEmpty
        } else if unicode_trimmed(buf).len() > 0 && (encode_utf8(unicode_trimmed(buf)).len() as usize) <= 6 {
            ParamOutcome::ChordSet
        } else {
            ParamOutcome::ChordInvalid
        },
        EditableParam::BassStrategy => if buf.len() == 0 {
            ParamOutcome::BassEmpty
        } else if is_bass_choice(unicode_lowercase(unicode_trimmed(buf))) {
            ParamOutcome::BassSet
        } else {
            ParamOutcome::BassInvalid
        },
    }
}

/// How a confirmed edit changes the choice: only the parameter set
/// changes, to the value read from `buf`.
pub open spec fn edit_applied(old: Selections, new: Selections, outcome: ParamOutcome, buf: Seq<char>) -> bool {
    match outcome {
        ParamOutcome::BarsSet(b) => new == (Selections { bars: b, ..old }),
        ParamOutcome::TempoAuto => new == (Selections { tempo: None, ..old }),
        ParamOutcome::TempoSet(t) => new == (Selections { tempo: Some(t), ..old }),
        ParamOutcome::OutputFileSet => new.output_file@ == buf && new == (Selections {
            output_file: new.output_file,
            ..old
        }),
        ParamOutcome::KeySet => new.key_signature@ == unicode_trimmed(buf) && new == (Selections {
            key_signature: new.key_signature,
            ..old
        }),
        ParamOutcome::ChordSet => new.starting_chord@ == unicode_trimmed(buf) && new == (
        Selections { starting_chord: new.starting_chord, ..old }),
        ParamOutcome::BassSet => opt_chars(new.bass_strategy) == Some(
            unicode_lowercase(unicode_trimmed(buf)),
        ) && new == (Selections { bass_strategy: new.bass_strategy, ..old }),
        _ => new == old,
    }
}

/// The text a parameter is edited from: its current value.
pub open spec fn param_text(s: Selections, param: EditableParam) -> Seq<char> {
    match param {
        EditableParam::Bars => decimal_digits(s.bars as nat),
        EditableParam::Tempo => match s.tempo {
            Some(t) => decimal_digits(t as nat),
            None => "Auto"@,
        },
        EditableParam::OutputFile => s.output_file@,
        EditableParam::KeySignature => s.key_signature@,
        EditableParam::StartingChord => s.starting_chord@,
        EditableParam::BassStrategy => match s.bass_strategy {
            Some(b) => b@,
            None => "root"@,
        },
    }
}

/// The name shown for each category.
pub open spec fn mode_label(m: AppMode) -> &'static str {
    match m {
        AppMode::Drums => "Drums",
        AppMode::Bass => "Bass",
        AppMode::Harmony => "Harmony",
        AppMode::Melody => "Melody",
        AppMode::Groove => "Groove",
        AppMode::Params => "Params",
        AppMode::Preview => "Preview",
    }
}

/// What choosing the current item did.
#[derive(Debug, Clone, Copy, PartialEq, Eq)]
pub enum SelectOutcome {
    /// Nothing to choose here.
    Nothing,
    /// A pattern, strategy or groove was chosen: the preview is stale.
    Chosen,
    /// Editing of the current parameter began.
    EditStarted,
    /// An edit was confirmed, with this effect.
    EditApplied(ParamOutcome),
}

/// The composition interface.
pub struct App {
    /// The current category.
    pub mode: AppMode,
    /// Whether the interface should close.
    pub should_exit: bool,
    /// What has been chosen.
    pub selections: Selections,
    /// The browsers of each category.
    pub browsers: Browsers,
    /// What will be generated.
    pub preview: PreviewInfo,
    /// Status message.
    pub status: String,
    /// The parameter editor.
    pub param_editor: ParamEditor,
}

impl App {
    /// The interface on the drums, with the default choice, over the
    /// pattern files found for drums, bass and harmony.
    pub fn new(drums_browser: FileBrowser, bass_browser: FileBrowser, harmony_browser: FileBrowser) -> (r: Self)
        ensures
            r.mode == AppMode::Drums,
            !r.should_exit,
            r.browsers.drums_browser == drums_browser,
            r.browsers.bass_browser == bass_browser,
            r.browsers.harmony_browser == harmony_browser,
            views_of(r.browsers.melody_browser.strategies@) == melody_names(),
            r.browsers.melody_browser.selected_index == 0,
            views_of(r.browsers.groove_browser.groove_types@) == groove_names(),
            r.browsers.groove_browser.selected_index == 0,
            r.selections.bars == 64,
            r.selections.drums_pattern is None,
            r.selections.bass_pattern is None,
            r.selections.harmony_pattern is None,
            r.status@ == "Ready to create music! Use Tab to navigate categories."@,
            !r.param_editor.editing_mode,
            r.param_editor.selected_param == 0,
    {
        App {
            mode: AppMode::Drums,
            should_exit: false,
            selections: Selections::default(),
            browsers: Browsers {
                drums_browser,
                bass_browser,
                harmony_browser,
                melody_browser: MelodyBrowser::new(),
                groove_browser: GrooveBrowser::new(),
            },
            preview: PreviewInfo::default(),
            status: String::from_str("Ready to create music! Use Tab to navigate categories."),
            param_editor: ParamEditor::new(),
        }
    }

    /// Go to the next category.
    pub fn next_mode(&mut self)
        ensures
            final(self).mode == mode_after(old(self).mode),
            final(self).selections == old(self).selections,
            final(self).param_editor == old(self).param_editor,
    {
        self.mode = match self.mode {
            AppMode::Drums => AppMode::Bass,
            AppMode::Bass => AppMode::Harmony,
            AppMode::Harmony => AppMode::Melody,
            AppMode::Melody => AppMode::Groove,
            AppMode::Groove => AppMode::Params,
            AppMode::Params => AppMode::Preview,
            AppMode::Preview => AppMode::Drums,
        };
    }

    /// Go to the previous category.
    pub fn previous_mode(&mut self)
        ensures
            final(self).mode == mode_before(old(self).mode),
            final(self).selections == old(self).selections,
            final(self).param_editor == old(self).param_editor,
    {
        self.mode = match self.mode {
            AppMode::Drums => AppMode::Preview,
            AppMode::Bass => AppMode::Drums,
            AppMode::Harmony => AppMode::Bass,
            AppMode::Melody => AppMode::Harmony,
            AppMode::Groove => AppMode::Melody,
            AppMode::Params => AppMode::Groove,
            AppMode::Preview => AppMode::Params,
        };
    }

    /// Move the cursor of the current category up.
    pub fn navigate_up(&mut self)
        ensures
            final(self).mode == old(self).mode,
            final(self).selections == old(self).selections,
            old(self).mode == AppMode::Drums ==> final(self).browsers.drums_browser.selected_index
                == cursor_up(old(self).browsers.drums_browser.selected_index as nat),
            old(self).mode == AppMode::Bass ==> final(self).browsers.bass_browser.selected_index
                == cursor_up(old(self).browsers.bass_browser.selected_index as nat),
            old(self).mode == AppMode::Harmony ==> final(self).browsers.harmony_browser.selected_index
                == cursor_up(old(self).browsers.harmony_browser.selected_index as nat),
            old(self).mode == AppMode::Melody ==> final(self).browsers.melody_browser.selected_index
                == cursor_up(old(self).browsers.melody_browser.selected_index as nat),
            old(self).mode == AppMode::Groove ==> final(self).browsers.groove_browser.selected_index
                == cursor_up(old(self).browsers.groove_browser.selected_index as nat),
            old(self).mode == AppMode::Params ==> final(self).param_editor.selected_param
                == cursor_up(old(self).param_editor.selected_param as nat),
    {
        match self.mode {
            AppMode::Drums => self.browsers.drums_browser.previous(),
            AppMode::Bass => self.browsers.bass_browser.previous(),
            AppMode::Harmony => self.browsers.harmony_browser.previous(),
            AppMode::Melody => self.browsers.melody_browser.previous(),
            AppMode::Groove => self.browsers.groove_browser.previous(),
            AppMode::Params => self.param_editor.previous(),
            AppMode::Preview => {},
        }
    }

    /// Move the cursor of the current category down.
    pub fn navigate_down(&mut self)
        ensures
            final(self).mode == old(self).mode,
            final(self).selections == old(self).selections,
            old(self).mode == AppMode::Drums ==> final(self).browsers.drums_browser.selected_index
                == cursor_down(
                old(self).browsers.drums_browser.selected_index as nat,
                old(self).browsers.drums_browser.files@.len(),
            ),
            old(self).mode == AppMode::Bass ==> final(self).browsers.bass_browser.selected_index
                == cursor_down(
                old(self).browsers.bass_browser.selected_index as nat,
                old(self).browsers.bass_browser.files@.len(),
            ),
            old(self).mode == AppMode::Harmony ==> final(self).browsers.harmony_browser.selected_index
                == cursor_down(
                old(self).browsers.harmony_browser.selected_index as nat,
                old(self).browsers.harmony_browser.files@.len(),
            ),
            old(self).mode == AppMode::Melody ==> final(self).browsers.melody_browser.selected_index
                == cursor_down(
                old(self).browsers.melody_browser.selected_index as nat,
                old(self).browsers.melody_browser.strategies@.len(),
            ),
            old(self).mode == AppMode::Groove ==> final(self).browsers.groove_browser.selected_index
                == cursor_down(
                old(self).browsers.groove_browser.selected_index as nat,
                old(self).browsers.groove_browser.groove_types@.len(),
            ),
            old(self).mode == AppMode::Params ==> final(self).param_editor.selected_param
                == cursor_down(
                old(self).param_editor.selected_param as nat,
                old(self).param_editor.param_names@.len(),
            ),
    {
        match self.mode {
            AppMode::Drums => self.browsers.drums_browser.next(),
            AppMode::Bass => self.browsers.bass_browser.next(),
            AppMode::Harmony => self.browsers.harmony_browser.next(),
            AppMode::Melody => self.browsers.melody_browser.next(),
            AppMode::Groove => self.browsers.groove_browser.next(),
            AppMode::Params => self.param_editor.next(),
            AppMode::Preview => {},
        }
    }

    /// The name of the current category.
    pub fn mode_name(&self) -> (r: &'static str)
        ensures
            r == mode_label(self.mode),
    {
        match self.mode {
            AppMode::Drums => "Drums",
            AppMode::Bass => "Bass",
            AppMode::Harmony => "Harmony",
            AppMode::Melody => "Melody",
            AppMode::Groove => "Groove",
            AppMode::Params => "Params",
            AppMode::Preview => "Preview",
        }
    }

    /// The current value of the parameter under the cursor, as text.
    pub fn current_param_value(&self) -> (r: String)
        ensures
            r@ == param_text(self.selections, param_at(self.param_editor.selected_param as nat)),
    {
        match self.param_editor.current_param() {
            EditableParam::Bars => decimal_text(self.selections.bars),
            EditableParam::Tempo => match self.selections.tempo {
                Some(t) => decimal_text(t as usize),
                None => String::from_str("Auto"),
            },
            EditableParam::OutputFile => self.selections.output_file.clone(),
            EditableParam::KeySignature => self.selections.key_signature.clone(),
            EditableParam::StartingChord => self.selections.starting_chord.clone(),
            EditableParam::BassStrategy => match &self.selections.bass_strategy {
                Some(b) => b.clone(),
                None => String::from_str("root"),
            },
        }
    }

    /// Confirm the text typed for the parameter under the cursor.
    pub fn apply_parameter_edit(&mut self) -> (r: ParamOutcome)
        ensures
            r == param_outcome(
                param_at(old(self).param_editor.selected_param as nat),
                old(self).param_editor.edit_buffer@,
            ),
            edit_applied(
                old(self).selections,
                final(self).selections,
                r,
                old(self).param_editor.edit_buffer@,
            ),
            final(self).mode == old(self).mode,
            final(self).param_editor == old(self).param_editor,
    {
        let buffer = chars_of(self.param_editor.edit_buffer.as_str());
        let buf = buffer.as_slice();
        proof {
            reveal_strlit("Auto");
        }
        match self.param_editor.current_param() {
            EditableParam::Bars => match parse_usize(buf) {
                Some(bars) => if 16 <= bars && bars <= 512 {
                    self.selections.bars = bars;
                    ParamOutcome::BarsSet(bars)
                } else {
                    ParamOutcome::BarsOutOfRange
                },
                None => ParamOutcome::BarsInvalid,
            },
            EditableParam::Tempo => if chars_eq_str(buf, "Auto") || buf.len() == 0 {
                self.selections.tempo = None;
                ParamOutcome::TempoAuto
            } else {
                match parse_u16(buf) {
                    Some(tempo) => if 60 <= tempo && tempo <= 200 {
                        self.selections.tempo = Some(tempo);
                        ParamOutcome::TempoSet(tempo)
                    } else {
                        ParamOutcome::TempoOutOfRange
                    },
                    None => ParamOutcome::TempoInvalid,
                }
            },
            EditableParam::OutputFile => if buf.len() > 0 {
                self.selections.output_file = self.param_editor.edit_buffer.clone();
                ParamOutcome::OutputFileSet
            } else {
                ParamOutcome::OutputFileEmpty
            },
            EditableParam::KeySignature => if buf.len() == 0 {
                ParamOutcome::KeyEmpty
            } else {
                let key = trim(self.param_editor.edit_buffer.as_str());
                if !key.is_empty() && key.len() <= 3 {
                    self.selections.key_signature = String::from_str(key);
                    ParamOutcome::KeySet
                } else {
                    ParamOutcome::KeyInvalid
                }
            },
            EditableParam::StartingChord => if buf.len() == 0 {
                ParamOutcome::ChordEmpty
            } else {
                let chord = trim(self.param_editor.edit_buffer.as_str());
                if !chord.is_empty() && chord.len() <= 6 {
                    self.selections.starting_chord = String::from_str(chord);
                    ParamOutcome::ChordSet
                } else {
                    ParamOutcome::ChordInvalid
                }
            },
            EditableParam::BassStrategy => if buf.len() == 0 {
                ParamOutcome::BassEmpty
            } else {
                let strategy = lowercase(trim(self.param_editor.edit_buffer.as_str()));
                let sv = chars_of(strategy.as_str());
                let s = sv.as_slice();
                let valid = chars_eq_str(s, "root") || chars_eq_str(s, "walking") || chars_eq_str(
                    s,
                    "rhythmic",
                ) || chars_eq_str(s, "counterpoint") || chars_eq_str(s, "root_fifth")
                    || chars_eq_str(s, "pedal_c") || chars_eq_str(s, "pedal_g") || chars_start_with(
                    s,
                    "pedal_",
                );
                if valid {
                    self.selections.bass_strategy = Some(strategy);
                    ParamOutcome::BassSet
                } else {
                    ParamOutcome::BassInvalid
                }
            },
        }
    }

    /// Choose the item under the cursor. In a browser, the item becomes the
    /// choice of its category (the preview is then stale). Among the
    /// parameters, the first press starts editing from the current value
    /// and the second confirms the edit and stops editing.
    pub fn select_current(&mut self) -> (r: SelectOutcome)
        ensures
            final(self).mode == old(self).mode,
            old(self).mode == AppMode::Preview ==> r == SelectOutcome::Nothing && final(self).selections == old(self).selections,
            old(self).mode == AppMode::Drums ==> match item_at_file(
                old(self).browsers.drums_browser,
            ) {
                Some(n) => r == SelectOutcome::Chosen && opt_chars(final(self).selections.drums_pattern)
                    == Some(n) && final(self).selections == (Selections {
                    drums_pattern: final(self).selections.drums_pattern,
                    ..old(self).selections
                }),
                None => r == SelectOutcome::Nothing && final(self).selections == old(self).selections,
            },
            old(self).mode == AppMode::Bass ==> match item_at_file(old(self).browsers.bass_browser) {
                Some(n) => r == SelectOutcome::Chosen && opt_chars(final(self).selections.bass_pattern)
                    == Some(n) && final(self).selections == (Selections {
                    bass_pattern: final(self).selections.bass_pattern,
                    ..old(self).selections
                }),
                None => r == SelectOutcome::Nothing && final(self).selections == old(self).selections,
            },
            old(self).mode == AppMode::Harmony ==> match item_at_file(
                old(self).browsers.harmony_browser,
            ) {
                Some(n) => r == SelectOutcome::Chosen && opt_chars(
                    final(self).selections.harmony_pattern,
                ) == Some(n) && final(self).selections == (Selections {
                    harmony_pattern: final(self).selections.harmony_pattern,
                    ..old(self).selections
                }),
                None => r == SelectOutcome::Nothing && final(self).selections == old(self).selections,
            },
            old(self).mode == AppMode::Melody ==> match item_at(
                old(self).browsers.melody_browser.strategies@,
                old(self).browsers.melody_browser.selected_index as nat,
            ) {
                Some(n) => r == SelectOutcome::Chosen && opt_chars(
                    final(self).selections.melody_strategy,
                ) == Some(n) && final(self).selections == (Selections {
                    melody_strategy: final(self).selections.melody_strategy,
                    ..old(self).selections
                }),
                None => r == SelectOutcome::Nothing && final(self).selections == old(self).selections,
            },
            old(self).mode == AppMode::Groove ==> match item_at(
                old(self).browsers.groove_browser.groove_types@,
                old(self).browsers.groove_browser.selected_index as nat,
            ) {
                Some(n) => r == SelectOutcome::Chosen && opt_chars(
                    final(self).selections.groove_settings,
                ) == Some(n) && final(self).selections == (Selections {
                    groove_settings: final(self).selections.groove_settings,
                    ..old(self).selections
                }),
                None => r == SelectOutcome::Nothing && final(self).selections == old(self).selections,
            },
            old(self).mode == AppMode::Params && old(self).param_editor.editing_mode ==> {
                &&& r == SelectOutcome::EditApplied(
                    param_outcome(
                        param_at(old(self).param_editor.selected_param as nat),
                        old(self).param_editor.edit_buffer@,
                    ),
                )
                &&& edit_applied(
                    old(self).selections,
                    final(self).selections,
                    r->EditApplied_0,
                    old(self).param_editor.edit_buffer@,
                )
                &&& !final(self).param_editor.editing_mode
                &&& final(self).param_editor.edit_buffer@.len() == 0
            },
            old(self).mode == AppMode::Params && !old(self).param_editor.editing_mode ==> {
                &&& r == SelectOutcome::EditStarted
                &&& final(self).selections == old(self).selections
                &&& final(self).param_editor.editing_mode
                &&& final(self).param_editor.edit_buffer@ == param_text(
                    old(self).selections,
                    param_at(old(self).param_editor.selected_param as nat),
                )
            },
    {
        match self.mode {
            AppMode::Drums => match self.browsers.drums_browser.selected_file() {
                Some(selected) => {
                    self.selections.drums_pattern = Some(String::from_str(selected));
                    SelectOutcome::Chosen
                },
                None => SelectOutcome::Nothing,
            },
            AppMode::Bass => match self.browsers.bass_browser.selected_file() {
                Some(selected) => {
                    self.selections.bass_pattern = Some(String::from_str(selected));
                    SelectOutcome::Chosen
                },
                None => SelectOutcome::Nothing,
            },
            AppMode::Harmony => match self.browsers.harmony_browser.selected_file() {
                Some(selected) => {
                    self.selections.harmony_pattern = Some(String::from_str(selected));
                    SelectOutcome::Chosen
                },
                None => SelectOutcome::Nothing,
            },
            AppMode::Melody => match self.browsers.melody_browser.selected() {
                Some(selected) => {
                    self.selections.melody_strategy = Some(String::from_str(selected));
                    SelectOutcome::Chosen
                },
                None => SelectOutcome::Nothing,
            },
            AppMode::Groove => match self.browsers.groove_browser.selected() {
                Some(selected) => {
                    self.selections.groove_settings = Some(String::from_str(selected));
                    SelectOutcome::Chosen
                },
                None => SelectOutcome::Nothing,
            },
            AppMode::Params => if self.param_editor.editing_mode {
                let outcome = self.apply_parameter_edit();
                self.param_editor.stop_editing();
                SelectOutcome::EditApplied(outcome)
            } else {
                let current_value = self.current_param_value();
                self.param_editor.start_editing(current_value.as_str());
                SelectOutcome::EditStarted
            },
            AppMode::Preview => SelectOutcome::Nothing,
        }
    }

    /// Type a character into the parameter being edited.
    pub fn handle_param_char(&mut self, c: char)
        ensures
            final(self).param_editor.edit_buffer@ == if old(self).param_editor.editing_mode {
                old(self).param_editor.edit_buffer@.push(c)
            } else {
                old(self).param_editor.edit_buffer@
            },
            final(self).param_editor.editing_mode == old(self).param_editor.editing_mode,
            final(self).selections == old(self).selections,
            final(self).mode == old(self).mode,
    {
        if self.param_editor.editing_mode {
            self.param_editor.add_char(c);
        }
    }

    /// Delete the last character of the parameter being edited.
    pub fn handle_param_backspace(&mut self)
        ensures
            final(self).param_editor.edit_buffer@ == if old(self).param_editor.editing_mode
                && old(self).param_editor.edit_buffer@.len() > 0 {
                old(self).param_editor.edit_buffer@.drop_last()
            } else {
                old(self).param_editor.edit_buffer@
            },
            final(self).param_editor.editing_mode == old(self).param_editor.editing_mode,
            final(self).selections == old(self).selections,
            final(self).mode == old(self).mode,
    {
        if self.param_editor.editing_mode {
            self.param_editor.backspace();
        }
    }
}

/// The name of the file under a browser's cursor, if any.
pub open spec fn item_at_file(b: FileBrowser) -> Option<Seq<char>> {
    if b.selected_index < b.files@.len() {
        Some(b.files@[b.selected_index as int].name@)
    } else {
        None
    }
}

/// The melody strategy a chosen name gives. Older names map to the
/// nearest strategy (mixed to the lead synth, chord tones to pads,
/// arpeggio to arpeggiated, stepwise to plucks); no choice or an unknown
/// name gives the lead synth.
pub open spec fn tui_melody_named(name: Option<Seq<char>>) -> MelodyStrategy {
    match name {
        None => MelodyStrategy::LeadSynth,
        Some(n) => if n == "arpeggiated"@ || n == "arpeggio"@ {
            MelodyStrategy::Arpeggiated
        } else if n == "rhythmic_stabs"@ {
            MelodyStrategy::RhythmicStabs
        } else if n == "textural_pads"@ || n == "chord_tones"@ {
            MelodyStrategy::TexturalPads
        } else if n == "pluck_sequence"@ || n == "stepwise"@ {
            MelodyStrategy::PluckSequence
        } else if n == "bass_lead"@ {
            MelodyStrategy::BassLead
        } else {
            MelodyStrategy::LeadSynth
        },
    }
}

/// The melody strategy for the chosen name; see `tui_melody_named`.
pub fn tui_melody_strategy(name: Option<&str>) -> (r: MelodyStrategy)
    ensures
        r == tui_melody_named(
            match name {
                Some(n) => Some(n@),
                None => None,
            },
        ),
{
    match name {
        None => MelodyStrategy::LeadSynth,
        Some(n) => if str_eq(n, "arpeggiated") || str_eq(n, "arpeggio") {
            MelodyStrategy::Arpeggiated
        } else if str_eq(n, "rhythmic_stabs") {
            MelodyStrategy::RhythmicStabs
        } else if str_eq(n, "textural_pads") || str_eq(n, "chord_tones") {
            MelodyStrategy::TexturalPads
        } else if str_eq(n, "pluck_sequence") || str_eq(n, "stepwise") {
            MelodyStrategy::PluckSequence
        } else if str_eq(n, "bass_lead") {
            MelodyStrategy::BassLead
        } else {
            MelodyStrategy::LeadSynth
        },
    }
}

/// A copy of an optional string.
fn copy_opt(s: &Option<String>) -> (r: Option<String>)
    ensures
        opt_chars(r) == opt_chars(*s),
{
    match s {
        Some(x) => Some(x.clone()),
        None => None,
    }
}

impl Selections {
    /// Whether there is something to generate from: a drums, bass or
    /// harmony pattern.
    pub fn can_generate(&self) -> (r: bool)
        ensures
            r == (self.drums_pattern is Some || self.bass_pattern is Some
                || self.harmony_pattern is Some),
    {
        self.drums_pattern.is_some() || self.bass_pattern.is_some() || self.harmony_pattern.is_some()
    }

    /// The length of a preview: a quarter of the bars, kept within 8 to 16.
    pub fn preview_bars(&self) -> (r: usize)
        ensures
            r == (if self.bars / 4 < 8 {
                8
            } else if self.bars / 4 > 16 {
                16
            } else {
                self.bars / 4
            }),
    {
        let quarter = self.bars / 4;
        if quarter < 8 {
            8
        } else if quarter > 16 {
            16
        } else {
            quarter
        }
    }

    /// The harmony used when no pattern is chosen: P, R, L from the chosen
    /// starting chord (C major when it does not read), returning home, with
    /// the chosen tempo and bars as hints.
    pub fn default_harmony(&self) -> (r: TypedHarmonicPattern)
        ensures
            r.name@ == "Default"@,
            r.description matches Some(d) && d@ == "Auto-generated progression starting from "@
                + self.starting_chord@,
            r.start_chord == match pitch_named(split_symbol(self.starting_chord@).0) {
                Some(p) => Chord { root: p, quality: split_symbol(self.starting_chord@).1 },
                None => Chord { root: PitchClass::C, quality: ChordQuality::Major },
            },
            r.transformations@ == seq![Transform::P, Transform::R, Transform::L],
            r.mode is None,
            r.tonic is None,
            r.return_to_start,
            r.tempo_hint == self.tempo,
            r.bars_hint == Some(self.bars),
    {
        let start_chord = match Chord::try_from(self.starting_chord.as_str()) {
            Ok(c) => c,
            Err(_) => Chord::c_major(),
        };
        TypedHarmonicPattern {
            name: String::from_str("Default"),
            description: Some(
                concat("Auto-generated progression starting from ", self.starting_chord.as_str()),
            ),
            start_chord,
            transformations: vec![Transform::P, Transform::R, Transform::L],
            mode: None,
            tonic: None,
            return_to_start: true,
            tempo_hint: self.tempo,
            bars_hint: Some(self.bars),
        }
    }

    /// What to generate from the choice, with the given harmony: the drums
    /// pattern (else the bass pattern) as the rhythm, the melody strategy
    /// from its name, the bass strategy from its name if chosen, sixteen
    /// notes per chord and no call and response.
    pub fn generate_input(&self, harmony: TypedHarmonicPattern) -> (r: GenerateInput)
        ensures
            opt_chars(r.rhythm_name) == (if self.drums_pattern is Some {
                opt_chars(self.drums_pattern)
            } else {
                opt_chars(self.bass_pattern)
            }),
            r.harmony == harmony,
            r.melody_strategy == tui_melody_named(opt_chars(self.melody_strategy)),
            r.bass_strategy == match self.bass_strategy {
                Some(b) => Some(bass_strategy_named(unicode_lowercase(b@))),
                None => None,
            },
            r.call_response_type is None,
            r.notes_per_chord == 16,
    {
        let rhythm_name = if self.drums_pattern.is_some() {
            copy_opt(&self.drums_pattern)
        } else {
            copy_opt(&self.bass_pattern)
        };
        let melody_strategy = match &self.melody_strategy {
            Some(m) => tui_melody_strategy(Some(m.as_str())),
            None => tui_melody_strategy(None),
        };
        let bass_strategy = match &self.bass_strategy {
            Some(b) => Some(BassStrategy::from(b.as_str())),
            None => None,
        };
        GenerateInput {
            rhythm_name,
            harmony,
            melody_strategy,
            bass_strategy,
            call_response_type: None,
            notes_per_chord: 16,
        }
    }
}

/// A key press, as the interface sees it.
#[derive(Debug, Clone, Copy, PartialEq, Eq)]
pub enum Key {
    Char(char),
    Tab,
    Up,
    Down,
    Left,
    Right,
    Enter,
    Esc,
    Backspace,
    F(u8),
    Other,
}

/// What a key press asks of the interface.
#[derive(Debug, Clone, Copy, PartialEq, Eq)]
pub enum Command {
    /// Close the interface.
    Quit,
    /// Generate the composition.
    Generate,
    NextMode,
    PreviousMode,
    Up,
    Down,
    /// Choose the current item, or start or confirm an edit.
    Select,
    /// Read the pattern directories again.
    Refresh,
    /// Stop editing without applying.
    CancelEdit,
    /// Delete the last typed character.
    Backspace,
    /// Show the key help.
    Help,
    /// Type a character into the edit.
    Type(char),
    /// Jump to a category.
    GoTo(AppMode),
    /// Ask for a preview.
    Preview,
    /// Sixteen bars more.
    BarsUp,
    /// Sixteen bars fewer.
    BarsDown,
    /// Nothing to do.
    Ignore,
}

/// The category a digit key jumps to.
pub open spec fn digit_mode(c: char) -> Option<AppMode> {
    if c == '1' {
        Some(AppMode::Drums)
    } else if c == '2' {
        Some(AppMode::Bass)
    } else if c == '3' {
        Some(AppMode::Harmony)
    } else if c == '4' {
        Some(AppMode::Melody)
    } else if c == '5' {
        Some(AppMode::Groove)
    } else if c == '6' {
        Some(AppMode::Params)
    } else if c == '7' {
        Some(AppMode::Preview)
    } else {
        None
    }
}

/// What a key press does. `q` always quits and `g` without modifiers
/// always generates; Tab moves between categories (back with Shift); Esc
/// cancels an edit or quits; while editing, other characters are typed;
/// otherwise digits jump to a category, space asks for a preview, `h`
/// shows help, Ctrl+R (like F5) refreshes, and in the parameters `+` or
/// `=` and `-` change the bars. F1 shows help.
pub open spec fn command_spec(
    key: Key,
    shift: bool,
    control: bool,
    plain: bool,
    editing: bool,
    mode: AppMode,
) -> Command {
    match key {
        Key::Char(c) => if c == 'q' {
            Command::Quit
        } else if c == 'g' {
            if plain {
                Command::Generate
            } else {
                Command::Ignore
            }
        } else if editing {
            Command::Type(c)
        } else if digit_mode(c) is Some {
            Command::GoTo(digit_mode(c).unwrap())
        } else if c == ' ' {
            Command::Preview
        } else if c == 'h' {
            Command::Help
        } else if c == 'r' && control {
            Command::Refresh
        } else if mode == AppMode::Params && (c == '+' || c == '=') {
            Command::BarsUp
        } else if mode == AppMode::Params && c == '-' {
            Command::BarsDown
        } else {
            Command::Ignore
        },
        Key::Tab => if shift {
            Command::PreviousMode
        } else {
            Command::NextMode
        },
        Key::Up => Command::Up,
        Key::Down => Command::Down,
        Key::Left | Key::Right => Command::Ignore,
        Key::Enter => Command::Select,
        Key::F(n) => if n == 5 {
            Command::Refresh
        } else if n == 1 {
            Command::Help
        } else {
            Command::Ignore
        },
        Key::Esc => if editing {
            Command::CancelEdit
        } else {
            Command::Quit
        },
        Key::Backspace => if editing {
            Command::Backspace
        } else {
            Command::Ignore
        },
        Key::Other => Command::Ignore,
    }
}

impl App {
    /// What a key press does now; see `command_spec`. `plain` is that no
    /// modifier is held.
    pub fn command_for(&self, key: Key, shift: bool, control: bool, plain: bool) -> (r: Command)
        ensures
            r == command_spec(key, shift, control, plain, self.param_editor.editing_mode, self.mode),
    {
        let editing = self.param_editor.editing_mode;
        let in_params = match self.mode {
            AppMode::Params => true,
            _ => false,
        };
        match key {
            Key::Char(c) => if c == 'q' {
                Command::Quit
            } else if c == 'g' {
                if plain {
                    Command::Generate
                } else {
                    Command::Ignore
                }
            } else if editing {
                Command::Type(c)
            } else if c == '1' {
                Command::GoTo(AppMode::Drums)
            } else if c == '2' {
                Command::GoTo(AppMode::Bass)
            } else if c == '3' {
                Command::GoTo(AppMode::Harmony)
            } else if c == '4' {
                Command::GoTo(AppMode::Melody)
            } else if c == '5' {
                Command::GoTo(AppMode::Groove)
            } else if c == '6' {
                Command::GoTo(AppMode::Params)
            } else if c == '7' {
                Command::GoTo(AppMode::Preview)
            } else if c == ' ' {
                Command::Preview
            } else if c == 'h' {
                Command::Help
            } else if c == 'r' && control {
                Command::Refresh
            } else if in_params && (c == '+' || c == '=') {
                Command::BarsUp
            } else if in_params && c == '-' {
                Command::BarsDown
            } else {
                Command::Ignore
            },
            Key::Tab => if shift {
                Command::PreviousMode
            } else {
                Command::NextMode
            },
            Key::Up => Command::Up,
            Key::Down => Command::Down,
            Key::Left | Key::Right => Command::Ignore,
            Key::Enter => Command::Select,
            Key::F(n) => if n == 5 {
                Command::Refresh
            } else if n == 1 {
                Command::Help
            } else {
                Command::Ignore
            },
            Key::Esc => if editing {
                Command::CancelEdit
            } else {
                Command::Quit
            },
            Key::Backspace => if editing {
                Command::Backspace
            } else {
                Command::Ignore
            },
            Key::Other => Command::Ignore,
        }
    }

    /// Sixteen bars more, up to 512.
    pub fn bars_up(&mut self)
        ensures
            final(self).selections == (Selections {
                bars: if old(self).selections.bars + 16 < 512 {
                    (old(self).selections.bars + 16) as usize
                } else {
                    512
                },
                ..old(self).selections
            }),
            final(self).mode == old(self).mode,
            final(self).param_editor == old(self).param_editor,
    {
        if self.selections.bars < 496 {
            self.selections.bars = self.selections.bars + 16;
        } else {
            self.selections.bars = 512;
        }
    }

    /// Sixteen bars fewer, down to 16.
    pub fn bars_down(&mut self)
        ensures
            final(self).selections == (Selections {
                bars: if old(self).selections.bars >= 32 {
                    (old(self).selections.bars - 16) as usize
                } else {
                    16
                },
                ..old(self).selections
            }),
            final(self).mode == old(self).mode,
            final(self).param_editor == old(self).param_editor,
    {
        if self.selections.bars >= 32 {
            self.selections.bars = self.selections.bars - 16;
        } else {
            self.selections.bars = 16;
        }
    }

    /// The name of the item under the cursor of the current category, or
    /// "None"; empty for the parameters and the preview.
    pub fn current_selection_name(&self) -> (r: String)
        ensures
            self.mode == AppMode::Drums ==> r@ == match item_at_file(self.browsers.drums_browser) {
                Some(n) => n,
                None => "None"@,
            },
            self.mode == AppMode::Bass ==> r@ == match item_at_file(self.browsers.bass_browser) {
                Some(n) => n,
                None => "None"@,
            },
            self.mode == AppMode::Harmony ==> r@ == match item_at_file(self.browsers.harmony_browser) {
                Some(n) => n,
                None => "None"@,
            },
            self.mode == AppMode::Melody ==> r@ == match item_at(
                self.browsers.melody_browser.strategies@,
                self.browsers.melody_browser.selected_index as nat,
            ) {
                Some(n) => n,
                None => "None"@,
            },
            self.mode == AppMode::Groove ==> r@ == match item_at(
                self.browsers.groove_browser.groove_types@,
                self.browsers.groove_browser.selected_index as nat,
            ) {
                Some(n) => n,
                None => "None"@,
            },
            (self.mode == AppMode::Params || self.mode == AppMode::Preview) ==> r@.len() == 0,
    {
        let picked = match self.mode {
            AppMode::Drums => self.browsers.drums_browser.selected_file(),
            AppMode::Bass => self.browsers.bass_browser.selected_file(),
            AppMode::Harmony => self.browsers.harmony_browser.selected_file(),
            AppMode::Melody => self.browsers.melody_browser.selected(),
            AppMode::Groove => self.browsers.groove_browser.selected(),
            _ => {
                return String::new();
            },
        };
        match picked {
            Some(n) => String::from_str(n),
            None => String::from_str("None"),
        }
    }
}

/// Names in ascending order, character by character; a prefix comes
/// first.
pub open spec fn name_le(a: Seq<char>, b: Seq<char>) -> bool
    decreases a.len(),
{
    if a.len() == 0 {
        true
    } else if b.len() == 0 {
        false
    } else if (a[0] as int) < (b[0] as int) {
        true
    } else if a[0] == b[0] {
        name_le(a.drop_first(), b.drop_first())
    } else {
        false
    }
}

/// Any two names are in order one way or the other.
pub proof fn lemma_name_le_total(a: Seq<char>, b: Seq<char>)
    ensures
        name_le(a, b) || name_le(b, a),
    decreases a.len(),
{
    if a.len() > 0 && b.len() > 0 {
        if a[0] == b[0] {
            lemma_name_le_total(a.drop_first(), b.drop_first());
        } else {
            assert((a[0] as int) != (b[0] as int));
        }
    }
}

/// The order of names is transitive.
pub proof fn lemma_name_le_transitive(a: Seq<char>, b: Seq<char>, c: Seq<char>)
    requires
        name_le(a, b),
        name_le(b, c),
    ensures
        name_le(a, c),
    decreases a.len(),
{
    if a.len() > 0 && b.len() > 0 && c.len() > 0 && a[0] == b[0] && b[0] == c[0] {
        lemma_name_le_transitive(a.drop_first(), b.drop_first(), c.drop_first());
    }
}

/// Whether `a` comes before `b`, or equals it.
fn name_before(a: &str, b: &str) -> (r: bool)
    ensures
        r == name_le(a@, b@),
{
    let av = chars_of(a);
    let bv = chars_of(b);
    let mut i: usize = 0;
    assert(av@.skip(0) =~= av@);
    assert(bv@.skip(0) =~= bv@);
    while i < av.len() && i < bv.len() && av[i] == bv[i]
        invariant
            i <= av@.len(),
            i <= bv@.len(),
            av@ == a@,
            bv@ == b@,
            name_le(av@.skip(i as int), bv@.skip(i as int)) == name_le(a@, b@),
        decreases av.len() - i,
    {
        assert(av@.skip(i as int).drop_first() =~= av@.skip(i + 1));
        assert(bv@.skip(i as int).drop_first() =~= bv@.skip(i + 1));
        i = i + 1;
    }
    if i == av.len() {
        assert(av@.skip(i as int).len() == 0);
        true
    } else if i == bv.len() {
        false
    } else {
        assert(av@.skip(i as int)[0] == av@[i as int]);
        assert(bv@.skip(i as int)[0] == bv@[i as int]);
        av[i] < bv[i]
    }
}

/// Whether a file name is a README, whatever its case.
pub open spec fn is_readme(name: Seq<char>) -> bool {
    unicode_lowercase(name) == "readme"@
}

/// The entries that are not READMEs, in order.
pub open spec fn without_readmes(files: Seq<FileEntry>) -> Seq<FileEntry>
    decreases files.len(),
{
    if files.len() == 0 {
        seq![]
    } else if is_readme(files.last().name@) {
        without_readmes(files.drop_last())
    } else {
        without_readmes(files.drop_last()).push(files.last())
    }
}

/// The listing of a directory's pattern files as the browser shows it:
/// README files left out, the rest sorted by name.
pub fn listing(files: Vec<FileEntry>) -> (r: Vec<FileEntry>)
    ensures
        r@.to_multiset() == without_readmes(files@).to_multiset(),
        forall|i: int, j: int| 0 <= i < j < r@.len() ==> name_le(#[trigger] r@[i].name@, #[trigger] r@[j].name@),
{
    broadcast use vstd::seq_lib::group_to_multiset_ensures, vstd::multiset::group_multiset_axioms;
    let ghost all = files@;
    let mut rest = files;
    let mut out: Vec<FileEntry> = Vec::new();
    while rest.len() > 0
        invariant
            out@.to_multiset().add(without_readmes(rest@).to_multiset()) == without_readmes(all).to_multiset(),
            forall|a: int, b: int| 0 <= a < b < out@.len() ==> name_le(#[trigger] out@[a].name@, #[trigger] out@[b].name@),
        decreases rest.len(),
    {
        let ghost whole = rest@;
        let entry = match rest.pop() {
            Some(e) => e,
            None => {
                return out;
            },
        };
        assert(rest@ == whole.drop_last() && entry == whole.last());
        let lower = lowercase(entry.name.as_str());
        if str_eq(lower.as_str(), "readme") {
            assert(without_readmes(whole) == without_readmes(rest@));
        } else {
            assert(without_readmes(whole) == without_readmes(rest@).push(entry));
            let mut k: usize = 0;
            while k < out.len() && name_before(out[k].name.as_str(), entry.name.as_str())
                invariant
                    k <= out@.len(),
                    forall|a: int| 0 <= a < k ==> name_le(#[trigger] out@[a].name@, entry.name@),
                decreases out.len() - k,
            {
                k = k + 1;
            }
            let ghost before = out@;
            proof {
                if k < out@.len() {
                    lemma_name_le_total(before[k as int].name@, entry.name@);
                }
            }
            out.insert(k, entry);
            assert(out@ == before.insert(k as int, entry));
            proof {
                vstd::seq_lib::to_multiset_insert(before, k as int, entry);
                vstd::seq_lib::to_multiset_build(without_readmes(rest@), entry);
            }
            assert(out@.to_multiset().add(without_readmes(rest@).to_multiset()) =~= before.to_multiset().add(
                without_readmes(whole).to_multiset(),
            ));
            assert forall|a: int, b: int| 0 <= a < b < out@.len() implies name_le(
                #[trigger] out@[a].name@,
                #[trigger] out@[b].name@,
            ) by {
                if b < k {
                } else if a < k && b == k {
                } else if a < k && b > k {
                    assert(out@[b] == before[b - 1]);
                    assert(name_le(before[a].name@, entry.name@));
                    assert(name_le(entry.name@, before[k as int].name@));
                    if k < b - 1 {
                        lemma_name_le_transitive(entry.name@, before[k as int].name@, before[b - 1].name@);
                    }
                    lemma_name_le_transitive(before[a].name@, entry.name@, before[b - 1].name@);
                } else if a == k {
                    assert(out@[b] == before[b - 1]);
                    if k < b - 1 {
                        lemma_name_le_transitive(entry.name@, before[k as int].name@, before[b - 1].name@);
                    }
                } else {
                    assert(out@[a] == before[a - 1]);
                    assert(out@[b] == before[b - 1]);
                }
            }
        }
    }
    assert(without_readmes(rest@) == Seq::<FileEntry>::empty());
    assert(out@.to_multiset().add(Seq::<FileEntry>::empty().to_multiset()) =~= out@.to_multiset());
    out
}

/// What a key press asks of the performance settings.
#[derive(Debug, Clone, Copy, PartialEq, Eq)]
pub enum PerformanceCommand {
    Quit,
    ToggleHelp,
    Generate,
    /// Back to the default settings.
    Reset,
    NextField,
    PreviousField,
    /// Raise the field, by a large step when asked.
    Increase(bool),
    /// Lower the field, by a large step when asked.
    Decrease(bool),
    /// Switch the pulse on or off.
    Toggle,
    Ignore,
}

/// What a key press does in the performance settings. `q` quits and F1
/// shows or hides the help at any time; while the help shows nothing else
/// acts. `g` and `r` without modifiers generate and reset; Tab (back with
/// Shift), Up and Down move between fields; Right and Left change the
/// field (a large step with Shift); space or Enter switch the pulse when
/// it is the field.
pub open spec fn performance_command_spec(
    key: Key,
    shift: bool,
    plain: bool,
    help_showing: bool,
    field: SelectedField,
) -> PerformanceCommand {
    if key == Key::Char('q') {
        PerformanceCommand::Quit
    } else if key == Key::F(1) {
        PerformanceCommand::ToggleHelp
    } else if help_showing {
        PerformanceCommand::Ignore
    } else {
        match key {
            Key::Char(c) => if c == 'g' && plain {
                PerformanceCommand::Generate
            } else if c == 'r' && plain {
                PerformanceCommand::Reset
            } else if c == ' ' && field == SelectedField::IncludePulse {
                PerformanceCommand::Toggle
            } else {
                PerformanceCommand::Ignore
            },
            Key::Tab => if shift {
                PerformanceCommand::PreviousField
            } else {
                PerformanceCommand::NextField
            },
            Key::Up => PerformanceCommand::PreviousField,
            Key::Down => PerformanceCommand::NextField,
            Key::Right => PerformanceCommand::Increase(shift),
            Key::Left => PerformanceCommand::Decrease(shift),
            Key::Enter => if field == SelectedField::IncludePulse {
                PerformanceCommand::Toggle
            } else {
                PerformanceCommand::Ignore
            },
            _ => PerformanceCommand::Ignore,
        }
    }
}

/// What a key press does in the performance settings; see
/// `performance_command_spec`.
pub fn performance_command(key: Key, shift: bool, plain: bool, help_showing: bool, field: SelectedField) -> (r:
    PerformanceCommand)
    ensures
        r == performance_command_spec(key, shift, plain, help_showing, field),
{
    let on_pulse = match field {
        SelectedField::IncludePulse => true,
        _ => false,
    };
    match key {
        Key::Char('q') => PerformanceCommand::Quit,
        Key::F(1) => PerformanceCommand::ToggleHelp,
        _ => if help_showing {
            PerformanceCommand::Ignore
        } else {
            match key {
                Key::Char(c) => if c == 'g' && plain {
                    PerformanceCommand::Generate
                } else if c == 'r' && plain {
                    PerformanceCommand::Reset
                } else if c == ' ' && on_pulse {
                    PerformanceCommand::Toggle
                } else {
                    PerformanceCommand::Ignore
                },
                Key::Tab => if shift {
                    PerformanceCommand::PreviousField
                } else {
                    PerformanceCommand::NextField
                },
                Key::Up => PerformanceCommand::PreviousField,
                Key::Down => PerformanceCommand::NextField,
                Key::Right => PerformanceCommand::Increase(shift),
                Key::Left => PerformanceCommand::Decrease(shift),
                Key::Enter => if on_pulse {
                    PerformanceCommand::Toggle
                } else {
                    PerformanceCommand::Ignore
                },
                _ => PerformanceCommand::Ignore,
            }
        },
    }
}

/// The number of players after a step: up by 1 (5 for a large step) to
/// at most 20, or down to at least 1. Raising a count so large that the
/// sum would not fit is left out.
pub fn performers_stepped(count: usize, large_step: bool, up: bool) -> (r: usize)
    requires
        up ==> count + (if large_step { 5int } else { 1int }) <= usize::MAX,
    ensures
        r == ({
            let step: int = if large_step {
                5
            } else {
                1
            };
            if up {
                if count + step < 20 {
                    count + step
                } else {
                    20
                }
            } else {
                if count - step > 1 {
                    count - step
                } else {
                    1
                }
            }
        }),
{
    let step: usize = if large_step {
        5
    } else {
        1
    };
    if up {
        if count < 20 - step {
            count + step
        } else {
            20
        }
    } else {
        if count > step + 1 {
            count - step
        } else {
            1
        }
    }
}

/// The tempo after a step: up by 1 (10 for a large step) to at most 180,
/// or down to at least 60. Raising a tempo so large that the sum would
/// not fit in a `u16` is left out.
pub fn tempo_stepped(tempo: u16, large_step: bool, up: bool) -> (r: u16)
    requires
        up ==> tempo + (if large_step { 10int } else { 1int }) <= u16::MAX,
    ensures
        r == ({
            let step: int = if large_step {
                10
            } else {
                1
            };
            if up {
                if tempo + step < 180 {
                    tempo + step
                } else {
                    180
                }
            } else {
                if tempo - step > 60 {
                    tempo - step
                } else {
                    60
                }
            }
        }),
{
    let step: u16 = if large_step {
        10
    } else {
        1
    };
    if up {
        if tempo < 180 - step {
            tempo + step
        } else {
            180
        }
    } else {
        if tempo > step + 60 {
            tempo - step
        } else {
            60
        }
    }
}

} // verus!
