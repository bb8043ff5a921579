//! Harmonic patterns: a start chord, transformations and an optional mode,
//! as written (names) and as parsed (values).

use vstd::prelude::*;

use crate::core_types::{
    chord_parse_ok, mode_named, mode_parse_ok, pitch_named, pitch_parse_ok, split_symbol, Chord,
    Mode, PitchClass,
};
use crate::errors::LobachevskyError;
use crate::text::unicode_lowercase;
use crate::theory::{is_transform_name, names_transform, normalized_name, transform_parse_ok, Transform};

verus! {

/// A harmonic pattern with every name parsed.
pub struct TypedHarmonicPattern {
    /// Name of the pattern.
    pub name: String,
    /// Description of the pattern.
    pub description: Option<String>,
    /// Starting chord.
    pub start_chord: Chord,
    /// Transformations to apply.
    pub transformations: Vec<Transform>,
    /// Mode the progression keeps to, if any.
    pub mode: Option<Mode>,
    /// Tonic of that mode, if any.
    pub tonic: Option<PitchClass>,
    /// Whether to return to the starting chord.
    pub return_to_start: bool,
    /// Suggested tempo.
    pub tempo_hint: Option<u16>,
    /// Suggested number of bars.
    pub bars_hint: Option<usize>,
}

/// A harmonic pattern as written: chord, transformations, mode and tonic by
/// name.
pub struct HarmonicPattern {
    /// Name of the pattern.
    pub name: String,
    /// Description of the pattern.
    pub description: Option<String>,
    /// Starting chord symbol (such as "Am", "C", "F#m").
    pub start_chord: String,
    /// Transformation names.
    pub transformations: Vec<String>,
    /// Mode name (such as "dorian"), if any.
    pub mode: Option<String>,
    /// Tonic name (such as "D"), if any.
    pub tonic: Option<String>,
    /// Whether to return to the starting chord.
    pub return_to_start: Option<bool>,
    /// Suggested tempo.
    pub tempo_hint: Option<u16>,
    /// Suggested number of bars.
    pub bars_hint: Option<usize>,
}

impl Default for HarmonicPattern {
    fn default() -> (r: Self)
        ensures
            r.name@ == "default"@,
            r.description matches Some(d) && d@ == "the default harmonic pattern"@,
            r.start_chord@ == "Cmaj"@,
            r.transformations@.len() == 0,
            r.mode is None,
            r.tonic is None,
            r.return_to_start is None,
            r.tempo_hint is None,
            r.bars_hint is None,
    {
        HarmonicPattern {
            name: String::from_str("default"),
            description: Some(String::from_str("the default harmonic pattern")),
            start_chord: String::from_str("Cmaj"),
            transformations: Vec::new(),
            mode: None,
            tonic: None,
            return_to_start: None,
            tempo_hint: None,
            bars_hint: None,
        }
    }
}

/// The characters of each string in a list.
pub open spec fn string_views(v: Seq<String>) -> Seq<Seq<char>> {
    v.map_values(|s: String| s@)
}

/// Every name in the list is a transformation name.
pub open spec fn all_transform_names(names: Seq<Seq<char>>) -> bool {
    forall|i: int| 0 <= i < names.len() ==> is_transform_name(normalized_name(#[trigger] names[i]))
}

/// `ts` are the transformations the names stand for, one for one.
pub open spec fn transforms_named(names: Seq<Seq<char>>, ts: Seq<Transform>) -> bool {
    &&& ts.len() == names.len()
    &&& forall|i: int| 0 <= i < names.len() ==> names_transform(normalized_name(#[trigger] names[i]), ts[i])
}

/// The result of parsing a list of transformation names: every name
/// parsed, or the error for the first name that is not one.
pub open spec fn transforms_parse_ok(names: Seq<Seq<char>>, r: Result<Vec<Transform>, LobachevskyError>) -> bool {
    if all_transform_names(names) {
        r matches Ok(v) && transforms_named(names, v@)
    } else {
        r matches Err(LobachevskyError::InvalidTransformation { input }) && exists|k: int|
            0 <= k < names.len() && !is_transform_name(normalized_name(#[trigger] names[k])) && (
            forall|j: int| 0 <= j < k ==> is_transform_name(normalized_name(#[trigger] names[j])))
                && input@ == names[k]
    }
}

/// A chord symbol whose root is a pitch name.
pub open spec fn chord_symbol_ok(s: Seq<char>) -> bool {
    pitch_named(split_symbol(s).0) is Some
}

/// A mode name that is one of the seven modes.
pub open spec fn mode_name_ok(s: Seq<char>) -> bool {
    mode_named(unicode_lowercase(s)) is Some
}

/// The message of the error for a mode without a tonic, or the reverse.
pub open spec fn mode_tonic_message() -> Seq<char> {
    "Mode and tonic must both be specified or both be absent"@
}

/// The characters of an optional string.
pub open spec fn opt_view(s: Option<String>) -> Option<Seq<char>> {
    match s {
        Some(x) => Some(x@),
        None => None,
    }
}

/// The result of parsing a written pattern: the first name that does not
/// parse gives its error (chord, then transformations, then mode, then
/// tonic); a mode without a tonic, or the reverse, is a `ParseError`;
/// otherwise every field is the parsed or copied one.
pub open spec fn typed_result(p: HarmonicPattern, r: Result<TypedHarmonicPattern, LobachevskyError>) -> bool {
    let chord_ok = chord_symbol_ok(p.start_chord@);
    let names_ok = all_transform_names(string_views(p.transformations@));
    let mode_ok = p.mode matches Some(m) ==> mode_name_ok(m@);
    if !chord_ok {
        r matches Err(e) && chord_parse_ok(p.start_chord@, Err(e))
    } else if !names_ok {
        r matches Err(e) && transforms_parse_ok(string_views(p.transformations@), Err(e))
    } else if !mode_ok {
        r matches Err(e) && mode_parse_ok(p.mode.unwrap()@, Err(e))
    } else if p.tonic matches Some(t) && pitch_named(t@) is None {
        r matches Err(e) && pitch_parse_ok(p.tonic.unwrap()@, Err(e))
    } else if p.mode is Some != p.tonic is Some {
        r matches Err(LobachevskyError::ParseError { message }) && message@ == mode_tonic_message()
    } else {
        r matches Ok(t) && {
            &&& chord_parse_ok(p.start_chord@, Ok(t.start_chord))
            &&& transforms_named(string_views(p.transformations@), t.transformations@)
            &&& t.mode == match p.mode {
                Some(m) => mode_named(unicode_lowercase(m@)),
                None => None,
            }
            &&& t.tonic == match p.tonic {
                Some(x) => pitch_named(x@),
                None => None,
            }
            &&& t.name@ == p.name@
            &&& opt_view(t.description) == opt_view(p.description)
            &&& t.return_to_start == match p.return_to_start {
                Some(b) => b,
                None => false,
            }
            &&& t.tempo_hint == p.tempo_hint
            &&& t.bars_hint == p.bars_hint
        }
    }
}

impl HarmonicPattern {
    /// Parse every transformation name; the first name that is not one is
    /// an `InvalidTransformation` error.
    pub fn parse_transformations(&self) -> (r: Result<Vec<Transform>, LobachevskyError>)
        ensures
            transforms_parse_ok(string_views(self.transformations@), r),
    {
        let names = &self.transformations;
        let ghost views = string_views(names@);
        let mut out: Vec<Transform> = Vec::new();
        let mut i: usize = 0;
        while i < names.len()
            invariant
                names@ == self.transformations@,
                views == string_views(names@),
                i <= names@.len(),
                all_transform_names(views.take(i as int)),
                transforms_named(views.take(i as int), out@),
            decreases names.len() - i,
        {
            assert(views[i as int] == names@[i as int]@);
            match Transform::parse(names[i].as_str()) {
                Ok(t) => {
                    out.push(t);
                },
                Err(e) => {
                    proof {
                        assert forall|j: int| 0 <= j < i implies is_transform_name(
                            normalized_name(#[trigger] views[j]),
                        ) by {
                            assert(views.take(i as int)[j] == views[j]);
                        }
                        let k = i as int;
                        assert(0 <= k < views.len() && !is_transform_name(normalized_name(views[k]))
                            && (forall|j: int|
                            0 <= j < k ==> is_transform_name(normalized_name(#[trigger] views[j]))));
                    }
                    return Err(e);
                },
            }
            proof {
                assert forall|j: int| 0 <= j < i + 1 implies is_transform_name(
                    normalized_name(#[trigger] views.take(i + 1)[j]),
                ) by {
                    if j < i {
                        assert(views.take(i + 1)[j] == views.take(i as int)[j]);
                    }
                }
                assert forall|j: int| 0 <= j < i + 1 implies names_transform(
                    normalized_name(#[trigger] views.take(i + 1)[j]),
                    out@[j],
                ) by {
                    if j < i {
                        assert(views.take(i + 1)[j] == views.take(i as int)[j]);
                    }
                }
            }
            i = i + 1;
        }
        assert(views.take(i as int) =~= views);
        Ok(out)
    }

    /// Parse the chord, the transformations, the mode and the tonic, in
    /// that order, stopping at the first error; mode and tonic must both be
    /// given or both be absent.
    pub fn to_typed(&self) -> (r: Result<TypedHarmonicPattern, LobachevskyError>)
        ensures
            typed_result(*self, r),
    {
        let start_chord = match Chord::try_from(self.start_chord.as_str()) {
            Ok(c) => c,
            Err(e) => {
                return Err(e);
            },
        };
        let transformations = match self.parse_transformations() {
            Ok(ts) => ts,
            Err(e) => {
                return Err(e);
            },
        };
        let mode = match &self.mode {
            Some(name) => match Mode::try_from(name.as_str()) {
                Ok(m) => Some(m),
                Err(e) => {
                    return Err(e);
                },
            },
            None => None,
        };
        let tonic = match &self.tonic {
            Some(name) => match PitchClass::try_from(name.as_str()) {
                Ok(p) => Some(p),
                Err(e) => {
                    return Err(e);
                },
            },
            None => None,
        };
        if mode.is_some() != tonic.is_some() {
            return Err(
                LobachevskyError::ParseError {
                    message: String::from_str("Mode and tonic must both be specified or both be absent"),
                },
            );
        }
        let description = match &self.description {
            Some(d) => Some(d.clone()),
            None => None,
        };
        Ok(
            TypedHarmonicPattern {
                name: self.name.clone(),
                description,
                start_chord,
                transformations,
                mode,
                tonic,
                return_to_start: match self.return_to_start {
                    Some(b) => b,
                    None => false,
                },
                tempo_hint: self.tempo_hint,
                bars_hint: self.bars_hint,
            },
        )
    }
}

} // verus!
