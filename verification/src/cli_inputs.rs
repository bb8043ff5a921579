//! Command inputs: the arguments of each command read into typed values.

use vstd::prelude::*;

use crate::core_types::{
    chord_parse_ok, mode_named, mode_parse_ok, pitch_named, pitch_parse_ok, Chord, Mode,
    PitchClass,
};
use crate::errors::LobachevskyError;
use crate::generation::HexatonicCycle;
use crate::harmony::{
    chord_symbol_ok, mode_name_ok, transforms_named, transforms_parse_ok, all_transform_names,
    typed_result, HarmonicPattern, TypedHarmonicPattern,
};
use crate::bass::BassStrategy;
use crate::melody::{melody_strategy_named, CallResponseType, MelodyStrategy};
use crate::text::{
    chars_eq_str, chars_of, concat, lowercase, lemma_split_pieces_nonempty, split_on, split_pieces,
    str_views, trim, unicode_lowercase, unicode_trimmed,
};
use crate::theory::Transform;

verus! {

/// The comma-separated fields of a pattern, each trimmed.
pub open spec fn pattern_fields(pattern: Seq<char>) -> Seq<Seq<char>> {
    split_pieces(pattern, ',').map_values(|f: Seq<char>| unicode_trimmed(f))
}

/// The characters of an optional string slice.
pub open spec fn opt_str_view(s: Option<&str>) -> Option<Seq<char>> {
    match s {
        Some(x) => Some(x@),
        None => None,
    }
}

/// The message of the error for a mode without a tonic, or the reverse.
pub open spec fn both_needed_message() -> Seq<char> {
    "Both mode and tonic must be specified for modal constraints"@
}

/// The message of the error for a cycle type that is not known.
pub open spec fn cycle_message(cycle: Seq<char>) -> Seq<char> {
    "Invalid cycle type '"@ + cycle + "'. Use: northern, western, or eastern"@
}

/// The result of reading an optional mode and tonic: both or neither must
/// be given; the mode is read before the tonic.
pub open spec fn mode_tonic_result(
    mode: Option<Seq<char>>,
    tonic: Option<Seq<char>>,
    r: Result<(Option<Mode>, Option<PitchClass>), LobachevskyError>,
) -> bool {
    match (mode, tonic) {
        (Some(m), Some(t)) => match mode_named(unicode_lowercase(m)) {
            None => r matches Err(e) && mode_parse_ok(m, Err(e)),
            Some(md) => match pitch_named(t) {
                None => r matches Err(e) && pitch_parse_ok(t, Err(e)),
                Some(p) => r == Ok::<(Option<Mode>, Option<PitchClass>), LobachevskyError>(
                    (Some(md), Some(p)),
                ),
            },
        },
        (None, None) => r == Ok::<(Option<Mode>, Option<PitchClass>), LobachevskyError>((None, None)),
        _ => r matches Err(LobachevskyError::ParseError { message }) && message@
            == both_needed_message(),
    }
}

/// The error message for an unknown cycle type: the text before the name,
/// the name, and the text after it.
fn cycle_type_message(cycle: &str) -> (r: String)
    ensures
        r@ == cycle_message(cycle@),
{
    let head = concat("Invalid cycle type '", cycle);
    concat(head.as_str(), "'. Use: northern, western, or eastern")
}

/// Read a comma-separated list of transformation names; each field is
/// trimmed, and the first field that is not a name is the error.
pub fn parse_transforms(pattern_str: &str) -> (r: Result<Vec<Transform>, LobachevskyError>)
    ensures
        transforms_parse_ok(pattern_fields(pattern_str@), r),
        r matches Ok(v) ==> v@.len() >= 1,
{
    let pieces = split_on(pattern_str, ',');
    let ghost names = pattern_fields(pattern_str@);
    proof {
        lemma_split_pieces_nonempty(pattern_str@, ',');
    }
    let mut out: Vec<Transform> = Vec::new();
    let mut i: usize = 0;
    while i < pieces.len()
        invariant
            str_views(pieces@) == split_pieces(pattern_str@, ','),
            names == pattern_fields(pattern_str@),
            names.len() == pieces@.len(),
            i <= pieces@.len(),
            all_transform_names(names.take(i as int)),
            transforms_named(names.take(i as int), out@),
        decreases pieces.len() - i,
    {
        let field = trim(pieces[i]);
        proof {
            assert(str_views(pieces@)[i as int] == pieces@[i as int]@);
            assert(names[i as int] == field@);
        }
        match Transform::parse(field) {
            Ok(t) => {
                out.push(t);
            },
            Err(e) => {
                proof {
                    assert forall|j: int| 0 <= j < i implies crate::theory::is_transform_name(
                        crate::theory::normalized_name(#[trigger] names[j]),
                    ) by {
                        assert(names.take(i as int)[j] == names[j]);
                    }
                    let k = i as int;
                    assert(0 <= k < names.len() && !crate::theory::is_transform_name(
                        crate::theory::normalized_name(names[k]),
                    ) && (forall|j: int|
                        0 <= j < k ==> crate::theory::is_transform_name(
                            crate::theory::normalized_name(#[trigger] names[j]),
                        )));
                }
                return Err(e);
            },
        }
        proof {
            assert forall|j: int| 0 <= j < i + 1 implies crate::theory::is_transform_name(
                crate::theory::normalized_name(#[trigger] names.take(i + 1)[j]),
            ) by {
                if j < i {
                    assert(names.take(i + 1)[j] == names.take(i as int)[j]);
                }
            }
            assert forall|j: int| 0 <= j < i + 1 implies crate::theory::names_transform(
                crate::theory::normalized_name(#[trigger] names.take(i + 1)[j]),
                out@[j],
            ) by {
                if j < i {
                    assert(names.take(i + 1)[j] == names.take(i as int)[j]);
                }
            }
        }
        i = i + 1;
    }
    assert(names.take(i as int) =~= names);
    Ok(out)
}

/// Read an optional mode and tonic; both or neither must be given.
pub fn parse_mode_and_tonic(mode: Option<&str>, tonic: Option<&str>) -> (r: Result<
    (Option<Mode>, Option<PitchClass>),
    LobachevskyError,
>)
    ensures
        mode_tonic_result(opt_str_view(mode), opt_str_view(tonic), r),
{
    match (mode, tonic) {
        (Some(mode_str), Some(tonic_str)) => {
            let parsed_mode = match Mode::try_from(mode_str) {
                Ok(m) => m,
                Err(e) => {
                    return Err(e);
                },
            };
            let parsed_tonic = match PitchClass::try_from(tonic_str) {
                Ok(p) => p,
                Err(e) => {
                    return Err(e);
                },
            };
            Ok((Some(parsed_mode), Some(parsed_tonic)))
        },
        (None, None) => Ok((None, None)),
        _ => Err(
            LobachevskyError::ParseError {
                message: String::from_str("Both mode and tonic must be specified for modal constraints"),
            },
        ),
    }
}

/// Input of the progression command.
pub struct ProgressionInput {
    pub start_chord: Chord,
    pub transforms: Vec<Transform>,
    pub length: usize,
    pub return_to_start: bool,
    pub mode: Option<Mode>,
    pub tonic: Option<PitchClass>,
}

impl ProgressionInput {
    /// Read the start chord, then the pattern, then the mode and tonic;
    /// the first error is returned.
    pub fn from_cli(
        start: &str,
        pattern: &str,
        length: usize,
        return_to_start: bool,
        mode: Option<&str>,
        tonic: Option<&str>,
    ) -> (r: Result<Self, LobachevskyError>)
        ensures
            !chord_symbol_ok(start@) ==> (r matches Err(e) && chord_parse_ok(start@, Err(e))),
            chord_symbol_ok(start@) && !all_transform_names(pattern_fields(pattern@)) ==> (r matches Err(
                e,
            ) && transforms_parse_ok(pattern_fields(pattern@), Err(e))),
            chord_symbol_ok(start@) && all_transform_names(pattern_fields(pattern@)) ==> match r {
                Ok(input) => mode_tonic_result(
                    opt_str_view(mode),
                    opt_str_view(tonic),
                    Ok((input.mode, input.tonic)),
                ),
                Err(e) => mode_tonic_result(opt_str_view(mode), opt_str_view(tonic), Err(e)),
            },
            r matches Ok(input) ==> {
                &&& chord_parse_ok(start@, Ok(input.start_chord))
                &&& transforms_named(pattern_fields(pattern@), input.transforms@)
                &&& input.transforms@.len() >= 1
                &&& input.length == length
                &&& input.return_to_start == return_to_start
            },
    {
        let start_chord = match Chord::try_from(start) {
            Ok(c) => c,
            Err(e) => {
                return Err(e);
            },
        };
        let transforms = match parse_transforms(pattern) {
            Ok(ts) => ts,
            Err(e) => {
                return Err(e);
            },
        };
        if transforms.len() == 0 {
            return Err(
                LobachevskyError::ParseError {
                    message: String::from_str("Invalid transformation pattern: no transforms parsed"),
                },
            );
        }
        let (parsed_mode, parsed_tonic) = match parse_mode_and_tonic(mode, tonic) {
            Ok(mt) => mt,
            Err(e) => {
                return Err(e);
            },
        };
        Ok(
            ProgressionInput {
                start_chord,
                transforms,
                length,
                return_to_start,
                mode: parsed_mode,
                tonic: parsed_tonic,
            },
        )
    }
}

/// The cycle type a lower-case name stands for.
pub open spec fn cycle_named(s: Seq<char>) -> Option<HexatonicCycle> {
    if s == "northern"@ {
        Some(HexatonicCycle::Northern)
    } else if s == "western"@ {
        Some(HexatonicCycle::Western)
    } else if s == "eastern"@ {
        Some(HexatonicCycle::Eastern)
    } else {
        None
    }
}

/// Input of the hexatonic command.
pub struct HexatonicInput {
    pub cycle: HexatonicCycle,
    pub start_chord: Chord,
}

impl HexatonicInput {
    /// Read the start chord, then the cycle type (case ignored): northern,
    /// western or eastern.
    pub fn from_cli(cycle: &str, start: &str) -> (r: Result<Self, LobachevskyError>)
        ensures
            !chord_symbol_ok(start@) ==> (r matches Err(e) && chord_parse_ok(start@, Err(e))),
            chord_symbol_ok(start@) && cycle_named(unicode_lowercase(cycle@)) is None ==> (r matches Err(
                LobachevskyError::ParseError { message },
            ) && message@ == cycle_message(cycle@)),
            chord_symbol_ok(start@) && cycle_named(unicode_lowercase(cycle@)) is Some ==> (r matches Ok(
                input,
            ) && Some(input.cycle) == cycle_named(unicode_lowercase(cycle@)) && chord_parse_ok(
                start@,
                Ok(input.start_chord),
            )),
    {
        let start_chord = match Chord::try_from(start) {
            Ok(c) => c,
            Err(e) => {
                return Err(e);
            },
        };
        let lower = lowercase(cycle);
        let v = chars_of(lower.as_str());
        let s = v.as_slice();
        proof {
            reveal_strlit("northern");
            reveal_strlit("western");
            reveal_strlit("eastern");
        }
        let kind = if chars_eq_str(s, "northern") {
            HexatonicCycle::Northern
        } else if chars_eq_str(s, "western") {
            HexatonicCycle::Western
        } else if chars_eq_str(s, "eastern") {
            HexatonicCycle::Eastern
        } else {
            return Err(LobachevskyError::ParseError { message: cycle_type_message(cycle) });
        };
        Ok(HexatonicInput { cycle: kind, start_chord })
    }
}

/// Input of the modal command.
pub struct ModalInput {
    pub mode: Mode,
    pub tonic: PitchClass,
    pub start_chord: Option<Chord>,
    pub transforms: Vec<Transform>,
    pub length: usize,
    pub analyze: bool,
}

impl ModalInput {
    /// Read the mode, the tonic, the pattern and then the optional start
    /// chord; the first error is returned.
    pub fn from_cli(
        mode: &str,
        tonic: &str,
        start: Option<&str>,
        pattern: &str,
        length: usize,
        analyze: bool,
    ) -> (r: Result<Self, LobachevskyError>)
        ensures
            !mode_name_ok(mode@) ==> (r matches Err(e) && mode_parse_ok(mode@, Err(e))),
            mode_name_ok(mode@) && pitch_named(tonic@) is None ==> (r matches Err(e)
                && pitch_parse_ok(tonic@, Err(e))),
            mode_name_ok(mode@) && pitch_named(tonic@) is Some && !all_transform_names(
                pattern_fields(pattern@),
            ) ==> (r matches Err(e) && transforms_parse_ok(pattern_fields(pattern@), Err(e))),
            mode_name_ok(mode@) && pitch_named(tonic@) is Some && all_transform_names(
                pattern_fields(pattern@),
            ) && (start matches Some(s) && !chord_symbol_ok(s@)) ==> (r matches Err(e)
                && chord_parse_ok(start.unwrap()@, Err(e))),
            mode_name_ok(mode@) && pitch_named(tonic@) is Some && all_transform_names(
                pattern_fields(pattern@),
            ) && (start matches Some(s) ==> chord_symbol_ok(s@)) ==> r is Ok,
            r matches Ok(input) ==> {
                &&& mode_parse_ok(mode@, Ok(input.mode))
                &&& pitch_parse_ok(tonic@, Ok(input.tonic))
                &&& transforms_named(pattern_fields(pattern@), input.transforms@)
                &&& input.transforms@.len() >= 1
                &&& match start {
                    Some(s) => input.start_chord matches Some(c) && chord_parse_ok(s@, Ok(c)),
                    None => input.start_chord is None,
                }
                &&& input.length == length
                &&& input.analyze == analyze
            },
    {
        let mode = match Mode::try_from(mode) {
            Ok(m) => m,
            Err(e) => {
                return Err(e);
            },
        };
        let tonic = match PitchClass::try_from(tonic) {
            Ok(p) => p,
            Err(e) => {
                return Err(e);
            },
        };
        let transforms = match parse_transforms(pattern) {
            Ok(ts) => ts,
            Err(e) => {
                return Err(e);
            },
        };
        if transforms.len() == 0 {
            return Err(
                LobachevskyError::ParseError {
                    message: String::from_str("Invalid transformation pattern: no transforms parsed"),
                },
            );
        }
        let start_chord = match start {
            Some(start_str) => match Chord::try_from(start_str) {
                Ok(c) => Some(c),
                Err(e) => {
                    return Err(e);
                },
            },
            None => None,
        };
        Ok(ModalInput { mode, tonic, start_chord, transforms, length, analyze })
    }
}

/// Input of the extended command.
pub struct ExtendedInput {
    pub start_chord: Chord,
    pub transforms: Vec<Transform>,
    pub length: usize,
    pub analyze: bool,
}

impl ExtendedInput {
    /// Read the start chord, then the pattern; the first error is returned.
    pub fn from_cli(start: &str, pattern: &str, length: usize, analyze: bool) -> (r: Result<
        Self,
        LobachevskyError,
    >)
        ensures
            !chord_symbol_ok(start@) ==> (r matches Err(e) && chord_parse_ok(start@, Err(e))),
            chord_symbol_ok(start@) && !all_transform_names(pattern_fields(pattern@)) ==> (r matches Err(
                e,
            ) && transforms_parse_ok(pattern_fields(pattern@), Err(e))),
            chord_symbol_ok(start@) && all_transform_names(pattern_fields(pattern@)) ==> r is Ok,
            r matches Ok(input) ==> {
                &&& chord_parse_ok(start@, Ok(input.start_chord))
                &&& transforms_named(pattern_fields(pattern@), input.transforms@)
                &&& input.transforms@.len() >= 1
                &&& input.length == length
                &&& input.analyze == analyze
            },
    {
        let start_chord = match Chord::try_from(start) {
            Ok(c) => c,
            Err(e) => {
                return Err(e);
            },
        };
        let transforms = match parse_transforms(pattern) {
            Ok(ts) => ts,
            Err(e) => {
                return Err(e);
            },
        };
        if transforms.len() == 0 {
            return Err(
                LobachevskyError::ParseError {
                    message: String::from_str("Invalid transformation pattern: no transforms parsed"),
                },
            );
        }
        Ok(ExtendedInput { start_chord, transforms, length, analyze })
    }
}

/// Input of the generate command.
pub struct GenerateInput {
    pub rhythm_name: Option<String>,
    pub harmony: TypedHarmonicPattern,
    pub melody_strategy: MelodyStrategy,
    pub bass_strategy: Option<BassStrategy>,
    pub call_response_type: Option<CallResponseType>,
    pub notes_per_chord: usize,
}

impl GenerateInput {
    /// Read the generate command. The harmony is the given written pattern
    /// (as loaded from a file or the library), parsed; without one, it is
    /// made from the start chord, the pattern, the mode and tonic, the bars
    /// and the tempo, read in that order. The melody name is read last.
    #[allow(clippy::too_many_arguments)]
    pub fn from_cli(
        rhythm: Option<&str>,
        harmony: Option<&HarmonicPattern>,
        start: &str,
        pattern: &str,
        mode: Option<&str>,
        tonic: Option<&str>,
        melody: &str,
        bars: usize,
        tempo: u16,
        notes_per_chord: usize,
        return_to_start: bool,
    ) -> (r: Result<Self, LobachevskyError>)
        ensures
            harmony matches Some(h) ==> match r {
                Ok(g) => typed_result(*h, Ok(g.harmony)),
                Err(e) => typed_result(*h, Err(e)),
            },
            harmony is None && !chord_symbol_ok(start@) ==> (r matches Err(e) && chord_parse_ok(
                start@,
                Err(e),
            )),
            harmony is None && chord_symbol_ok(start@) && !all_transform_names(
                pattern_fields(pattern@),
            ) ==> (r matches Err(e) && transforms_parse_ok(pattern_fields(pattern@), Err(e))),
            harmony is None && chord_symbol_ok(start@) && all_transform_names(
                pattern_fields(pattern@),
            ) ==> match r {
                Ok(g) => mode_tonic_result(
                    opt_str_view(mode),
                    opt_str_view(tonic),
                    Ok((g.harmony.mode, g.harmony.tonic)),
                ),
                Err(e) => mode_tonic_result(opt_str_view(mode), opt_str_view(tonic), Err(e)),
            },
            harmony is None ==> (r matches Ok(g) ==> {
                &&& g.harmony.name@ == "cli_generated"@
                &&& g.harmony.description matches Some(d) && d@
                    == "Generated from command line arguments"@
                &&& chord_parse_ok(start@, Ok(g.harmony.start_chord))
                &&& transforms_named(pattern_fields(pattern@), g.harmony.transformations@)
                &&& g.harmony.return_to_start == return_to_start
                &&& g.harmony.tempo_hint == Some(tempo)
                &&& g.harmony.bars_hint == Some(bars)
            }),
            r matches Ok(g) ==> {
                &&& g.melody_strategy == melody_strategy_named(unicode_lowercase(melody@))
                &&& g.notes_per_chord == notes_per_chord
                &&& g.bass_strategy is None
                &&& g.call_response_type is None
                &&& match rhythm {
                    Some(x) => g.rhythm_name matches Some(n) && n@ == x@,
                    None => g.rhythm_name is None,
                }
            },
    {
        let typed = match harmony {
            Some(h) => match h.to_typed() {
                Ok(t) => t,
                Err(e) => {
                    return Err(e);
                },
            },
            None => {
                let start_chord = match Chord::try_from(start) {
                    Ok(c) => c,
                    Err(e) => {
                        return Err(e);
                    },
                };
                let transforms = match parse_transforms(pattern) {
                    Ok(ts) => ts,
                    Err(e) => {
                        return Err(e);
                    },
                };
                let (parsed_mode, parsed_tonic) = match parse_mode_and_tonic(mode, tonic) {
                    Ok(mt) => mt,
                    Err(e) => {
                        return Err(e);
                    },
                };
                TypedHarmonicPattern {
                    name: String::from_str("cli_generated"),
                    description: Some(String::from_str("Generated from command line arguments")),
                    start_chord,
                    transformations: transforms,
                    mode: parsed_mode,
                    tonic: parsed_tonic,
                    return_to_start,
                    tempo_hint: Some(tempo),
                    bars_hint: Some(bars),
                }
            },
        };
        let melody_strategy = MelodyStrategy::from(melody);
        let rhythm_name = match rhythm {
            Some(x) => Some(String::from_str(x)),
            None => None,
        };
        Ok(
            GenerateInput {
                rhythm_name,
                harmony: typed,
                melody_strategy,
                bass_strategy: None,
                call_response_type: None,
                notes_per_chord,
            },
        )
    }
}

} // verus!
