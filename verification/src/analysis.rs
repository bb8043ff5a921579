//! The settings of harmonic analysis; the measures themselves are
//! floating-point and live with the program.

use vstd::prelude::*;

use crate::core_types::PitchClass;

verus! {

/// Analyser of harmonic and melodic energy, optionally relative to a tonic.
#[derive(Debug, Clone, Copy)]
pub struct HarmonicAnalyzer {
    tonic: Option<PitchClass>,
}

impl HarmonicAnalyzer {
    /// The tonic that modal measures are taken against, if any.
    pub closed spec fn tonic_view(&self) -> Option<PitchClass> {
        self.tonic
    }

    /// An analyser without a tonic.
    pub fn new() -> (r: Self)
        ensures
            r.tonic_view() is None,
    {
        HarmonicAnalyzer { tonic: None }
    }

    /// Set the tonic for modal analysis.
    pub fn with_tonic(self, tonic: PitchClass) -> (r: Self)
        ensures
            r.tonic_view() == Some(tonic),
    {
        HarmonicAnalyzer { tonic: Some(tonic) }
    }

    /// The tonic set, if any.
    pub fn tonic(&self) -> (r: Option<PitchClass>)
        ensures
            r == self.tonic_view(),
    {
        self.tonic
    }
}

impl Default for HarmonicAnalyzer {
    fn default() -> (r: Self)
        ensures
            r.tonic_view() is None,
    {
        Self::new()
    }
}

/// Energy levels for adaptive patterns.
#[derive(Debug, Clone, Copy, PartialEq, Eq)]
pub enum EnergyLevel {
    /// Energy below one third.
    Low,
    /// Energy from one third to two thirds.
    Medium,
    /// Energy from two thirds up.
    High,
}

} // verus!
