//! Neo-Riemannian music theory library for generative composition.

pub mod analysis;
pub mod bass;
pub mod cli_inputs;
pub mod commands;
pub mod composition;
pub mod core_types;
pub mod errors;
pub mod euclidean;
pub mod generation;
pub mod harmony;
pub mod in_c;
pub mod library;
pub mod melody;
pub mod morphing;
pub mod rhythm;
pub mod text;
pub mod theory;
pub mod tui_state;

pub use crate::core_types::{Chord, ChordQuality, Mode, Note, PitchClass};
pub use crate::errors::LobachevskyError;
pub use crate::euclidean::{Bjorklund, Breshenham, EuclideanRhythm};
pub use crate::generation::ProgressionBuilder;
pub use crate::theory::{ModalNeoRiemannian, NeoRiemannian, Transform};
