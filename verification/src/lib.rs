//! A fretboard search engine: pitch classes, notes and chords, stringed
//! instruments, the enumeration of the fingerings that sound a chord on an
//! instrument, and a playability penalty that orders them.

pub mod chord;
pub mod completeness;
pub mod finder;
pub mod fingering;
pub mod instrument;
pub mod joining;
pub mod key;
pub mod note;
pub mod ordered;
pub mod precomputed;
pub mod ranker;
pub mod song;
pub mod sorted;
pub mod tablature;
pub mod text;
pub mod variant;
