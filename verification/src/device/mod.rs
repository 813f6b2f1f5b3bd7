//! Scanner-model layer — the single place model differences live.
//!
//! Every radio is a [`RadioProfile`]; the class-specific contract is a sub-trait —
//! [`SdCardProfile`] (SD-card scanners like the SDS150) or [`CloneImageProfile`]
//! (serial clone-image radios like the FT-60R). [`ProfileRegistry`] holds them all and
//! detects the right one.

pub mod ft60;
pub mod profile;
pub mod sds150;

pub use ft60::{CloneSpec, Ft60};
pub use profile::{
    ChannelColumns, CloneCapacity, CloneFieldOptions, CloneImageProfile, FavoritesDialect,
    FieldOption, GeoColumns, ModelKey, ProfileRegistry, RadioClass, RadioProfile, RecordSchema,
    ScannerLimits, SdCardProfile, SdLayout, ToneValueKind,
};
pub use sds150::Sds150;
