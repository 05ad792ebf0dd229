//! Layered build configuration for feL4 projects.
//!
//! A configuration is written as sections of different specificity: one that
//! applies everywhere, and sections for a single target, platform or build
//! profile. This crate holds the closed sets of supported identifiers, the
//! flat value domain of resolved properties, and the resolver that merges the
//! sections selected by a (target, platform, profile) request into a single
//! resolved configuration.

pub mod error;
pub mod identifiers;
pub mod laws;
pub mod layer;
pub mod properties;
pub mod resolver;
pub mod search;
pub mod value;

pub use error::{RequiredPath, ResolutionError, ResolutionErrorView};
pub use identifiers::{
    BuildProfile, IdentifierKind, ParseError, ParseErrorView, SupportedPlatform, SupportedTarget,
};
pub use layer::{
    ConfigLayer, LayerScope, LayerView, LayeredConfig, RawConfig, RawLayer, RawLayerView, RawProperty,
    RawPropertyView,
};
pub use resolver::{resolve, resolve_named, ConfigView, Fel4Config};
pub use value::{
    FlatTomlProperty, FlatTomlValue, FlatValueView, NestedKind, PropertyView, ShapeView, TomlShape,
};
