//! Design tokens: the data model, naming, colors, references and value resolution.
pub mod kind;
pub mod naming;
pub mod color;
pub mod definition;
pub mod reference;
pub mod store;
pub mod resolve;
pub mod emit;
