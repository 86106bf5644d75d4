//! Design-token compilation: resolution of token values and references, and a
//! tokenizer and validator for CSS arithmetic expressions.
pub mod text;
pub mod css_math;
pub mod tokens;
pub mod serialize;
pub mod load;
pub mod laws;

pub use css_math::is_css_math;
pub use load::{get_file_mode, FileMode};
pub use serialize::{CssSerializer, JsonSerializer};
pub use tokens::definition::{
    CompositionValue, ShadowLayer, ShadowLayerKind, ShadowValue, Token, TokenDefinition,
};
pub use tokens::emit::{JsonEntry, JsonLeaf};
pub use tokens::kind::{ReplaceMethod, TokenKind};
pub use tokens::naming::css_stringify;
pub use tokens::reference::contains_reference;
pub use tokens::resolve::ResolveError;
pub use tokens::store::{Figtok, Theme, TokenSet, TokenSetStatus};
pub mod source;
