use vstd::prelude::*;

use crate::tokens::kind::TokenKind;

verus! {

/// The raw data of a token; `T` is the shape of its value.
#[derive(Debug, Clone)]
pub struct TokenDefinition<T> {
    /// The value as written: a literal, or text holding `{dot.path}` references.
    pub value: T,
    pub kind: TokenKind,
    /// The dot path of the token within its set, e.g. `color.purple.1`.
    pub name: String,
    /// The set name (with dots) followed by the name; unique over all tokens.
    pub id: String,
}

/// Whether a shadow layer is drawn inside or outside the box.
#[derive(Debug, Clone, Copy, PartialEq, Eq, Structural)]
pub enum ShadowLayerKind {
    InnerShadow,
    DropShadow,
}

/// One layer of a box shadow; each field may hold references.
#[derive(Debug, Clone)]
pub struct ShadowLayer {
    pub color: String,
    pub kind: ShadowLayerKind,
    pub x: String,
    pub y: String,
    pub blur: String,
    pub spread: String,
}

/// The layers of a box shadow, in order.
#[derive(Debug, Clone)]
pub struct ShadowValue(pub Vec<ShadowLayer>);

/// The properties of a composition or typography token: property name and value (which
/// may hold references), in the order given.
#[derive(Debug, Clone)]
pub struct CompositionValue(pub Vec<(String, String)>);

/// A design token, by the shape of its value.
#[derive(Debug, Clone)]
pub enum Token {
    /// A single string value: every scalar kind.
    Standard(TokenDefinition<String>),
    /// A map of properties: composition and typography tokens.
    Composition(TokenDefinition<CompositionValue>),
    /// A list of shadow layers.
    Shadow(TokenDefinition<ShadowValue>),
}

impl Token {
    pub open spec fn spec_name(&self) -> Seq<char> {
        match self {
            Token::Standard(t) => t.name@,
            Token::Composition(t) => t.name@,
            Token::Shadow(t) => t.name@,
        }
    }

    pub open spec fn spec_id(&self) -> Seq<char> {
        match self {
            Token::Standard(t) => t.id@,
            Token::Composition(t) => t.id@,
            Token::Shadow(t) => t.id@,
        }
    }

    /// The token's dot-path name.
    pub fn name(&self) -> (r: String)
        ensures
            r@ == self.spec_name(),
    {
        match self {
            Token::Standard(t) => t.name.clone(),
            Token::Composition(t) => t.name.clone(),
            Token::Shadow(t) => t.name.clone(),
        }
    }

    /// The token's id.
    pub fn id(&self) -> (r: String)
        ensures
            r@ == self.spec_id(),
    {
        match self {
            Token::Standard(t) => t.id.clone(),
            Token::Composition(t) => t.id.clone(),
            Token::Shadow(t) => t.id.clone(),
        }
    }
}

} // verus!
