use vstd::prelude::*;

use crate::text::str_equals;

verus! {

/// The kind of a design token.
#[derive(Debug, Clone, Copy, PartialEq, Eq, Structural)]
pub enum TokenKind {
    BorderRadius,
    BorderWidth,
    BoxShadow,
    Color,
    Composition,
    Dimension,
    FontFamily,
    FontSize,
    FontWeight,
    LetterSpacing,
    LineHeight,
    Opacity,
    Sizing,
    Spacing,
    Typography,
    Other,
}

/// How references to other tokens are replaced.
#[derive(Debug, Clone, Copy, PartialEq, Eq, Structural)]
pub enum ReplaceMethod {
    /// By a CSS `var()` that points at the referenced token's variable.
    CssVariables,
    /// By the referenced token's own value, followed to the end of the chain.
    StaticValues,
}

/// The shape of the value that tokens of a kind carry.
#[derive(Debug, Clone, Copy, PartialEq, Eq, Structural)]
pub enum ValueShape {
    /// A single string.
    Standard,
    /// A list of shadow layers.
    Shadow,
    /// A map of properties.
    Composition,
}

pub open spec fn shape_of(k: TokenKind) -> ValueShape {
    match k {
        TokenKind::BoxShadow => ValueShape::Shadow,
        TokenKind::Composition | TokenKind::Typography => ValueShape::Composition,
        _ => ValueShape::Standard,
    }
}

/// The CSS property family of each kind.
pub open spec fn property_name(k: TokenKind) -> Seq<char> {
    match k {
        TokenKind::BorderRadius => "border-radius"@,
        TokenKind::BorderWidth => "border-width"@,
        TokenKind::BoxShadow => "box-shadow"@,
        TokenKind::Color => "color"@,
        TokenKind::Composition => "composition"@,
        TokenKind::Dimension => "dimension"@,
        TokenKind::FontFamily => "font-family"@,
        TokenKind::FontSize => "font-size"@,
        TokenKind::FontWeight => "font-weight"@,
        TokenKind::LetterSpacing => "letter-spacing"@,
        TokenKind::LineHeight => "line-height"@,
        TokenKind::Opacity => "opacity"@,
        TokenKind::Sizing => "sizing"@,
        TokenKind::Spacing => "spacing"@,
        TokenKind::Typography => "typography"@,
        TokenKind::Other => "other"@,
    }
}

/// The kind named by a token-type alias of the input format.
pub open spec fn kind_of_alias(s: Seq<char>) -> Option<TokenKind> {
    if s == "borderRadius"@ {
        Some(TokenKind::BorderRadius)
    } else if s == "borderWidth"@ {
        Some(TokenKind::BorderWidth)
    } else if s == "boxShadow"@ {
        Some(TokenKind::BoxShadow)
    } else if s == "color"@ {
        Some(TokenKind::Color)
    } else if s == "composition"@ {
        Some(TokenKind::Composition)
    } else if s == "dimension"@ {
        Some(TokenKind::Dimension)
    } else if s == "fontFamilies"@ {
        Some(TokenKind::FontFamily)
    } else if s == "fontSizes"@ {
        Some(TokenKind::FontSize)
    } else if s == "fontWeights"@ {
        Some(TokenKind::FontWeight)
    } else if s == "letterSpacing"@ {
        Some(TokenKind::LetterSpacing)
    } else if s == "lineHeights"@ {
        Some(TokenKind::LineHeight)
    } else if s == "opacity"@ {
        Some(TokenKind::Opacity)
    } else if s == "sizing"@ {
        Some(TokenKind::Sizing)
    } else if s == "spacing"@ {
        Some(TokenKind::Spacing)
    } else if s == "typography"@ {
        Some(TokenKind::Typography)
    } else if s == "other"@ {
        Some(TokenKind::Other)
    } else {
        None
    }
}

impl TokenKind {
    /// The CSS property family of this kind, e.g. `font-size`.
    pub fn to_string(&self) -> (r: String)
        ensures
            r@ == property_name(*self),
    {
        let s = match self {
            TokenKind::BorderRadius => "border-radius",
            TokenKind::BorderWidth => "border-width",
            TokenKind::BoxShadow => "box-shadow",
            TokenKind::Color => "color",
            TokenKind::Composition => "composition",
            TokenKind::Dimension => "dimension",
            TokenKind::FontFamily => "font-family",
            TokenKind::FontSize => "font-size",
            TokenKind::FontWeight => "font-weight",
            TokenKind::LetterSpacing => "letter-spacing",
            TokenKind::LineHeight => "line-height",
            TokenKind::Opacity => "opacity",
            TokenKind::Sizing => "sizing",
            TokenKind::Spacing => "spacing",
            TokenKind::Typography => "typography",
            TokenKind::Other => "other",
        };
        s.to_owned()
    }

    /// The shape of the value of tokens of this kind: box shadows carry layers, compositions
    /// and typography carry properties, every other kind a single string.
    pub fn shape(&self) -> (r: ValueShape)
        ensures
            r == shape_of(*self),
    {
        match self {
            TokenKind::BoxShadow => ValueShape::Shadow,
            TokenKind::Composition | TokenKind::Typography => ValueShape::Composition,
            _ => ValueShape::Standard,
        }
    }

    /// The kind named by a token-type alias of the input format (`fontSizes`, `color`, ...).
    pub fn from_alias(s: &str) -> (r: Option<TokenKind>)
        ensures
            r == kind_of_alias(s@),
    {
        if str_equals(s, "borderRadius") {
            Some(TokenKind::BorderRadius)
        } else if str_equals(s, "borderWidth") {
            Some(TokenKind::BorderWidth)
        } else if str_equals(s, "boxShadow") {
            Some(TokenKind::BoxShadow)
        } else if str_equals(s, "color") {
            Some(TokenKind::Color)
        } else if str_equals(s, "composition") {
            Some(TokenKind::Composition)
        } else if str_equals(s, "dimension") {
            Some(TokenKind::Dimension)
        } else if str_equals(s, "fontFamilies") {
            Some(TokenKind::FontFamily)
        } else if str_equals(s, "fontSizes") {
            Some(TokenKind::FontSize)
        } else if str_equals(s, "fontWeights") {
            Some(TokenKind::FontWeight)
        } else if str_equals(s, "letterSpacing") {
            Some(TokenKind::LetterSpacing)
        } else if str_equals(s, "lineHeights") {
            Some(TokenKind::LineHeight)
        } else if str_equals(s, "opacity") {
            Some(TokenKind::Opacity)
        } else if str_equals(s, "sizing") {
            Some(TokenKind::Sizing)
        } else if str_equals(s, "spacing") {
            Some(TokenKind::Spacing)
        } else if str_equals(s, "typography") {
            Some(TokenKind::Typography)
        } else if str_equals(s, "other") {
            Some(TokenKind::Other)
        } else {
            None
        }
    }
}

} // verus!
