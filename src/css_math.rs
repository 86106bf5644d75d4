//! Tokenizing and validating CSS arithmetic expressions: the text that may stand inside
//! `calc()`.
pub mod token;
pub mod tokenize;
pub mod validate;

use vstd::prelude::*;

use crate::css_math::tokenize::{tokenize, tokens_of};
use crate::css_math::validate::{validate, validation_outcome};

verus! {

/// Whether `s` tokenizes and its tokens form an acceptable CSS arithmetic expression.
pub open spec fn css_math(s: Seq<char>) -> bool {
    match tokens_of(s) {
        Ok(ts) => validation_outcome(ts) is None,
        Err(_) => false,
    }
}

/// Whether `input` is a CSS arithmetic expression that may stand inside `calc()`.
pub fn is_css_math(input: &str) -> (r: bool)
    ensures
        r == css_math(input@),
{
    match tokenize(input) {
        Ok(tokens) => validate(tokens.as_slice()),
        Err(_) => false,
    }
}

} // verus!
