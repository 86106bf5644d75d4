use vstd::prelude::*;

use convert_case::{Boundary, Case, Casing};

use crate::text::{dots_to_dashes, replace_dots, push_str};

verus! {

/// What convert_case makes of `s` in kebab case, splitting words at lower-to-upper,
/// underscore, hyphen, space and acronym boundaries.
pub uninterp spec fn kebab_case_of(s: Seq<char>) -> Seq<char>;

/// Relies on convert_case's `Casing::with_boundaries` and `to_case(Case::Kebab)`: the
/// result depends on the characters of `s` alone.
#[verifier::external_body]
fn to_kebab_case(s: &str) -> (r: String)
    ensures
        r@ == kebab_case_of(s@),
{
    let boundaries = [
        Boundary::LowerUpper,
        Boundary::Underscore,
        Boundary::Hyphen,
        Boundary::Space,
        Boundary::Acronym,
    ];
    s.with_boundaries(&boundaries).to_case(Case::Kebab)
}

/// The CSS name for a dotted token name or property name: dots become hyphens, then the
/// whole is put in kebab case.
pub open spec fn css_name(s: Seq<char>) -> Seq<char> {
    kebab_case_of(dots_to_dashes(s))
}

/// Converts a dotted name of any casing to a kebab-case name usable for CSS variables and
/// class names.
pub fn css_stringify(s: &str) -> (r: String)
    ensures
        r@ == css_name(s@),
{
    let dashed = replace_dots(s);
    to_kebab_case(dashed.as_str())
}

/// `var(--<name>)`: a reference to the CSS custom property `name`.
pub fn css_variable(name: &str) -> (r: String)
    ensures
        r@ == "var(--"@ + name@ + ")"@,
{
    let mut r = "var(--".to_owned();
    push_str(&mut r, name);
    push_str(&mut r, ")");
    r
}

/// `--<name>: <value>;`: the declaration of a CSS custom property.
pub fn css_custom_property(name: &str, value: &str) -> (r: String)
    ensures
        r@ == "--"@ + name@ + ": "@ + value@ + ";"@,
{
    let mut r = "--".to_owned();
    push_str(&mut r, name);
    push_str(&mut r, ": ");
    push_str(&mut r, value);
    push_str(&mut r, ";");
    r
}

/// `.<name> {<body>}`: a CSS class rule.
pub fn css_class_rule(name: &str, body: &str) -> (r: String)
    ensures
        r@ == "."@ + name@ + " {"@ + body@ + "}"@,
{
    let mut r = ".".to_owned();
    push_str(&mut r, name);
    push_str(&mut r, " {");
    push_str(&mut r, body);
    push_str(&mut r, "}");
    r
}

} // verus!
