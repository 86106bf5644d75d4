use vstd::prelude::*;

use crate::css_math::{css_math, is_css_math};
use crate::text::{starts_with, push_char, push_str, chars_of, string_of_range, str_starts_with};
use crate::tokens::color::{is_hex_color, rgb_channels, hex_to_rgb_channels};
use crate::tokens::definition::{Token, ShadowLayer, ShadowLayerKind};
use crate::tokens::kind::{ReplaceMethod, TokenKind};
use crate::tokens::naming::{css_name, css_stringify, css_variable};
use crate::tokens::reference::{
    has_reference,
    reference_at,
    next_brace,
    lemma_next_brace,
    contains_reference,
    reference_starts_at,
    next_brace_from,
};
use crate::tokens::store::{Figtok, opt_text};

verus! {

/// A failure to resolve a token's value.
#[derive(Debug, Clone, PartialEq)]
pub enum ResolveError {
    /// Following references led back to a token already on the current chain; carries the
    /// reference's name.
    CyclicReference(String),
    /// A color token without references whose value is not `#RRGGBB`; carries the value.
    InvalidColorLiteral(String),
}

/// The mathematical value of a [`ResolveError`].
pub enum ResolveFailure {
    CyclicReference(Seq<char>),
    InvalidColorLiteral(Seq<char>),
}

impl View for ResolveError {
    type V = ResolveFailure;

    open spec fn view(&self) -> ResolveFailure {
        match self {
            ResolveError::CyclicReference(s) => ResolveFailure::CyclicReference(s@),
            ResolveError::InvalidColorLiteral(s) => ResolveFailure::InvalidColorLiteral(s@),
        }
    }
}

pub open spec fn result_text(r: Result<String, ResolveError>) -> Result<Seq<char>, ResolveFailure> {
    match r {
        Ok(s) => Ok(s@),
        Err(e) => Err(e@),
    }
}

/// The number of tokens not yet on the current reference chain.
pub open spec fn unvisited(v: Seq<bool>) -> nat
    decreases v.len(),
{
    if v.len() == 0 {
        0
    } else {
        unvisited(v.drop_last()) + if v.last() {
            0nat
        } else {
            1nat
        }
    }
}

pub proof fn lemma_unvisited_mark(v: Seq<bool>, k: int)
    requires
        0 <= k < v.len(),
        !v[k],
    ensures
        unvisited(v.update(k, true)) + 1 == unvisited(v),
    decreases v.len(),
{
    let w = v.update(k, true);
    if k == v.len() - 1 {
        assert(w.drop_last() =~= v.drop_last());
    } else {
        assert(w.drop_last() =~= v.drop_last().update(k, true));
        lemma_unvisited_mark(v.drop_last(), k);
    }
}

/// The sentinel that stands for a reference to no active token.
pub open spec fn broken_ref() -> Seq<char> {
    "BROKEN_REF"@
}

/// The CSS variable that a reference becomes in [`ReplaceMethod::CssVariables`] mode.
pub open spec fn var_of(name: Seq<char>) -> Seq<char> {
    "var(--"@ + css_name(name) + ")"@
}

/// Wraps `v` in `rgb()` when it is the outermost value of a color token and is not already
/// an `rgb` expression.
pub open spec fn color_wrap(kind: TokenKind, nested: bool, v: Seq<char>) -> Seq<char> {
    if kind == TokenKind::Color && !nested && !starts_with(v, "rgb"@) {
        "rgb("@ + v + ")"@
    } else {
        v
    }
}

/// Wraps `v` in `calc()` when it is a CSS arithmetic expression.
pub open spec fn calc_wrap(v: Seq<char>) -> Seq<char> {
    if css_math(v) {
        "calc("@ + v + ")"@
    } else {
        v
    }
}

pub open spec fn shadow_color(c: Seq<char>) -> Seq<char> {
    if starts_with(c, "rgb"@) {
        c
    } else {
        "rgb("@ + c + ")"@
    }
}

/// One shadow layer as CSS: `[inset ]{x}px {y}px {blur}px {spread}px {color}`.
pub open spec fn layer_text(l: ShadowLayer) -> Seq<char> {
    (if l.kind == ShadowLayerKind::InnerShadow {
        "inset "@
    } else {
        seq![]
    }) + l.x@ + "px "@ + l.y@ + "px "@ + l.blur@ + "px "@ + l.spread@ + "px "@ + shadow_color(
        l.color@,
    )
}

/// The layers as CSS, joined by `, `.
pub open spec fn shadow_text(layers: Seq<ShadowLayer>) -> Seq<char>
    decreases layers.len(),
{
    if layers.len() == 0 {
        seq![]
    } else if layers.len() == 1 {
        layer_text(layers[0])
    } else {
        shadow_text(layers.drop_last()) + ", "@ + layer_text(layers.last())
    }
}

impl Figtok {
    /// The value of `t`: its references resolved, then wrapped in `calc()` when it is an
    /// arithmetic expression. `visited` marks the store's tokens on the current reference
    /// chain.
    pub open spec fn resolve_token(
        &self,
        t: Token,
        mode: ReplaceMethod,
        nested: bool,
        theme: Option<Seq<char>>,
        visited: Seq<bool>,
    ) -> Result<Seq<char>, ResolveFailure>
        decreases unvisited(visited), 3int, 0int,
    {
        let raw: Result<Seq<char>, ResolveFailure> = match t {
            Token::Standard(d) => {
                if has_reference(d.value@) {
                    match self.enrich_from(d.value@, 0, mode, theme, visited) {
                        Ok(v) => Ok(color_wrap(d.kind, nested, v)),
                        Err(e) => Err(e),
                    }
                } else if d.kind == TokenKind::Color {
                    if is_hex_color(d.value@) {
                        Ok(rgb_channels(d.value@))
                    } else {
                        Err(ResolveFailure::InvalidColorLiteral(d.value@))
                    }
                } else {
                    Ok(d.value@)
                }
            },
            Token::Shadow(d) => self.enrich_from(shadow_text(d.value.0@), 0, mode, theme, visited),
            Token::Composition(d) => self.declarations_from(d.value.0@, 0, mode, theme, visited),
        };
        match raw {
            Ok(v) => Ok(calc_wrap(v)),
            Err(e) => Err(e),
        }
    }

    /// The CSS declarations `name: value;` of the properties from `i` on, with the values'
    /// references resolved.
    pub open spec fn declarations_from(
        &self,
        entries: Seq<(String, String)>,
        i: int,
        mode: ReplaceMethod,
        theme: Option<Seq<char>>,
        visited: Seq<bool>,
    ) -> Result<Seq<char>, ResolveFailure>
        decreases unvisited(visited), 2int, entries.len() - i,
    {
        if i < 0 || i >= entries.len() {
            Ok(seq![])
        } else {
            match self.enrich_from(entries[i].1@, 0, mode, theme, visited) {
                Ok(v) => match self.declarations_from(entries, i + 1, mode, theme, visited) {
                    Ok(rest) => Ok(css_name(entries[i].0@) + ": "@ + v + ";"@ + rest),
                    Err(e) => Err(e),
                },
                Err(e) => Err(e),
            }
        }
    }

    /// `s` from position `p` on, with each reference `{name}` replaced.
    pub open spec fn enrich_from(
        &self,
        s: Seq<char>,
        p: int,
        mode: ReplaceMethod,
        theme: Option<Seq<char>>,
        visited: Seq<bool>,
    ) -> Result<Seq<char>, ResolveFailure>
        decreases unvisited(visited), 1int, s.len() - p,
    {
        if p < 0 || p >= s.len() {
            Ok(seq![])
        } else if reference_at(s, p) {
            let j = next_brace(s, p + 1);
            proof {
                lemma_next_brace(s, p + 1);
            }
            match self.reference_text(s.subrange(p + 1, j), mode, theme, visited) {
                Ok(r) => match self.enrich_from(s, j + 1, mode, theme, visited) {
                    Ok(rest) => Ok(r + rest),
                    Err(e) => Err(e),
                },
                Err(e) => Err(e),
            }
        } else {
            match self.enrich_from(s, p + 1, mode, theme, visited) {
                Ok(rest) => Ok(seq![s[p]] + rest),
                Err(e) => Err(e),
            }
        }
    }

    /// What the reference `{name}` is replaced by: a CSS variable, or the value of the first
    /// active token of that name (`BROKEN_REF` when there is none).
    pub open spec fn reference_text(
        &self,
        name: Seq<char>,
        mode: ReplaceMethod,
        theme: Option<Seq<char>>,
        visited: Seq<bool>,
    ) -> Result<Seq<char>, ResolveFailure>
        decreases unvisited(visited), 0int, 0int,
    {
        match mode {
            ReplaceMethod::CssVariables => Ok(var_of(name)),
            ReplaceMethod::StaticValues => match self.lookup(name, theme) {
                None => Ok(broken_ref()),
                Some(k) => {
                    if 0 <= k < visited.len() && k < self.tokens@.len() && !visited[k] {
                        proof {
                            lemma_unvisited_mark(visited, k);
                        }
                        self.resolve_token(self.tokens@[k], mode, true, theme, visited.update(k, true))
                    } else {
                        Err(ResolveFailure::CyclicReference(name))
                    }
                },
            },
        }
    }

    /// `s` with every reference replaced, starting with no token on the chain.
    pub open spec fn enrich_text(&self, s: Seq<char>, mode: ReplaceMethod, theme: Option<Seq<char>>) -> Result<Seq<char>, ResolveFailure> {
        self.enrich_from(s, 0, mode, theme, Seq::new(self.tokens@.len(), |i: int| false))
    }

    /// The value of `t`, starting with no token on the chain.
    pub open spec fn token_value(&self, t: Token, mode: ReplaceMethod, nested: bool, theme: Option<Seq<char>>) -> Result<Seq<char>, ResolveFailure> {
        self.resolve_token(t, mode, nested, theme, Seq::new(self.tokens@.len(), |i: int| false))
    }

    fn resolve_with(
        &self,
        t: &Token,
        mode: ReplaceMethod,
        nested: bool,
        theme: &Option<String>,
        visited: &Vec<bool>,
    ) -> (r: Result<String, ResolveError>)
        requires
            visited@.len() == self.tokens@.len(),
        ensures
            result_text(r) == self.resolve_token(*t, mode, nested, opt_text(*theme), visited@),
        decreases unvisited(visited@), 3int, 0int,
    {
        let raw = match t {
            Token::Standard(d) => {
                if contains_reference(d.value.as_str()) {
                    match self.enrich_with(d.value.as_str(), mode, theme, visited) {
                        Ok(v) => {
                            if d.kind == TokenKind::Color && !nested && !str_starts_with(
                                v.as_str(),
                                "rgb",
                            ) {
                                let mut w = "rgb(".to_owned();
                                push_str(&mut w, v.as_str());
                                push_str(&mut w, ")");
                                Ok(w)
                            } else {
                                Ok(v)
                            }
                        },
                        Err(e) => Err(e),
                    }
                } else if d.kind == TokenKind::Color {
                    match hex_to_rgb_channels(d.value.as_str()) {
                        Some(c) => Ok(c),
                        None => Err(ResolveError::InvalidColorLiteral(d.value.clone())),
                    }
                } else {
                    Ok(d.value.clone())
                }
            },
            Token::Shadow(d) => {
                let text = shadow_css(&d.value.0);
                self.enrich_with(text.as_str(), mode, theme, visited)
            },
            Token::Composition(d) => self.declarations_with(&d.value.0, mode, theme, visited),
        };
        match raw {
            Ok(v) => {
                if is_css_math(v.as_str()) {
                    let mut w = "calc(".to_owned();
                    push_str(&mut w, v.as_str());
                    push_str(&mut w, ")");
                    Ok(w)
                } else {
                    Ok(v)
                }
            },
            Err(e) => Err(e),
        }
    }

    fn declarations_with(
        &self,
        entries: &Vec<(String, String)>,
        mode: ReplaceMethod,
        theme: &Option<String>,
        visited: &Vec<bool>,
    ) -> (r: Result<String, ResolveError>)
        requires
            visited@.len() == self.tokens@.len(),
        ensures
            result_text(r) == self.declarations_from(entries@, 0, mode, opt_text(*theme), visited@),
        decreases unvisited(visited@), 2int, 0int,
    {
        let ghost th = opt_text(*theme);
        let mut out = String::new();
        let mut i: usize = 0;
        while i < entries.len()
            invariant
                i <= entries@.len(),
                visited@.len() == self.tokens@.len(),
                th == opt_text(*theme),
                self.declarations_from(entries@, 0, mode, th, visited@) == match self.declarations_from(
                    entries@,
                    i as int,
                    mode,
                    th,
                    visited@,
                ) {
                    Ok(rest) => Ok(out@ + rest),
                    Err(e) => Err(e),
                },
            decreases entries@.len() - i,
        {
            let v = match self.enrich_with(entries[i].1.as_str(), mode, theme, visited) {
                Ok(v) => v,
                Err(e) => {
                    return Err(e);
                },
            };
            let ghost before = out@;
            let key = css_stringify(entries[i].0.as_str());
            push_str(&mut out, key.as_str());
            push_str(&mut out, ": ");
            push_str(&mut out, v.as_str());
            push_str(&mut out, ";");
            proof {
                match self.declarations_from(entries@, i + 1, mode, th, visited@) {
                    Ok(rest) => {
                        assert(before + (css_name(entries@[i as int].0@) + ": "@ + v@ + ";"@ + rest)
                            =~= out@ + rest);
                    },
                    Err(_) => {},
                }
            }
            i = i + 1;
        }
        assert(out@ + seq![] =~= out@);
        Ok(out)
    }

    fn reference_with(
        &self,
        name: &String,
        mode: ReplaceMethod,
        theme: &Option<String>,
        visited: &Vec<bool>,
    ) -> (r: Result<String, ResolveError>)
        requires
            visited@.len() == self.tokens@.len(),
        ensures
            result_text(r) == self.reference_text(name@, mode, opt_text(*theme), visited@),
        decreases unvisited(visited@), 0int, 0int,
    {
        match mode {
            ReplaceMethod::CssVariables => {
                let c = css_stringify(name.as_str());
                Ok(css_variable(c.as_str()))
            },
            ReplaceMethod::StaticValues => match self.lookup_name(name.as_str(), theme) {
                None => Ok("BROKEN_REF".to_owned()),
                Some(k) => {
                    if !visited[k] {
                        let marked = mark(visited, k);
                        proof {
                            lemma_unvisited_mark(visited@, k as int);
                        }
                        self.resolve_with(&self.tokens[k], mode, true, theme, &marked)
                    } else {
                        Err(ResolveError::CyclicReference(name.clone()))
                    }
                },
            },
        }
    }

    fn enrich_with(
        &self,
        s: &str,
        mode: ReplaceMethod,
        theme: &Option<String>,
        visited: &Vec<bool>,
    ) -> (r: Result<String, ResolveError>)
        requires
            visited@.len() == self.tokens@.len(),
        ensures
            result_text(r) == self.enrich_from(s@, 0, mode, opt_text(*theme), visited@),
        decreases unvisited(visited@), 1int, 0int,
    {
        let ghost th = opt_text(*theme);
        let cs = chars_of(s);
        let mut out = String::new();
        let mut p: usize = 0;
        while p < cs.len()
            invariant
                p <= cs@.len(),
                cs@ == s@,
                visited@.len() == self.tokens@.len(),
                th == opt_text(*theme),
                self.enrich_from(s@, 0, mode, th, visited@) == match self.enrich_from(
                    s@,
                    p as int,
                    mode,
                    th,
                    visited@,
                ) {
                    Ok(rest) => Ok(out@ + rest),
                    Err(e) => Err(e),
                },
            decreases cs@.len() - p,
        {
            let ghost before = out@;
            if reference_starts_at(&cs, p) {
                let j = next_brace_from(&cs, p + 1);
                let name = string_of_range(&cs, p + 1, j);
                let r = match self.reference_with(&name, mode, theme, visited) {
                    Ok(r) => r,
                    Err(e) => {
                        return Err(e);
                    },
                };
                push_str(&mut out, r.as_str());
                proof {
                    assert(name@ == s@.subrange(p + 1, j as int));
                    match self.enrich_from(s@, j + 1, mode, th, visited@) {
                        Ok(rest) => {
                            assert(before + (r@ + rest) =~= out@ + rest);
                        },
                        Err(_) => {},
                    }
                }
                p = j + 1;
            } else {
                push_char(&mut out, cs[p]);
                proof {
                    match self.enrich_from(s@, p + 1, mode, th, visited@) {
                        Ok(rest) => {
                            assert(before + (seq![s@[p as int]] + rest) =~= out@ + rest);
                        },
                        Err(_) => {},
                    }
                }
                p = p + 1;
            }
        }
        assert(out@ + seq![] =~= out@);
        Ok(out)
    }

    /// Replaces each reference `{name}` in `s`: by `var(--<css name>)` in
    /// [`ReplaceMethod::CssVariables`] mode; in [`ReplaceMethod::StaticValues`] mode by the
    /// value of the first token named `name` that is active under `theme`, or by
    /// `BROKEN_REF` when there is none. A reference chain that comes back to a token on it is
    /// a [`ResolveError::CyclicReference`].
    pub fn enrich(&self, s: &str, mode: ReplaceMethod, theme: &Option<String>) -> (r: Result<String, ResolveError>)
        ensures
            result_text(r) == self.enrich_text(s@, mode, opt_text(*theme)),
    {
        let visited = unmarked(self.tokens.len());
        self.enrich_with(s, mode, theme, &visited)
    }
}

impl Token {
    /// The token's value: references resolved through `store` (see [`Figtok::enrich`]); a
    /// color written `#RRGGBB` becomes `R, G, B`; a color that refers to others is wrapped
    /// in `rgb()` unless `nested` or already an `rgb` expression; shadow layers are joined
    /// by `, `; composition properties become `name: value;` declarations. A result that is
    /// a CSS arithmetic expression is wrapped in `calc()`.
    pub fn value(
        &self,
        store: &Figtok,
        replace_method: ReplaceMethod,
        nested: bool,
        theme: &Option<String>,
    ) -> (r: Result<String, ResolveError>)
        ensures
            result_text(r) == store.token_value(*self, replace_method, nested, opt_text(*theme)),
    {
        let visited = unmarked(store.tokens.len());
        store.resolve_with(self, replace_method, nested, theme, &visited)
    }
}

fn unmarked(n: usize) -> (v: Vec<bool>)
    ensures
        v@ == Seq::new(n as nat, |i: int| false),
{
    let mut v: Vec<bool> = Vec::new();
    let mut i: usize = 0;
    while i < n
        invariant
            i <= n,
            v@ == Seq::new(i as nat, |j: int| false),
        decreases n - i,
    {
        v.push(false);
        i = i + 1;
        assert(v@ =~= Seq::new(i as nat, |j: int| false));
    }
    v
}

fn mark(v: &Vec<bool>, k: usize) -> (w: Vec<bool>)
    requires
        k < v@.len(),
    ensures
        w@ == v@.update(k as int, true),
{
    let mut w: Vec<bool> = Vec::new();
    let mut i: usize = 0;
    while i < v.len()
        invariant
            i <= v@.len(),
            k < v@.len(),
            w@ == v@.update(k as int, true).subrange(0, i as int),
        decreases v@.len() - i,
    {
        w.push(if i == k { true } else { v[i] });
        i = i + 1;
        assert(w@ =~= v@.update(k as int, true).subrange(0, i as int));
    }
    assert(w@ =~= v@.update(k as int, true));
    w
}

fn layer_css(l: &ShadowLayer) -> (r: String)
    ensures
        r@ == layer_text(*l),
{
    let mut out = String::new();
    if l.kind == ShadowLayerKind::InnerShadow {
        push_str(&mut out, "inset ");
    }
    let ghost lead = out@;
    push_str(&mut out, l.x.as_str());
    push_str(&mut out, "px ");
    push_str(&mut out, l.y.as_str());
    push_str(&mut out, "px ");
    push_str(&mut out, l.blur.as_str());
    push_str(&mut out, "px ");
    push_str(&mut out, l.spread.as_str());
    push_str(&mut out, "px ");
    let ghost body = out@;
    assert(body =~= lead + l.x@ + "px "@ + l.y@ + "px "@ + l.blur@ + "px "@ + l.spread@ + "px "@);
    if str_starts_with(l.color.as_str(), "rgb") {
        push_str(&mut out, l.color.as_str());
    } else {
        push_str(&mut out, "rgb(");
        push_str(&mut out, l.color.as_str());
        push_str(&mut out, ")");
        assert(out@ =~= body + ("rgb("@ + l.color@ + ")"@));
    }
    out
}

fn shadow_css(layers: &Vec<ShadowLayer>) -> (r: String)
    ensures
        r@ == shadow_text(layers@),
{
    let mut out = String::new();
    let mut i: usize = 0;
    while i < layers.len()
        invariant
            i <= layers@.len(),
            out@ == shadow_text(layers@.subrange(0, i as int)),
        decreases layers@.len() - i,
    {
        let ghost before = out@;
        if i > 0 {
            push_str(&mut out, ", ");
        }
        let t = layer_css(&layers[i]);
        push_str(&mut out, t.as_str());
        proof {
            let pre = layers@.subrange(0, i + 1);
            assert(pre.drop_last() =~= layers@.subrange(0, i as int));
            assert(pre.last() == layers@[i as int]);
            if i == 0 {
                assert(out@ =~= layer_text(layers@[0]));
            }
        }
        i = i + 1;
    }
    assert(layers@.subrange(0, layers@.len() as int) =~= layers@);
    out
}

} // verus!
