use vstd::prelude::*;

use crate::text::{push_char, push_str, str_starts_with};
use crate::tokens::definition::Token;
use crate::tokens::kind::{ReplaceMethod, TokenKind};
use crate::tokens::naming::{css_name, css_stringify, css_custom_property, css_class_rule};
use crate::tokens::resolve::{ResolveError, ResolveFailure, result_text, color_wrap};
use crate::tokens::store::{Figtok, opt_text};

verus! {

/// What a token contributes to JSON output, below its path.
#[derive(Debug, Clone)]
pub enum JsonLeaf {
    /// The resolved value of a standard or shadow token.
    Value(String),
    /// The properties of a composition token, each value with its references replaced.
    Properties(Vec<(String, String)>),
}

/// A token in JSON output: the object keys leading to it (its name split at dots) and what
/// stands there.
#[derive(Debug, Clone)]
pub struct JsonEntry {
    pub path: Vec<String>,
    pub leaf: JsonLeaf,
}

/// `s` split at each `.`; an empty string gives one empty part.
pub open spec fn split_dots(s: Seq<char>) -> Seq<Seq<char>>
    decreases s.len(),
{
    if s.len() == 0 {
        seq![seq![]]
    } else {
        let prev = split_dots(s.drop_last());
        if s.last() == '.' {
            prev.push(seq![])
        } else {
            prev.update(prev.len() - 1, prev.last().push(s.last()))
        }
    }
}

proof fn lemma_split_dots_len(s: Seq<char>)
    ensures
        split_dots(s).len() >= 1,
    decreases s.len(),
{
    if s.len() > 0 {
        lemma_split_dots_len(s.drop_last());
    }
}

pub open spec fn texts(v: Seq<String>) -> Seq<Seq<char>> {
    v.map_values(|x: String| x@)
}

/// The parts of `s` between dots.
pub fn split_on_dots(s: &str) -> (r: Vec<String>)
    ensures
        texts(r@) == split_dots(s@),
{
    let n = s.unicode_len();
    let mut parts: Vec<String> = Vec::new();
    let mut cur = String::new();
    let mut i: usize = 0;
    assert(s@.subrange(0, 0) =~= Seq::<char>::empty());
    assert(texts(parts@).push(cur@) =~= seq![seq![]]);
    while i < n
        invariant
            i <= n,
            n == s@.len(),
            texts(parts@).push(cur@) == split_dots(s@.subrange(0, i as int)),
        decreases n - i,
    {
        let c = s.get_char(i);
        let ghost prev = split_dots(s@.subrange(0, i as int));
        proof {
            assert(s@.subrange(0, i + 1).drop_last() =~= s@.subrange(0, i as int));
            lemma_split_dots_len(s@.subrange(0, i as int));
        }
        if c == '.' {
            let done = cur;
            parts.push(done);
            cur = String::new();
            assert(texts(parts@).push(cur@) =~= prev.push(seq![]));
        } else {
            let ghost before = texts(parts@);
            push_char(&mut cur, c);
            assert(texts(parts@).push(cur@) =~= prev.update(prev.len() - 1, prev.last().push(c)));
        }
        i = i + 1;
    }
    assert(s@.subrange(0, n as int) =~= s@);
    parts.push(cur);
    assert(texts(parts@) =~= split_dots(s@));
    parts
}

/// The properties from `i` on, each value with its references replaced.
pub open spec fn properties_from(
    store: Figtok,
    entries: Seq<(String, String)>,
    i: int,
    mode: ReplaceMethod,
    theme: Option<Seq<char>>,
) -> Result<Seq<(Seq<char>, Seq<char>)>, ResolveFailure>
    decreases entries.len() - i,
{
    if i < 0 || i >= entries.len() {
        Ok(seq![])
    } else {
        match store.enrich_text(entries[i].1@, mode, theme) {
            Ok(v) => match properties_from(store, entries, i + 1, mode, theme) {
                Ok(rest) => Ok(seq![(entries[i].0@, v)] + rest),
                Err(e) => Err(e),
            },
            Err(e) => Err(e),
        }
    }
}

pub open spec fn pair_texts(v: Seq<(String, String)>) -> Seq<(Seq<char>, Seq<char>)> {
    v.map_values(|p: (String, String)| (p.0@, p.1@))
}

/// Whether `entry` is the JSON form of `t`.
pub open spec fn json_form(
    store: Figtok,
    t: Token,
    entry: JsonEntry,
    mode: ReplaceMethod,
    theme: Option<Seq<char>>,
) -> bool {
    texts(entry.path@) == split_dots(t.spec_name()) && match (t, entry.leaf) {
        (Token::Composition(d), JsonLeaf::Properties(props)) => properties_from(
            store,
            d.value.0@,
            0,
            mode,
            theme,
        ) == Ok::<Seq<(Seq<char>, Seq<char>)>, ResolveFailure>(pair_texts(props@)),
        (Token::Composition(_), JsonLeaf::Value(_)) => false,
        (_, JsonLeaf::Value(v)) => store.token_value(t, mode, false, theme) == Ok::<
            Seq<char>,
            ResolveFailure,
        >(v@),
        (_, JsonLeaf::Properties(_)) => false,
    }
}

/// Whether `e` is the failure to put `t` in JSON form.
pub open spec fn json_failure(
    store: Figtok,
    t: Token,
    e: ResolveFailure,
    mode: ReplaceMethod,
    theme: Option<Seq<char>>,
) -> bool {
    match t {
        Token::Composition(d) => properties_from(store, d.value.0@, 0, mode, theme) == Err::<
            Seq<(Seq<char>, Seq<char>)>,
            ResolveFailure,
        >(e),
        _ => store.token_value(t, mode, false, theme) == Err::<Seq<char>, ResolveFailure>(e),
    }
}

impl Token {
    /// What stands after `--<css name>: ` for a standard or shadow token of value `v`: a
    /// color is wrapped in `rgb()` once, unless it is already an `rgb` expression.
    pub open spec fn css_property_value(&self, v: Seq<char>) -> Seq<char> {
        match self {
            Token::Standard(d) => color_wrap(d.kind, false, v),
            _ => v,
        }
    }

    /// The token as CSS: `--<css name>: <value>;` for standard and shadow tokens (a color
    /// value in `rgb()`), `.<css name> {<declarations>}` for composition tokens.
    pub open spec fn css_text(&self, store: Figtok, mode: ReplaceMethod, theme: Option<Seq<char>>) -> Result<Seq<char>, ResolveFailure> {
        match store.token_value(*self, mode, false, theme) {
            Ok(v) => Ok(
                if self is Composition {
                    "."@ + css_name(self.spec_name()) + " {"@ + v + "}"@
                } else {
                    "--"@ + css_name(self.spec_name()) + ": "@ + self.css_property_value(v) + ";"@
                },
            ),
            Err(e) => Err(e),
        }
    }

    /// Serializes the token to CSS: a custom property for standard and shadow tokens (a color
    /// wrapped in `rgb()` exactly once), a class for composition tokens.
    pub fn serialize(&self, store: &Figtok, replace_method: ReplaceMethod, theme: &Option<String>) -> (r: Result<String, ResolveError>)
        ensures
            result_text(r) == self.css_text(*store, replace_method, opt_text(*theme)),
    {
        let v = match self.value(store, replace_method, false, theme) {
            Ok(v) => v,
            Err(e) => {
                return Err(e);
            },
        };
        let name = self.name();
        let css = css_stringify(name.as_str());
        let out = match self {
            Token::Composition(_) => css_class_rule(css.as_str(), v.as_str()),
            Token::Standard(d) => {
                if d.kind == TokenKind::Color && !str_starts_with(v.as_str(), "rgb") {
                    let mut w = "rgb(".to_owned();
                    push_str(&mut w, v.as_str());
                    push_str(&mut w, ")");
                    css_custom_property(css.as_str(), w.as_str())
                } else {
                    css_custom_property(css.as_str(), v.as_str())
                }
            },
            Token::Shadow(_) => css_custom_property(css.as_str(), v.as_str()),
        };
        Ok(out)
    }

    /// The token's place in JSON output: the parts of its name, and its resolved value (for
    /// a composition token, its properties with their references replaced).
    pub fn to_json(&self, store: &Figtok, replace_method: ReplaceMethod, theme: &Option<String>) -> (r: Result<JsonEntry, ResolveError>)
        ensures
            match r {
                Ok(entry) => json_form(*store, *self, entry, replace_method, opt_text(*theme)),
                Err(e) => json_failure(*store, *self, e@, replace_method, opt_text(*theme)),
            },
    {
        let name = self.name();
        let path = split_on_dots(name.as_str());
        match self {
            Token::Composition(d) => {
                let entries = &d.value.0;
                let ghost th = opt_text(*theme);
                let mut props: Vec<(String, String)> = Vec::new();
                let mut i: usize = 0;
                assert(pair_texts(props@) + seq![] =~= pair_texts(props@));
                while i < entries.len()
                    invariant
                        i <= entries@.len(),
                        th == opt_text(*theme),
                        *self == Token::Composition(*d),
                        entries@ == d.value.0@,
                        properties_from(*store, entries@, 0, replace_method, th) == match properties_from(
                            *store,
                            entries@,
                            i as int,
                            replace_method,
                            th,
                        ) {
                            Ok(rest) => Ok(pair_texts(props@) + rest),
                            Err(e) => Err(e),
                        },
                    decreases entries@.len() - i,
                {
                    let v = match store.enrich(entries[i].1.as_str(), replace_method, theme) {
                        Ok(v) => v,
                        Err(e) => {
                            assert(properties_from(*store, entries@, i as int, replace_method, th)
                                == Err::<Seq<(Seq<char>, Seq<char>)>, ResolveFailure>(e@));
                            return Err(e);
                        },
                    };
                    let ghost before = pair_texts(props@);
                    props.push((entries[i].0.clone(), v));
                    proof {
                        assert(pair_texts(props@) =~= before.push((entries@[i as int].0@, v@)));
                        match properties_from(*store, entries@, i + 1, replace_method, th) {
                            Ok(rest) => {
                                assert(before + (seq![(entries@[i as int].0@, v@)] + rest)
                                    =~= pair_texts(props@) + rest);
                            },
                            Err(_) => {},
                        }
                    }
                    i = i + 1;
                }
                assert(pair_texts(props@) + seq![] =~= pair_texts(props@));
                Ok(JsonEntry { path, leaf: JsonLeaf::Properties(props) })
            },
            _ => {
                match self.value(store, replace_method, false, theme) {
                    Ok(v) => Ok(JsonEntry { path, leaf: JsonLeaf::Value(v) }),
                    Err(e) => Err(e),
                }
            },
        }
    }
}

} // verus!
