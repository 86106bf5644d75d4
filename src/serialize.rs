//! Emitters: the CSS and JSON text of token sets and themes. Writing files is left to the
//! caller.
use vstd::prelude::*;

use crate::text::push_str;
use crate::tokens::definition::Token;
use crate::tokens::emit::{JsonEntry, json_form, json_failure};
use crate::tokens::kind::ReplaceMethod;
use crate::tokens::resolve::{ResolveError, ResolveFailure};
use crate::tokens::store::{Figtok, TokenSet, TokenSetStatus, opt_text, with_status, first_where, set_named};

verus! {

/// The CSS of the tokens with ids `ids[i..]` that exist, values resolved statically:
/// custom properties first, classes second.
pub open spec fn set_css_from(store: Figtok, ids: Seq<String>, i: int, theme: Option<Seq<char>>) -> Result<(Seq<char>, Seq<char>), ResolveFailure>
    decreases ids.len() - i,
{
    if i < 0 || i >= ids.len() {
        Ok((seq![], seq![]))
    } else {
        match store.token_with_id(ids[i]@) {
            None => set_css_from(store, ids, i + 1, theme),
            Some(k) => match store.tokens@[k].css_text(store, ReplaceMethod::StaticValues, theme) {
                Err(e) => Err(e),
                Ok(t) => match set_css_from(store, ids, i + 1, theme) {
                    Ok((v, c)) => Ok(
                        if store.tokens@[k] is Composition {
                            (v, t + c)
                        } else {
                            (t + v, c)
                        },
                    ),
                    Err(e) => Err(e),
                },
            },
        }
    }
}

/// The CSS of the sets named `names[i..]`, in order (a name with no set adds nothing).
pub open spec fn sets_css_from(store: Figtok, names: Seq<String>, i: int, theme: Option<Seq<char>>) -> Result<(Seq<char>, Seq<char>), ResolveFailure>
    decreases names.len() - i,
{
    if i < 0 || i >= names.len() {
        Ok((seq![], seq![]))
    } else {
        let here = match first_where(store.token_sets@, set_named(names[i]@)) {
            Some(j) => set_css_from(store, store.token_sets@[j].1.0@, 0, theme),
            None => Ok((seq![], seq![])),
        };
        match here {
            Err(e) => Err(e),
            Ok((v, c)) => match sets_css_from(store, names, i + 1, theme) {
                Ok((v2, c2)) => Ok((v + v2, c + c2)),
                Err(e) => Err(e),
            },
        }
    }
}

/// A stylesheet: the custom properties in a `:root` block, then the classes.
pub open spec fn stylesheet(vars: Seq<char>, classes: Seq<char>) -> Seq<char> {
    ":root{"@ + vars + "}\n"@ + classes
}

/// The stylesheet of a successful result.
pub open spec fn sheet(r: Result<(Seq<char>, Seq<char>), ResolveFailure>) -> Option<Seq<char>> {
    match r {
        Ok((v, c)) => Some(stylesheet(v, c)),
        Err(_) => None,
    }
}

/// The sets a theme emits: its source sets, then its enabled sets.
pub open spec fn theme_sets(e: Seq<(String, TokenSetStatus)>) -> Seq<String> {
    with_status(e, TokenSetStatus::Source) + with_status(e, TokenSetStatus::Enabled)
}

/// The names of a theme's source sets, then of its enabled sets.
pub fn theme_set_names(entries: &Vec<(String, TokenSetStatus)>) -> (r: Vec<String>)
    ensures
        r@ == theme_sets(entries@),
{
    let mut names: Vec<String> = Vec::new();
    let mut pass: usize = 0;
    while pass < 2
        invariant
            pass <= 2,
            names@ == if pass == 0 {
                seq![]
            } else if pass == 1 {
                with_status(entries@, TokenSetStatus::Source)
            } else {
                theme_sets(entries@)
            },
        decreases 2 - pass,
    {
        let st = if pass == 0 {
            TokenSetStatus::Source
        } else {
            TokenSetStatus::Enabled
        };
        let ghost before = names@;
        let mut k: usize = 0;
        while k < entries.len()
            invariant
                k <= entries@.len(),
                names@ == before + with_status(entries@.subrange(0, k as int), st),
            decreases entries@.len() - k,
        {
            proof {
                assert(entries@.subrange(0, k + 1).drop_last() =~= entries@.subrange(0, k as int));
            }
            if entries[k].1 == st {
                names.push(entries[k].0.clone());
            }
            proof {
                assert(names@ =~= before + with_status(entries@.subrange(0, k + 1), st));
            }
            k = k + 1;
        }
        assert(entries@.subrange(0, entries@.len() as int) =~= entries@);
        pass = pass + 1;
    }
    names
}

/// Writes tokens as CSS custom properties and classes.
#[derive(Debug, Clone, Copy)]
pub struct CssSerializer {}

impl CssSerializer {
    pub fn new() -> Self {
        CssSerializer {}
    }

    /// The custom properties and the classes of the tokens of one set, in the set's order.
    pub fn serialize_token_set(&self, store: &Figtok, token_set: &TokenSet, theme_name: &Option<String>) -> (r: Result<(String, String), ResolveError>)
        ensures
            match r {
                Ok((v, c)) => set_css_from(*store, token_set.0@, 0, opt_text(*theme_name)) == Ok::<
                    (Seq<char>, Seq<char>),
                    ResolveFailure,
                >((v@, c@)),
                Err(e) => set_css_from(*store, token_set.0@, 0, opt_text(*theme_name)) == Err::<
                    (Seq<char>, Seq<char>),
                    ResolveFailure,
                >(e@),
            },
    {
        let ids = &token_set.0;
        let ghost th = opt_text(*theme_name);
        let mut vars = String::new();
        let mut classes = String::new();
        let mut i: usize = 0;
        while i < ids.len()
            invariant
                i <= ids@.len(),
                ids@ == token_set.0@,
                th == opt_text(*theme_name),
                set_css_from(*store, ids@, 0, th) == match set_css_from(*store, ids@, i as int, th) {
                    Ok((v, c)) => Ok((vars@ + v, classes@ + c)),
                    Err(e) => Err(e),
                },
            decreases ids@.len() - i,
        {
            let ghost (v0, c0) = (vars@, classes@);
            match store.find_token(ids[i].as_str()) {
                None => {},
                Some(k) => {
                    let token = &store.tokens[k];
                    let css = match token.serialize(store, ReplaceMethod::StaticValues, theme_name) {
                        Ok(css) => css,
                        Err(e) => {
                            return Err(e);
                        },
                    };
                    match token {
                        Token::Composition(_) => push_str(&mut classes, css.as_str()),
                        _ => push_str(&mut vars, css.as_str()),
                    }
                    proof {
                        match set_css_from(*store, ids@, i + 1, th) {
                            Ok((v, c)) => {
                                if store.tokens@[k as int] is Composition {
                                    assert(c0 + (css@ + c) =~= classes@ + c);
                                } else {
                                    assert(v0 + (css@ + v) =~= vars@ + v);
                                }
                            },
                            Err(_) => {},
                        }
                    }
                },
            }
            i = i + 1;
        }
        assert(vars@ + seq![] =~= vars@);
        assert(classes@ + seq![] =~= classes@);
        Ok((vars, classes))
    }

    fn serialize_sets(&self, store: &Figtok, names: &Vec<String>, theme_name: &Option<String>) -> (r: Result<(String, String), ResolveError>)
        ensures
            match r {
                Ok((v, c)) => sets_css_from(*store, names@, 0, opt_text(*theme_name)) == Ok::<
                    (Seq<char>, Seq<char>),
                    ResolveFailure,
                >((v@, c@)),
                Err(e) => sets_css_from(*store, names@, 0, opt_text(*theme_name)) == Err::<
                    (Seq<char>, Seq<char>),
                    ResolveFailure,
                >(e@),
            },
    {
        let ghost th = opt_text(*theme_name);
        let mut vars = String::new();
        let mut classes = String::new();
        let mut i: usize = 0;
        while i < names.len()
            invariant
                i <= names@.len(),
                th == opt_text(*theme_name),
                sets_css_from(*store, names@, 0, th) == match sets_css_from(*store, names@, i as int, th) {
                    Ok((v, c)) => Ok((vars@ + v, classes@ + c)),
                    Err(e) => Err(e),
                },
            decreases names@.len() - i,
        {
            let ghost (v0, c0) = (vars@, classes@);
            match store.find_set(names[i].as_str()) {
                None => {
                    proof {
                        match sets_css_from(*store, names@, i + 1, th) {
                            Ok((v, c)) => {
                                assert(v0 + (seq![] + v) =~= vars@ + v);
                                assert(c0 + (seq![] + c) =~= classes@ + c);
                            },
                            Err(_) => {},
                        }
                    }
                },
                Some(j) => {
                    let (v, c) = match self.serialize_token_set(store, &store.token_sets[j].1, theme_name) {
                        Ok(p) => p,
                        Err(e) => {
                            return Err(e);
                        },
                    };
                    push_str(&mut vars, v.as_str());
                    push_str(&mut classes, c.as_str());
                    proof {
                        match sets_css_from(*store, names@, i + 1, th) {
                            Ok((v2, c2)) => {
                                assert(v0 + (v@ + v2) =~= vars@ + v2);
                                assert(c0 + (c@ + c2) =~= classes@ + c2);
                            },
                            Err(_) => {},
                        }
                    }
                },
            }
            i = i + 1;
        }
        assert(vars@ + seq![] =~= vars@);
        assert(classes@ + seq![] =~= classes@);
        Ok((vars, classes))
    }

    /// One stylesheet per theme, with the theme's name: the tokens of its source sets, then
    /// of its enabled sets, resolved under that theme.
    pub fn serialize_themes(&self, store: &Figtok) -> (r: Result<Vec<(String, String)>, ResolveError>)
        ensures
            r matches Ok(files) ==> files@.len() == store.themes@.len() && forall|i: int|
                0 <= i < files@.len() ==> files@[i].0@ == store.themes@[i].0@ && sheet(sets_css_from(
                    *store,
                    theme_sets(store.themes@[i].1.0@),
                    0,
                    Some(store.themes@[i].0@),
                )) == Some(files@[i].1@),
            r matches Err(e) ==> exists|i: int|
                0 <= i < store.themes@.len() && sets_css_from(
                    *store,
                    theme_sets(store.themes@[i].1.0@),
                    0,
                    Some(store.themes@[i].0@),
                ) == Err::<(Seq<char>, Seq<char>), ResolveFailure>(e@),
    {
        let mut files: Vec<(String, String)> = Vec::new();
        let mut i: usize = 0;
        while i < store.themes.len()
            invariant
                i <= store.themes@.len(),
                files@.len() == i,
                forall|j: int|
                    0 <= j < i ==> files@[j].0@ == store.themes@[j].0@ && sheet(sets_css_from(
                        *store,
                        theme_sets(store.themes@[j].1.0@),
                        0,
                        Some(store.themes@[j].0@),
                    )) == Some(files@[j].1@),
            decreases store.themes@.len() - i,
        {
            let name = &store.themes[i].0;
            let entries = &store.themes[i].1.0;
            let names = theme_set_names(entries);
            let theme = Some(name.clone());
            let (vars, classes) = match self.serialize_sets(store, &names, &theme) {
                Ok(p) => p,
                Err(e) => {
                    return Err(e);
                },
            };
            let mut css = ":root{".to_owned();
            push_str(&mut css, vars.as_str());
            push_str(&mut css, "}\n");
            push_str(&mut css, classes.as_str());
            files.push((name.clone(), css));
            i = i + 1;
        }
        Ok(files)
    }

    /// One stylesheet per token set, with the set's name, resolved with no theme.
    pub fn serialize_token_sets(&self, store: &Figtok) -> (r: Result<Vec<(String, String)>, ResolveError>)
        ensures
            r matches Ok(files) ==> files@.len() == store.token_sets@.len() && forall|i: int|
                0 <= i < files@.len() ==> files@[i].0@ == store.token_sets@[i].0@ && sheet(set_css_from(
                    *store,
                    store.token_sets@[i].1.0@,
                    0,
                    None,
                )) == Some(files@[i].1@),
            r matches Err(e) ==> exists|i: int|
                0 <= i < store.token_sets@.len() && set_css_from(*store, store.token_sets@[i].1.0@, 0, None)
                    == Err::<(Seq<char>, Seq<char>), ResolveFailure>(e@),
    {
        let mut files: Vec<(String, String)> = Vec::new();
        let mut i: usize = 0;
        while i < store.token_sets.len()
            invariant
                i <= store.token_sets@.len(),
                files@.len() == i,
                forall|j: int|
                    0 <= j < i ==> files@[j].0@ == store.token_sets@[j].0@ && sheet(set_css_from(
                        *store,
                        store.token_sets@[j].1.0@,
                        0,
                        None,
                    )) == Some(files@[j].1@),
            decreases store.token_sets@.len() - i,
        {
            let (vars, classes) = match self.serialize_token_set(store, &store.token_sets[i].1, &None) {
                Ok(p) => p,
                Err(e) => {
                    return Err(e);
                },
            };
            let mut css = ":root{".to_owned();
            push_str(&mut css, vars.as_str());
            push_str(&mut css, "}\n");
            push_str(&mut css, classes.as_str());
            files.push((store.token_sets[i].0.clone(), css));
            i = i + 1;
        }
        Ok(files)
    }
}

/// Writes tokens as nested JSON objects.
#[derive(Debug, Clone, Copy)]
pub struct JsonSerializer {}

impl JsonSerializer {
    pub fn new() -> Self {
        JsonSerializer {}
    }

    /// The JSON forms of the tokens with ids `ids`, in order; ids with no token are skipped.
    fn entries_of(&self, store: &Figtok, ids: &Vec<String>, theme: &Option<String>, prev: Ghost<Seq<int>>, out: &mut Vec<JsonEntry>) -> (r: Result<(), ResolveError>)
        requires
            old(out)@.len() == prev@.len(),
            forall|j: int| 0 <= j < prev@.len() ==> 0 <= #[trigger] prev@[j] < store.tokens@.len() && json_form(*store, store.tokens@[prev@[j]], old(out)@[j], ReplaceMethod::StaticValues, opt_text(*theme)),
        ensures
            r is Ok ==> {
                let all = prev@ + store.members(ids@);
                &&& final(out)@.len() == all.len()
                &&& forall|j: int| 0 <= j < all.len() ==> 0 <= #[trigger] all[j] < store.tokens@.len() && json_form(*store, store.tokens@[all[j]], final(out)@[j], ReplaceMethod::StaticValues, opt_text(*theme))
            },
            r matches Err(e) ==> exists|j: int| 0 <= j < store.members(ids@).len() && json_failure(*store, store.tokens@[#[trigger] store.members(ids@)[j]], e@, ReplaceMethod::StaticValues, opt_text(*theme)),
    {
        let mut i: usize = 0;
        assert(ids@.subrange(0, 0) =~= Seq::<String>::empty());
        assert(prev@ + store.members(ids@.subrange(0, 0)) =~= prev@);
        while i < ids.len()
            invariant
                i <= ids@.len(),
                out@.len() == (prev@ + store.members(ids@.subrange(0, i as int))).len(),
                forall|j: int| 0 <= j < out@.len() ==> 0 <= #[trigger] (prev@ + store.members(ids@.subrange(0, i as int)))[j] < store.tokens@.len() && json_form(*store, store.tokens@[(prev@ + store.members(ids@.subrange(0, i as int)))[j]], out@[j], ReplaceMethod::StaticValues, opt_text(*theme)),
            decreases ids@.len() - i,
        {
            let ghost before = prev@ + store.members(ids@.subrange(0, i as int));
            proof {
                assert(ids@.subrange(0, i + 1).drop_last() =~= ids@.subrange(0, i as int));
                assert(ids@.subrange(0, i + 1).last() == ids@[i as int]);
            }
            match store.find_token(ids[i].as_str()) {
                Some(k) => {
                    let entry = match store.tokens[k].to_json(store, ReplaceMethod::StaticValues, theme) {
                        Ok(entry) => entry,
                        Err(e) => {
                            proof {
                                let m = store.members(ids@.subrange(0, i as int)).len() as int;
                                assert(store.members(ids@.subrange(0, i + 1)) =~= store.members(
                                    ids@.subrange(0, i as int),
                                ).push(k as int));
                                store.lemma_members_prefix(ids@, i + 1);
                                assert(store.members(ids@)[m] == k as int);
                            }
                            return Err(e);
                        },
                    };
                    out.push(entry);
                    assert(prev@ + store.members(ids@.subrange(0, i + 1)) =~= before.push(k as int));
                },
                None => {
                    assert(prev@ + store.members(ids@.subrange(0, i + 1)) =~= before);
                },
            }
            i = i + 1;
        }
        assert(ids@.subrange(0, ids@.len() as int) =~= ids@);
        Ok(())
    }

    /// The JSON forms of the tokens of the sets named `names`, set after set.
    fn entries_of_sets(&self, store: &Figtok, names: &Vec<String>, theme: &Option<String>) -> (r: Result<Vec<JsonEntry>, ResolveError>)
        ensures
            r matches Ok(entries) ==> {
                let members = store.sets_members(names@);
                &&& entries@.len() == members.len()
                &&& forall|j: int| 0 <= j < members.len() ==> json_form(*store, store.tokens@[members[j]], #[trigger] entries@[j], ReplaceMethod::StaticValues, opt_text(*theme))
            },
            r matches Err(e) ==> exists|j: int| 0 <= j < store.sets_members(names@).len() && json_failure(*store, store.tokens@[#[trigger] store.sets_members(names@)[j]], e@, ReplaceMethod::StaticValues, opt_text(*theme)),
    {
        let mut entries: Vec<JsonEntry> = Vec::new();
        let mut k: usize = 0;
        assert(names@.subrange(0, 0) =~= Seq::<String>::empty());
        while k < names.len()
            invariant
                k <= names@.len(),
                entries@.len() == store.sets_members(names@.subrange(0, k as int)).len(),
                forall|j: int| 0 <= j < entries@.len() ==> 0 <= #[trigger] store.sets_members(names@.subrange(0, k as int))[j] < store.tokens@.len() && json_form(*store, store.tokens@[store.sets_members(names@.subrange(0, k as int))[j]], entries@[j], ReplaceMethod::StaticValues, opt_text(*theme)),
            decreases names@.len() - k,
        {
            proof {
                assert(names@.subrange(0, k + 1).drop_last() =~= names@.subrange(0, k as int));
            }
            let ghost prev = store.sets_members(names@.subrange(0, k as int));
            match store.find_set(names[k].as_str()) {
                Some(s) => {
                    match self.entries_of(store, &store.token_sets[s].1.0, theme, Ghost(prev), &mut entries) {
                        Ok(()) => {},
                        Err(e) => {
                            proof {
                                let ids = store.token_sets@[s as int].1.0@;
                                let j = choose|j: int| 0 <= j < store.members(ids).len() && json_failure(*store, store.tokens@[#[trigger] store.members(ids)[j]], e@, ReplaceMethod::StaticValues, opt_text(*theme));
                                let m = prev.len() as int;
                                assert(store.sets_members(names@.subrange(0, k + 1)) == prev + store.members(ids));
                                store.lemma_sets_members_prefix(names@, k + 1);
                                assert(store.sets_members(names@)[m + j] == store.members(ids)[j]);
                            }
                            return Err(e);
                        },
                    }
                },
                None => {
                    assert(prev + store.set_members(names@[k as int]@) =~= prev);
                },
            }
            k = k + 1;
        }
        assert(names@.subrange(0, names@.len() as int) =~= names@);
        Ok(entries)
    }

    /// For each token set, its name and the JSON forms of its tokens, resolved with no theme.
    pub fn serialize_token_sets(&self, store: &Figtok) -> (r: Result<Vec<(String, Vec<JsonEntry>)>, ResolveError>)
        ensures
            r matches Ok(sets) ==> sets@.len() == store.token_sets@.len() && forall|i: int| 0 <= i < sets@.len() ==> {
                let members = store.members(store.token_sets@[i].1.0@);
                &&& #[trigger] sets@[i].0@ == store.token_sets@[i].0@
                &&& sets@[i].1@.len() == members.len()
                &&& forall|j: int| 0 <= j < members.len() ==> json_form(*store, store.tokens@[members[j]], #[trigger] sets@[i].1@[j], ReplaceMethod::StaticValues, None)
            },
            r matches Err(e) ==> exists|i: int, j: int| 0 <= i < store.token_sets@.len() && 0 <= j < store.members(store.token_sets@[i].1.0@).len() && json_failure(*store, store.tokens@[#[trigger] store.members(#[trigger] store.token_sets@[i].1.0@)[j]], e@, ReplaceMethod::StaticValues, None),
    {
        let mut sets: Vec<(String, Vec<JsonEntry>)> = Vec::new();
        let mut i: usize = 0;
        while i < store.token_sets.len()
            invariant
                i <= store.token_sets@.len(),
                sets@.len() == i,
                forall|t: int| 0 <= t < i ==> {
                    let members = store.members(store.token_sets@[t].1.0@);
                    &&& #[trigger] sets@[t].0@ == store.token_sets@[t].0@
                    &&& sets@[t].1@.len() == members.len()
                    &&& forall|j: int| 0 <= j < members.len() ==> json_form(*store, store.tokens@[members[j]], #[trigger] sets@[t].1@[j], ReplaceMethod::StaticValues, None)
                },
            decreases store.token_sets@.len() - i,
        {
            let mut entries: Vec<JsonEntry> = Vec::new();
            let none: Option<String> = None;
            match self.entries_of(store, &store.token_sets[i].1.0, &none, Ghost(Seq::empty()), &mut entries) {
                Ok(()) => {},
                Err(e) => {
                    proof {
                        let ids = store.token_sets@[i as int].1.0@;
                        let j = choose|j: int| 0 <= j < store.members(ids).len() && json_failure(*store, store.tokens@[#[trigger] store.members(ids)[j]], e@, ReplaceMethod::StaticValues, opt_text(none));
                        assert(json_failure(*store, store.tokens@[store.members(ids)[j]], e@, ReplaceMethod::StaticValues, None));
                    }
                    return Err(e);
                },
            }
            assert(Seq::<int>::empty() + store.members(store.token_sets@[i as int].1.0@) =~= store.members(store.token_sets@[i as int].1.0@));
            sets.push((store.token_sets[i].0.clone(), entries));
            i = i + 1;
        }
        Ok(sets)
    }

    /// For each theme, its name and the JSON forms of the tokens of its source sets, then of
    /// its enabled sets, resolved under that theme.
    pub fn serialize_themes(&self, store: &Figtok) -> (r: Result<Vec<(String, Vec<JsonEntry>)>, ResolveError>)
        ensures
            r matches Ok(themes) ==> themes@.len() == store.themes@.len() && forall|i: int| 0 <= i < themes@.len() ==> {
                let members = store.sets_members(theme_sets(store.themes@[i].1.0@));
                &&& #[trigger] themes@[i].0@ == store.themes@[i].0@
                &&& themes@[i].1@.len() == members.len()
                &&& forall|j: int| 0 <= j < members.len() ==> json_form(*store, store.tokens@[members[j]], #[trigger] themes@[i].1@[j], ReplaceMethod::StaticValues, Some(store.themes@[i].0@))
            },
            r matches Err(e) ==> exists|t: int, j: int| 0 <= t < store.themes@.len() && 0 <= j < store.sets_members(theme_sets(store.themes@[t].1.0@)).len() && json_failure(*store, store.tokens@[#[trigger] store.sets_members(theme_sets(#[trigger] store.themes@[t].1.0@))[j]], e@, ReplaceMethod::StaticValues, Some(store.themes@[t].0@)),
    {
        let mut themes: Vec<(String, Vec<JsonEntry>)> = Vec::new();
        let mut i: usize = 0;
        while i < store.themes.len()
            invariant
                i <= store.themes@.len(),
                themes@.len() == i,
                forall|t: int| 0 <= t < i ==> {
                    let members = store.sets_members(theme_sets(store.themes@[t].1.0@));
                    &&& #[trigger] themes@[t].0@ == store.themes@[t].0@
                    &&& themes@[t].1@.len() == members.len()
                    &&& forall|j: int| 0 <= j < members.len() ==> json_form(*store, store.tokens@[members[j]], #[trigger] themes@[t].1@[j], ReplaceMethod::StaticValues, Some(store.themes@[t].0@))
                },
            decreases store.themes@.len() - i,
        {
            let name = &store.themes[i].0;
            let names = theme_set_names(&store.themes[i].1.0);
            let theme = Some(name.clone());
            let entries = match self.entries_of_sets(store, &names, &theme) {
                Ok(entries) => entries,
                Err(e) => {
                    proof {
                        assert(opt_text(theme) == Some(store.themes@[i as int].0@));
                        let ms = store.sets_members(names@);
                        let j = choose|j: int| 0 <= j < ms.len() && json_failure(*store, store.tokens@[#[trigger] ms[j]], e@, ReplaceMethod::StaticValues, opt_text(theme));
                        assert(json_failure(*store, store.tokens@[store.sets_members(theme_sets(store.themes@[i as int].1.0@))[j]], e@, ReplaceMethod::StaticValues, Some(store.themes@[i as int].0@)));
                    }
                    return Err(e);
                },
            };
            themes.push((name.clone(), entries));
            i = i + 1;
        }
        Ok(themes)
    }
}

} // verus!
