//! Properties of value resolution, stated over the spec functions of the library and proved.
use vstd::prelude::*;

use crate::css_math::css_math;
use crate::css_math::tokenize::{CharClass, in_class, is_digit, scan, step, lex, word_step};
use crate::text::starts_with;
use crate::tokens::color::{is_hex_color, rgb_channels, channel, decimal, digit_char, hex_value};
use crate::tokens::definition::{Token, TokenDefinition};
use crate::tokens::kind::{ReplaceMethod, TokenKind};
use crate::tokens::naming::css_name;
use crate::tokens::reference::{has_reference, reference_at, next_brace};
use crate::tokens::resolve::{ResolveError, ResolveFailure, result_text, broken_ref, color_wrap};
use crate::tokens::store::{Figtok, lemma_first_where};
use crate::tokens::resolve::{unvisited, lemma_unvisited_mark};
use crate::tokens::reference::lemma_next_brace;

verus! {

proof fn lemma_scan_run(s: Seq<char>, i: int, k: int, cls: CharClass)
    requires
        0 <= i <= k <= s.len(),
        forall|j: int| i <= j < k ==> in_class(cls, #[trigger] s[j]),
        k < s.len() ==> !in_class(cls, s[k]),
    ensures
        scan(s, i, cls) == k,
    decreases k - i,
{
    if i < k {
        lemma_scan_run(s, i + 1, k, cls);
    }
}

proof fn lemma_next_brace_run(s: Seq<char>, i: int, k: int)
    requires
        0 <= i <= k < s.len(),
        forall|j: int| i <= j < k ==> #[trigger] s[j] != '{' && s[j] != '}',
        s[k] == '{' || s[k] == '}',
    ensures
        next_brace(s, i) == k,
    decreases k - i,
{
    if i < k {
        lemma_next_brace_run(s, i + 1, k);
    }
}

proof fn lemma_decimal(n: nat)
    ensures
        decimal(n).len() >= 1,
        forall|i: int| 0 <= i < decimal(n).len() ==> is_digit(#[trigger] decimal(n)[i]),
    decreases n,
{
    if n >= 10 {
        lemma_decimal(n / 10);
        let d = (n % 10) as int;
        assert(is_digit(digit_char(d)));
    } else {
        assert(is_digit(digit_char(n as int)));
    }
}

/// A run of digits at `p` followed by a comma does not tokenize.
proof fn lemma_digits_then_comma(s: Seq<char>, p: int, m: int)
    requires
        0 <= p,
        m >= 1,
        p + m < s.len(),
        forall|j: int| p <= j < p + m ==> is_digit(#[trigger] s[j]),
        s[p + m] == ',',
    ensures
        lex(s, p) is Err,
{
    lemma_scan_run(s, p, p + m, CharClass::NumberChar);
    assert(step(s, p + m).0 == Some(
        Err::<crate::css_math::token::Lexeme, crate::css_math::tokenize::TokenizationFailure>(
            crate::css_math::tokenize::TokenizationFailure::UnrecognizedCharacter(','),
        ),
    ));
    assert(lex(s, p + m) is Err);
}

proof fn lemma_channels_shape(s: Seq<char>)
    requires
        is_hex_color(s),
    ensures
        rgb_channels(s).len() > decimal(channel(s, 1) as nat).len(),
        forall|j: int|
            0 <= j < decimal(channel(s, 1) as nat).len() ==> is_digit(#[trigger] rgb_channels(s)[j]),
        rgb_channels(s)[decimal(channel(s, 1) as nat).len() as int] == ',',
        decimal(channel(s, 1) as nat).len() >= 1,
        0 <= channel(s, 1) <= 255,
        0 <= channel(s, 3) <= 255,
        0 <= channel(s, 5) <= 255,
{
    reveal_strlit(", ");
    let r = decimal(channel(s, 1) as nat);
    lemma_decimal(channel(s, 1) as nat);
    assert(hex_value(s[1]) >= 0 && hex_value(s[2]) >= 0);
    assert(hex_value(s[3]) >= 0 && hex_value(s[4]) >= 0);
    assert(hex_value(s[5]) >= 0 && hex_value(s[6]) >= 0);
    assert forall|j: int| 0 <= j < r.len() implies is_digit(#[trigger] rgb_channels(s)[j]) by {
        assert(rgb_channels(s)[j] == r[j]);
    }
    assert(rgb_channels(s)[r.len() as int] == ", "@[0]);
}

/// The channels of a color literal are no CSS arithmetic expression.
proof fn lemma_channels_not_math(s: Seq<char>)
    requires
        is_hex_color(s),
    ensures
        !css_math(rgb_channels(s)),
{
    lemma_channels_shape(s);
    let c = rgb_channels(s);
    let m = decimal(channel(s, 1) as nat).len() as int;
    lemma_digits_then_comma(c, 0, m);
}

/// `rgb(` followed by the channels of a color literal and `)` is no CSS arithmetic
/// expression.
proof fn lemma_wrapped_channels_not_math(s: Seq<char>)
    requires
        is_hex_color(s),
    ensures
        !css_math("rgb("@ + rgb_channels(s) + ")"@),
{
    reveal_strlit("rgb(");
    reveal_strlit(")");
    lemma_channels_shape(s);
    let c = rgb_channels(s);
    let w = "rgb("@ + c + ")"@;
    let m = decimal(channel(s, 1) as nat).len() as int;
    assert forall|j: int| 4 <= j < 4 + m implies is_digit(#[trigger] w[j]) by {
        assert(w[j] == c[j - 4]);
    }
    assert(w[4 + m] == c[m]);
    lemma_digits_then_comma(w, 4, m);
    lemma_scan_run(w, 0, 3, CharClass::UnitChar);
    assert(!starts_with(w.subrange(0, 3), seq!['v', 'a', 'r']));
    assert(word_step(w, 0).1 == 3);
    assert(step(w, 3).1 == 4);
    assert(lex(w, 3) is Err);
    assert(lex(w, 0) is Err);
}

proof fn lemma_literal_has_no_reference(s: Seq<char>)
    requires
        is_hex_color(s),
    ensures
        !has_reference(s),
{
    assert forall|p: int| !reference_at(s, p) by {
        if 0 <= p < s.len() && p >= 1 {
            assert(hex_value(s[p]) >= 0);
        }
    }
}

/// A color token written as a `#RRGGBB` literal resolves to its channels `R, G, B`, whatever
/// the chain of references it is reached by.
proof fn lemma_color_literal_resolves(
    store: Figtok,
    d: TokenDefinition<String>,
    mode: ReplaceMethod,
    nested: bool,
    theme: Option<Seq<char>>,
    visited: Seq<bool>,
)
    requires
        d.kind == TokenKind::Color,
        is_hex_color(d.value@),
    ensures
        store.resolve_token(Token::Standard(d), mode, nested, theme, visited) == Ok::<
            Seq<char>,
            ResolveFailure,
        >(rgb_channels(d.value@)),
{
    lemma_literal_has_no_reference(d.value@);
    lemma_channels_not_math(d.value@);
}

/// The value of a color token written as a `#RRGGBB` literal is `R, G, B`, each channel in
/// `0..=255`, and its CSS custom property wraps that value once: `--<css name>: rgb(R, G, B);`.
pub proof fn color_literal_value(
    store: Figtok,
    d: TokenDefinition<String>,
    mode: ReplaceMethod,
    nested: bool,
    theme: Option<Seq<char>>,
)
    requires
        d.kind == TokenKind::Color,
        is_hex_color(d.value@),
    ensures
        store.token_value(Token::Standard(d), mode, nested, theme) == Ok::<Seq<char>, ResolveFailure>(
            decimal(channel(d.value@, 1) as nat) + ", "@ + decimal(channel(d.value@, 3) as nat)
                + ", "@ + decimal(channel(d.value@, 5) as nat),
        ),
        0 <= channel(d.value@, 1) <= 255,
        0 <= channel(d.value@, 3) <= 255,
        0 <= channel(d.value@, 5) <= 255,
        Token::Standard(d).css_text(store, mode, theme) == Ok::<Seq<char>, ResolveFailure>(
            "--"@ + css_name(d.name@) + ": "@ + ("rgb("@ + rgb_channels(d.value@) + ")"@) + ";"@,
        ),
{
    lemma_color_literal_resolves(
        store,
        d,
        mode,
        nested,
        theme,
        Seq::new(store.tokens@.len(), |i: int| false),
    );
    lemma_channels_shape(d.value@);
    let c = rgb_channels(d.value@);
    reveal_strlit("rgb");
    assert(!starts_with(c, "rgb"@)) by {
        assert(is_digit(c[0]));
    }
}

/// One step of a reference chain: a color token whose whole value is the reference `{b}`
/// to a token that resolves to the channels of `lit` gets those channels, wrapped in `rgb()`
/// unless nested.
proof fn lemma_reference_step(
    store: Figtok,
    d: TokenDefinition<String>,
    b: Seq<char>,
    theme: Option<Seq<char>>,
    visited: Seq<bool>,
    k: int,
    lit: Seq<char>,
    nested: bool,
)
    requires
        d.kind == TokenKind::Color,
        d.value@ == seq!['{'] + b + seq!['}'],
        forall|i: int| 0 <= i < b.len() ==> #[trigger] b[i] != '{' && b[i] != '}',
        store.lookup(b, theme) == Some(k),
        0 <= k < store.tokens@.len(),
        visited.len() == store.tokens@.len(),
        !visited[k],
        is_hex_color(lit),
        store.resolve_token(
            store.tokens@[k],
            ReplaceMethod::StaticValues,
            true,
            theme,
            visited.update(k, true),
        ) == Ok::<Seq<char>, ResolveFailure>(rgb_channels(lit)),
    ensures
        store.resolve_token(Token::Standard(d), ReplaceMethod::StaticValues, nested, theme, visited)
            == Ok::<Seq<char>, ResolveFailure>(
            if nested {
                rgb_channels(lit)
            } else {
                "rgb("@ + rgb_channels(lit) + ")"@
            },
        ),
{
    let s = d.value@;
    assert forall|j: int| 1 <= j < b.len() + 1 implies #[trigger] s[j] != '{' && s[j] != '}' by {
        assert(s[j] == b[j - 1]);
    }
    lemma_next_brace_run(s, 1, b.len() + 1 as int);
    assert(reference_at(s, 0));
    assert(has_reference(s));
    assert(s.subrange(1, b.len() + 1 as int) =~= b);
    assert(store.reference_text(b, ReplaceMethod::StaticValues, theme, visited) == Ok::<
        Seq<char>,
        ResolveFailure,
    >(rgb_channels(lit)));
    assert(store.enrich_from(s, b.len() + 2 as int, ReplaceMethod::StaticValues, theme, visited) == Ok::<
        Seq<char>,
        ResolveFailure,
    >(seq![]));
    let c = rgb_channels(lit);
    assert(c + seq![] =~= c);
    lemma_channels_shape(lit);
    lemma_channels_not_math(lit);
    reveal_strlit("rgb");
    assert(!starts_with(c, "rgb"@)) by {
        assert(is_digit(c[0]));
    }
    assert(color_wrap(TokenKind::Color, false, c) == "rgb("@ + c + ")"@);
    lemma_wrapped_channels_not_math(lit);
}

/// Whether `ks` is a chain of color tokens of the store, in order, each (but the last)
/// written as the reference `{bs[i]}` whose first active match under `theme` is the next one,
/// the last written as a `#RRGGBB` literal; `ds` are their definitions.
pub open spec fn color_chain(
    store: Figtok,
    theme: Option<Seq<char>>,
    ks: Seq<int>,
    bs: Seq<Seq<char>>,
    ds: Seq<TokenDefinition<String>>,
) -> bool {
    &&& ks.len() >= 1
    &&& ds.len() == ks.len()
    &&& bs.len() + 1 == ks.len()
    &&& forall|i: int|
        0 <= i < ks.len() ==> 0 <= #[trigger] ks[i] < store.tokens@.len() && store.tokens@[ks[i]]
            == Token::Standard(ds[i]) && ds[i].kind == TokenKind::Color
    &&& forall|i: int|
        0 <= i < bs.len() ==> ds[i].value@ == seq!['{'] + #[trigger] bs[i] + seq!['}']
            && store.lookup(bs[i], theme) == Some(ks[i + 1]) && forall|j: int|
            0 <= j < bs[i].len() ==> #[trigger] bs[i][j] != '{' && bs[i][j] != '}'
    &&& is_hex_color(ds[ds.len() - 1].value@)
}

proof fn lemma_chain_shift(
    store: Figtok,
    theme: Option<Seq<char>>,
    ks: Seq<int>,
    bs: Seq<Seq<char>>,
    ds: Seq<TokenDefinition<String>>,
    p: int,
    q: int,
)
    requires
        color_chain(store, theme, ks, bs, ds),
        0 <= p < q < ks.len(),
        ks[p] == ks[q],
    ensures
        ks[p + (ks.len() - 1 - q)] == ks[ks.len() - 1],
    decreases ks.len() - q,
{
    if q < ks.len() - 1 {
        assert(Token::Standard(ds[p]) == store.tokens@[ks[p]]);
        assert(ds[p] == ds[q]);
        assert(ds[p].value@.subrange(1, ds[p].value@.len() - 1) =~= bs[p]);
        assert(ds[q].value@.subrange(1, ds[q].value@.len() - 1) =~= bs[q]);
        assert(bs[p] == bs[q]);
        assert(ks[p + 1] == ks[q + 1]);
        lemma_chain_shift(store, theme, ks, bs, ds, p + 1, q + 1);
    }
}

/// The tokens of a chain are different tokens.
proof fn lemma_chain_distinct(
    store: Figtok,
    theme: Option<Seq<char>>,
    ks: Seq<int>,
    bs: Seq<Seq<char>>,
    ds: Seq<TokenDefinition<String>>,
)
    requires
        color_chain(store, theme, ks, bs, ds),
    ensures
        forall|p: int, q: int| #![trigger ks[p], ks[q]] 0 <= p < q < ks.len() ==> ks[p] != ks[q],
{
    assert forall|p: int, q: int| #![trigger ks[p], ks[q]] 0 <= p < q < ks.len() implies ks[p] != ks[q] by {
        if ks[p] == ks[q] {
            lemma_chain_shift(store, theme, ks, bs, ds, p, q);
            let r = p + (ks.len() - 1 - q);
            let last = ks.len() - 1;
            assert(ks[r] == ks[last]);
            assert(Token::Standard(ds[r]) == store.tokens@[ks[r]]);
            assert(ds[r] == ds[last]);
            assert(ds[r].value@ == seq!['{'] + bs[r] + seq!['}']);
            assert(ds[r].value@[0] == '{');
            assert(ds[last].value@[0] == '#');
        }
    }
}

proof fn lemma_chain(
    store: Figtok,
    theme: Option<Seq<char>>,
    ks: Seq<int>,
    bs: Seq<Seq<char>>,
    ds: Seq<TokenDefinition<String>>,
    i: int,
    visited: Seq<bool>,
)
    requires
        color_chain(store, theme, ks, bs, ds),
        forall|p: int, q: int| #![trigger ks[p], ks[q]] 0 <= p < q < ks.len() ==> ks[p] != ks[q],
        0 <= i < ks.len(),
        visited.len() == store.tokens@.len(),
        forall|m: int| i < m < ks.len() ==> !visited[#[trigger] ks[m]],
    ensures
        store.resolve_token(store.tokens@[ks[i]], ReplaceMethod::StaticValues, true, theme, visited)
            == Ok::<Seq<char>, ResolveFailure>(rgb_channels(ds[ds.len() - 1].value@)),
    decreases ks.len() - i,
{
    let lit = ds[ds.len() - 1].value@;
    assert(store.tokens@[ks[i]] == Token::Standard(ds[i]));
    if i == ks.len() - 1 {
        lemma_color_literal_resolves(store, ds[i], ReplaceMethod::StaticValues, true, theme, visited);
    } else {
        let k = ks[i + 1];
        let v2 = visited.update(k, true);
        assert forall|m: int| i + 1 < m < ks.len() implies !v2[#[trigger] ks[m]] by {
            assert(ks[i + 1] != ks[m]);
        }
        lemma_chain(store, theme, ks, bs, ds, i + 1, v2);
        lemma_reference_step(store, ds[i], bs[i], theme, visited, k, lit, true);
    }
}

/// A color token whose value is a reference `{b}` that starts a chain of color references
/// of any depth ending in a `#RRGGBB` literal resolves statically to `rgb(R, G, B)`: the
/// literal's channels wrapped exactly once, whatever the depth; nested, to `R, G, B`.
pub proof fn color_reference_value(
    store: Figtok,
    a: TokenDefinition<String>,
    b: Seq<char>,
    theme: Option<Seq<char>>,
    ks: Seq<int>,
    bs: Seq<Seq<char>>,
    ds: Seq<TokenDefinition<String>>,
)
    requires
        a.kind == TokenKind::Color,
        a.value@ == seq!['{'] + b + seq!['}'],
        forall|i: int| 0 <= i < b.len() ==> #[trigger] b[i] != '{' && b[i] != '}',
        color_chain(store, theme, ks, bs, ds),
        store.lookup(b, theme) == Some(ks[0]),
    ensures
        store.token_value(Token::Standard(a), ReplaceMethod::StaticValues, false, theme) == Ok::<
            Seq<char>,
            ResolveFailure,
        >("rgb("@ + rgb_channels(ds[ds.len() - 1].value@) + ")"@),
        store.token_value(Token::Standard(a), ReplaceMethod::StaticValues, true, theme) == Ok::<
            Seq<char>,
            ResolveFailure,
        >(rgb_channels(ds[ds.len() - 1].value@)),
{
    let n = store.tokens@.len();
    let visited = Seq::new(n, |i: int| false);
    let k = ks[0];
    lemma_chain_distinct(store, theme, ks, bs, ds);
    lemma_chain(store, theme, ks, bs, ds, 0, visited.update(k, true));
    let lit = ds[ds.len() - 1].value@;
    lemma_reference_step(store, a, b, theme, visited, k, lit, false);
    lemma_reference_step(store, a, b, theme, visited, k, lit, true);
}

/// A reference to a name that no active token has is replaced by `BROKEN_REF`; resolving it
/// does not fail.
pub proof fn broken_reference(store: Figtok, name: Seq<char>, theme: Option<Seq<char>>)
    requires
        forall|i: int| 0 <= i < name.len() ==> #[trigger] name[i] != '{' && name[i] != '}',
        store.lookup(name, theme) is None,
    ensures
        store.enrich_text(seq!['{'] + name + seq!['}'], ReplaceMethod::StaticValues, theme) == Ok::<
            Seq<char>,
            ResolveFailure,
        >(broken_ref()),
{
    let s = seq!['{'] + name + seq!['}'];
    let visited = Seq::new(store.tokens@.len(), |i: int| false);
    assert forall|j: int| 1 <= j < name.len() + 1 implies #[trigger] s[j] != '{' && s[j] != '}' by {
        assert(s[j] == name[j - 1]);
    }
    lemma_next_brace_run(s, 1, name.len() + 1 as int);
    assert(reference_at(s, 0));
    assert(s.subrange(1, name.len() + 1 as int) =~= name);
    assert(store.enrich_from(s, name.len() + 2 as int, ReplaceMethod::StaticValues, theme, visited) == Ok::<
        Seq<char>,
        ResolveFailure,
    >(seq![]));
    assert(store.reference_text(name, ReplaceMethod::StaticValues, theme, visited) == Ok::<
        Seq<char>,
        ResolveFailure,
    >(broken_ref()));
    assert(next_brace(s, 1) == name.len() + 1);
    assert(broken_ref() + seq![] =~= broken_ref());
    assert(store.enrich_from(s, 0, ReplaceMethod::StaticValues, theme, visited) == Ok::<
        Seq<char>,
        ResolveFailure,
    >(broken_ref()));
}

/// Resolving the same token twice, against the same store, mode and theme, gives the same
/// text or the same failure.
pub proof fn resolution_is_deterministic(
    store: Figtok,
    t: Token,
    mode: ReplaceMethod,
    nested: bool,
    theme: Option<Seq<char>>,
    first: Result<String, ResolveError>,
    second: Result<String, ResolveError>,
)
    requires
        result_text(first) == store.token_value(t, mode, nested, theme),
        result_text(second) == store.token_value(t, mode, nested, theme),
    ensures
        result_text(first) == result_text(second),
        first is Ok <==> second is Ok,
        (first is Ok && second is Ok) ==> first->Ok_0@ == second->Ok_0@,
{
}

/// Whether `r` is a failure other than a cyclic reference, or a success.
pub open spec fn not_cyclic(r: Result<Seq<char>, ResolveFailure>) -> bool {
    !(r matches Err(ResolveFailure::CyclicReference(_)))
}

/// Whether every token marked in `w` is marked in `v`.
pub open spec fn fewer_marks(w: Seq<bool>, v: Seq<bool>) -> bool {
    w.len() == v.len() && forall|i: int| 0 <= i < w.len() && #[trigger] w[i] ==> v[i]
}

proof fn lemma_resolve_marks(
    store: Figtok,
    t: Token,
    mode: ReplaceMethod,
    nested: bool,
    theme: Option<Seq<char>>,
    v: Seq<bool>,
    w: Seq<bool>,
)
    requires
        fewer_marks(w, v),
        not_cyclic(store.resolve_token(t, mode, nested, theme, v)),
    ensures
        store.resolve_token(t, mode, nested, theme, w) == store.resolve_token(t, mode, nested, theme, v),
    decreases unvisited(v), 3int, 0int,
{
    match t {
        Token::Standard(d) => {
            if has_reference(d.value@) {
                lemma_enrich_marks(store, d.value@, 0, mode, theme, v, w);
            }
        },
        Token::Shadow(d) => {
            lemma_enrich_marks(store, crate::tokens::resolve::shadow_text(d.value.0@), 0, mode, theme, v, w);
        },
        Token::Composition(d) => {
            lemma_declarations_marks(store, d.value.0@, 0, mode, theme, v, w);
        },
    }
}

proof fn lemma_declarations_marks(
    store: Figtok,
    entries: Seq<(String, String)>,
    i: int,
    mode: ReplaceMethod,
    theme: Option<Seq<char>>,
    v: Seq<bool>,
    w: Seq<bool>,
)
    requires
        fewer_marks(w, v),
        not_cyclic(store.declarations_from(entries, i, mode, theme, v)),
    ensures
        store.declarations_from(entries, i, mode, theme, w) == store.declarations_from(
            entries,
            i,
            mode,
            theme,
            v,
        ),
    decreases unvisited(v), 2int, entries.len() - i,
{
    if 0 <= i < entries.len() {
        lemma_enrich_marks(store, entries[i].1@, 0, mode, theme, v, w);
        if store.enrich_from(entries[i].1@, 0, mode, theme, v) is Ok {
            lemma_declarations_marks(store, entries, i + 1, mode, theme, v, w);
        }
    }
}

proof fn lemma_enrich_marks(
    store: Figtok,
    s: Seq<char>,
    p: int,
    mode: ReplaceMethod,
    theme: Option<Seq<char>>,
    v: Seq<bool>,
    w: Seq<bool>,
)
    requires
        fewer_marks(w, v),
        not_cyclic(store.enrich_from(s, p, mode, theme, v)),
    ensures
        store.enrich_from(s, p, mode, theme, w) == store.enrich_from(s, p, mode, theme, v),
    decreases unvisited(v), 1int, s.len() - p,
{
    if 0 <= p < s.len() {
        if reference_at(s, p) {
            let j = next_brace(s, p + 1);
            lemma_next_brace(s, p + 1);
            let name = s.subrange(p + 1, j);
            lemma_reference_marks(store, name, mode, theme, v, w);
            if store.reference_text(name, mode, theme, v) is Ok {
                lemma_enrich_marks(store, s, j + 1, mode, theme, v, w);
            }
        } else {
            lemma_enrich_marks(store, s, p + 1, mode, theme, v, w);
        }
    }
}

proof fn lemma_reference_marks(
    store: Figtok,
    name: Seq<char>,
    mode: ReplaceMethod,
    theme: Option<Seq<char>>,
    v: Seq<bool>,
    w: Seq<bool>,
)
    requires
        fewer_marks(w, v),
        not_cyclic(store.reference_text(name, mode, theme, v)),
    ensures
        store.reference_text(name, mode, theme, w) == store.reference_text(name, mode, theme, v),
    decreases unvisited(v), 0int, 0int,
{
    if mode == ReplaceMethod::StaticValues {
        match store.lookup(name, theme) {
            Some(k) => {
                if 0 <= k < v.len() && k < store.tokens@.len() && !v[k] {
                    assert(!w[k]);
                    lemma_unvisited_mark(v, k);
                    let v2 = v.update(k, true);
                    let w2 = w.update(k, true);
                    assert(fewer_marks(w2, v2)) by {
                        assert forall|i: int| 0 <= i < w2.len() && #[trigger] w2[i] implies v2[i] by {
                            if i != k {
                                assert(w2[i] == w[i]);
                            }
                        }
                    }
                    lemma_resolve_marks(store, store.tokens@[k], mode, true, theme, v2, w2);
                }
            },
            None => {},
        }
    }
}

/// Whether no token of the store, resolved statically as a reference under `theme`, leads
/// back to itself.
pub open spec fn no_reference_cycles(store: Figtok, theme: Option<Seq<char>>) -> bool {
    forall|k: int|
        0 <= k < store.tokens@.len() ==> not_cyclic(
            store.resolve_token(
                #[trigger] store.tokens@[k],
                ReplaceMethod::StaticValues,
                true,
                theme,
                Seq::new(store.tokens@.len(), |i: int| false).update(k, true),
            ),
        )
}

/// What a reference `{name}` becomes statically: the nested value of the first token named
/// `name` that is active under `theme`, or `BROKEN_REF` when there is none.
pub open spec fn static_replacement(store: Figtok, name: Seq<char>, theme: Option<Seq<char>>) -> Result<Seq<char>, ResolveFailure> {
    match store.lookup(name, theme) {
        Some(k) => store.token_value(store.tokens@[k], ReplaceMethod::StaticValues, true, theme),
        None => Ok(broken_ref()),
    }
}

/// `s` from `p` on with each reference `{name}` (a name free of braces) replaced by its
/// static replacement, and every other character kept.
pub open spec fn substituted(store: Figtok, s: Seq<char>, p: int, theme: Option<Seq<char>>) -> Result<Seq<char>, ResolveFailure>
    decreases s.len() - p,
{
    if p < 0 || p >= s.len() {
        Ok(seq![])
    } else if reference_at(s, p) {
        let j = next_brace(s, p + 1);
        proof {
            lemma_next_brace(s, p + 1);
        }
        match static_replacement(store, s.subrange(p + 1, j), theme) {
            Ok(r) => match substituted(store, s, j + 1, theme) {
                Ok(rest) => Ok(r + rest),
                Err(e) => Err(e),
            },
            Err(e) => Err(e),
        }
    } else {
        match substituted(store, s, p + 1, theme) {
            Ok(rest) => Ok(seq![s[p]] + rest),
            Err(e) => Err(e),
        }
    }
}

proof fn lemma_enrich_substitutes(store: Figtok, s: Seq<char>, p: int, theme: Option<Seq<char>>)
    requires
        no_reference_cycles(store, theme),
    ensures
        store.enrich_from(
            s,
            p,
            ReplaceMethod::StaticValues,
            theme,
            Seq::new(store.tokens@.len(), |i: int| false),
        ) == substituted(store, s, p, theme),
    decreases s.len() - p,
{
    let n = store.tokens@.len();
    let none = Seq::new(n, |i: int| false);
    if 0 <= p < s.len() {
        if reference_at(s, p) {
            let j = next_brace(s, p + 1);
            lemma_next_brace(s, p + 1);
            let name = s.subrange(p + 1, j);
            match store.lookup(name, theme) {
                Some(k) => {
                    lemma_first_where(store.active(theme), store.name_is(name));
                    assert(0 <= k < n);
                    let v = none.update(k, true);
                    assert(not_cyclic(store.resolve_token(store.tokens@[k], ReplaceMethod::StaticValues, true, theme, v)));
                    lemma_resolve_marks(store, store.tokens@[k], ReplaceMethod::StaticValues, true, theme, v, none);
                    assert(!none[k]);
                    assert(store.token_value(store.tokens@[k], ReplaceMethod::StaticValues, true, theme)
                        == store.resolve_token(store.tokens@[k], ReplaceMethod::StaticValues, true, theme, none));
                },
                None => {},
            }
            assert(store.reference_text(name, ReplaceMethod::StaticValues, theme, none) == static_replacement(store, name, theme));
            lemma_enrich_substitutes(store, s, j + 1, theme);
        } else {
            lemma_enrich_substitutes(store, s, p + 1, theme);
        }
    }
}

/// Statically, and in a store where no token's resolution leads back to itself, replacing
/// references in a text puts in place of each `{name}` the nested value of the first active
/// token called `name`, or `BROKEN_REF` when no active token has that name; all other text
/// stays as it is, and a missing name is no failure.
pub proof fn enrich_substitutes_values(store: Figtok, s: Seq<char>, theme: Option<Seq<char>>)
    requires
        no_reference_cycles(store, theme),
    ensures
        store.enrich_text(s, ReplaceMethod::StaticValues, theme) == substituted(store, s, 0, theme),
{
    lemma_enrich_substitutes(store, s, 0, theme);
}

} // verus!
