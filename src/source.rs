//! The token definitions of a set as read from its JSON source: the walk that turns nested
//! groups into named tokens.
use vstd::prelude::*;

use crate::load::{join_dots, token_id, token_name};
use crate::text::str_equals;
use crate::tokens::definition::{
    CompositionValue,
    ShadowLayer,
    ShadowLayerKind,
    ShadowValue,
    Token,
    TokenDefinition,
};
use crate::tokens::emit::texts;
use crate::tokens::kind::{kind_of_alias, shape_of, TokenKind, ValueShape};
use crate::tokens::store::{first_where, lemma_first_where};

verus! {

/// A JSON value, as far as token sources use it.
pub enum JsonValue {
    /// A string.
    Text(String),
    /// A number, boolean or null, as its JSON text.
    Scalar(String),
    List(Vec<JsonValue>),
    /// An object's members, in order.
    Object(Vec<(String, JsonValue)>),
}

/// Why a token definition could not be read; each carries the token's id.
#[derive(Debug, Clone, PartialEq)]
pub enum SourceError {
    /// The `type` member is missing or names no token kind.
    UnknownType(String),
    /// The `value` member is missing or does not have the shape the kind asks for.
    InvalidValue(String),
}

pub open spec fn source_error_id(e: SourceError) -> Seq<char> {
    match e {
        SourceError::UnknownType(id) => id@,
        SourceError::InvalidValue(id) => id@,
    }
}

/// Whether an object member holds a token definition: its value is an object with a `type`
/// member.
pub open spec fn is_definition_node(node: JsonValue) -> bool {
    member(node, "type"@) is Some
}

/// The token definitions below a group, each with the keys that lead to it, in order: a
/// member whose value is an object with a `type` member is a token; any other object
/// member is a nested group; other members hold no tokens.
pub open spec fn definitions(node: JsonValue, prefix: Seq<Seq<char>>) -> Seq<(Seq<Seq<char>>, JsonValue)>
    decreases node,
{
    match node {
        JsonValue::Object(members) => definitions_in(members@, prefix),
        _ => seq![],
    }
}

pub open spec fn definitions_in(members: Seq<(String, JsonValue)>, prefix: Seq<Seq<char>>) -> Seq<(Seq<Seq<char>>, JsonValue)>
    decreases members,
{
    if members.len() == 0 {
        seq![]
    } else {
        let last = members[members.len() - 1];
        definitions_in(members.subrange(0, members.len() - 1), prefix) + member_definitions(
            last,
            prefix,
        )
    }
}

pub open spec fn member_definitions(m: (String, JsonValue), prefix: Seq<Seq<char>>) -> Seq<(Seq<Seq<char>>, JsonValue)>
    decreases m,
{
    let path = prefix.push(m.0@);
    if is_definition_node(m.1) {
        seq![(path, m.1)]
    } else {
        definitions(m.1, path)
    }
}

pub open spec fn key_is(key: Seq<char>) -> spec_fn((String, JsonValue)) -> bool {
    |m: (String, JsonValue)| m.0@ == key
}

/// The value of the first member named `key` of an object.
pub open spec fn member(node: JsonValue, key: Seq<char>) -> Option<JsonValue> {
    match node {
        JsonValue::Object(members) => match first_where(members@, key_is(key)) {
            Some(i) => Some(members@[i].1),
            None => None,
        },
        _ => None,
    }
}

/// The text of a string, number, boolean or null.
pub open spec fn text_of(v: Option<JsonValue>) -> Option<Seq<char>> {
    match v {
        Some(JsonValue::Text(s)) => Some(s@),
        Some(JsonValue::Scalar(s)) => Some(s@),
        _ => None,
    }
}

pub open spec fn layer_kind_of(v: Option<JsonValue>) -> Option<ShadowLayerKind> {
    match text_of(v) {
        Some(t) => if t == "innerShadow"@ {
            Some(ShadowLayerKind::InnerShadow)
        } else if t == "dropShadow"@ {
            Some(ShadowLayerKind::DropShadow)
        } else {
            None
        },
        None => None,
    }
}

/// Whether `l` is the shadow layer that `v` describes.
pub open spec fn layer_matches(l: ShadowLayer, v: JsonValue) -> bool {
    &&& text_of(member(v, "color"@)) == Some(l.color@)
    &&& layer_kind_of(member(v, "type"@)) == Some(l.kind)
    &&& text_of(member(v, "x"@)) == Some(l.x@)
    &&& text_of(member(v, "y"@)) == Some(l.y@)
    &&& text_of(member(v, "blur"@)) == Some(l.blur@)
    &&& text_of(member(v, "spread"@)) == Some(l.spread@)
}

/// Whether `v` describes a shadow layer.
pub open spec fn layer_ok(v: JsonValue) -> bool {
    &&& text_of(member(v, "color"@)) is Some
    &&& layer_kind_of(member(v, "type"@)) is Some
    &&& text_of(member(v, "x"@)) is Some
    &&& text_of(member(v, "y"@)) is Some
    &&& text_of(member(v, "blur"@)) is Some
    &&& text_of(member(v, "spread"@)) is Some
}

/// Whether each of `items` describes a shadow layer.
pub open spec fn layers_ok(items: Seq<JsonValue>) -> bool {
    forall|i: int| 0 <= i < items.len() ==> layer_ok(#[trigger] items[i])
}

/// Whether the value member of a definition of the given shape can be read.
pub open spec fn value_ok(shape: ValueShape, v: JsonValue) -> bool {
    match shape {
        ValueShape::Standard => text_of(Some(v)) is Some,
        ValueShape::Shadow => match v {
            JsonValue::List(items) => layers_ok(items@),
            _ => false,
        },
        ValueShape::Composition => match v {
            JsonValue::Object(members) => forall|i: int|
                0 <= i < members@.len() ==> text_of(Some(#[trigger] members@[i].1)) is Some,
            _ => false,
        },
    }
}

/// Whether a definition can be read into a token.
pub open spec fn definition_ok(node: JsonValue) -> bool {
    match text_of(member(node, "type"@)) {
        Some(alias) => match kind_of_alias(alias) {
            Some(k) => match member(node, "value"@) {
                Some(v) => value_ok(shape_of(k), v),
                None => false,
            },
            None => false,
        },
        None => false,
    }
}

/// Whether `t` is the token that the definition `node` at `path` of the set `set_name`
/// describes.
pub open spec fn is_token_of(t: Token, set_name: Seq<char>, path: Seq<Seq<char>>, node: JsonValue) -> bool {
    let name = join_dots(path);
    let kind = kind_of_alias(text_of(member(node, "type"@))->Some_0)->Some_0;
    let v = member(node, "value"@)->Some_0;
    &&& t.spec_name() == name
    &&& t.spec_id() == set_name + "."@ + name
    &&& match t {
        Token::Standard(d) => d.kind == kind && shape_of(kind) == ValueShape::Standard && text_of(
            Some(v),
        ) == Some(d.value@),
        Token::Shadow(d) => d.kind == kind && shape_of(kind) == ValueShape::Shadow && match v {
            JsonValue::List(items) => d.value.0@.len() == items@.len() && forall|i: int|
                0 <= i < items@.len() ==> layer_matches(d.value.0@[i], #[trigger] items@[i]),
            _ => false,
        },
        Token::Composition(d) => d.kind == kind && shape_of(kind) == ValueShape::Composition
            && match v {
            JsonValue::Object(members) => d.value.0@.len() == members@.len() && forall|i: int|
                0 <= i < members@.len() ==> d.value.0@[i].0@ == (#[trigger] members@[i]).0@
                    && text_of(Some(members@[i].1)) == Some(d.value.0@[i].1@),
            _ => false,
        },
    }
}

fn find_member<'a>(node: &'a JsonValue, key: &str) -> (r: Option<&'a JsonValue>)
    ensures
        match r {
            Some(v) => member(*node, key@) == Some(*v),
            None => member(*node, key@) is None,
        },
{
    match node {
        JsonValue::Object(members) => {
            let mut i: usize = 0;
            while i < members.len()
                invariant
                    i <= members@.len(),
                    *node == JsonValue::Object(*members),
                    forall|j: int| 0 <= j < i ==> members@[j].0@ != key@,
                decreases members@.len() - i,
            {
                if str_equals(members[i].0.as_str(), key) {
                    proof {
                        lemma_first_where(members@, key_is(key@));
                        assert(key_is(key@)(members@[i as int]));
                        assert forall|j: int| 0 <= j < i implies !key_is(key@)(
                            #[trigger] members@[j],
                        ) by {}
                    }
                    return Some(&members[i].1);
                }
                i = i + 1;
            }
            proof {
                lemma_first_where(members@, key_is(key@));
                assert forall|j: int| 0 <= j < members@.len() implies !key_is(key@)(
                    #[trigger] members@[j],
                ) by {}
            }
            None
        },
        _ => None,
    }
}

fn text_from(v: Option<&JsonValue>) -> (r: Option<String>)
    ensures
        match r {
            Some(s) => v is Some && text_of(Some(*v->Some_0)) == Some(s@),
            None => v is None || text_of(Some(*v->Some_0)) is None,
        },
{
    match v {
        Some(JsonValue::Text(s)) => Some(s.clone()),
        Some(JsonValue::Scalar(s)) => Some(s.clone()),
        _ => None,
    }
}

fn read_layer(v: &JsonValue) -> (r: Option<ShadowLayer>)
    ensures
        match r {
            Some(l) => layer_ok(*v) && layer_matches(l, *v),
            None => !layer_ok(*v),
        },
{
    let color = text_from(find_member(v, "color"));
    let kind_text = text_from(find_member(v, "type"));
    let x = text_from(find_member(v, "x"));
    let y = text_from(find_member(v, "y"));
    let blur = text_from(find_member(v, "blur"));
    let spread = text_from(find_member(v, "spread"));
    let kind = match kind_text {
        Some(t) => if str_equals(t.as_str(), "innerShadow") {
            Some(ShadowLayerKind::InnerShadow)
        } else if str_equals(t.as_str(), "dropShadow") {
            Some(ShadowLayerKind::DropShadow)
        } else {
            None
        },
        None => None,
    };
    match (color, kind, x, y, blur, spread) {
        (Some(color), Some(kind), Some(x), Some(y), Some(blur), Some(spread)) => Some(
            ShadowLayer { color, kind, x, y, blur, spread },
        ),
        _ => None,
    }
}

fn read_token(set_name: &str, path: &Vec<String>, node: &JsonValue) -> (r: Result<Token, SourceError>)
    ensures
        match r {
            Ok(t) => definition_ok(*node) && is_token_of(t, set_name@, texts(path@), *node),
            Err(e) => !definition_ok(*node) && source_error_id(e) == set_name@ + "."@ + join_dots(
                texts(path@),
            ),
        },
{
    let name = token_name(path);
    let id = token_id(set_name, name.as_str());
    let kind = match text_from(find_member(node, "type")) {
        Some(alias) => match TokenKind::from_alias(alias.as_str()) {
            Some(k) => k,
            None => {
                return Err(SourceError::UnknownType(id));
            },
        },
        None => {
            return Err(SourceError::UnknownType(id));
        },
    };
    let value = match find_member(node, "value") {
        Some(v) => v,
        None => {
            return Err(SourceError::InvalidValue(id));
        },
    };
    match kind.shape() {
        ValueShape::Standard => match text_from(Some(value)) {
            Some(text) => Ok(Token::Standard(TokenDefinition { value: text, kind, name, id })),
            None => Err(SourceError::InvalidValue(id)),
        },
        ValueShape::Shadow => match value {
            JsonValue::List(items) => {
                let mut layers: Vec<ShadowLayer> = Vec::new();
                let mut i: usize = 0;
                while i < items.len()
                    invariant
                        i <= items@.len(),
                        *value == JsonValue::List(*items),
                        shape_of(kind) == ValueShape::Shadow,
                        member(*node, "value"@) == Some(*value),
                        text_of(member(*node, "type"@)) is Some,
                        kind_of_alias(text_of(member(*node, "type"@))->Some_0) == Some(kind),
                        name@ == join_dots(texts(path@)),
                        id@ == set_name@ + "."@ + name@,
                        layers@.len() == i,
                        forall|j: int| 0 <= j < i ==> layer_ok(#[trigger] items@[j]),
                        forall|j: int| 0 <= j < i ==> layer_matches(layers@[j], #[trigger] items@[j]),
                    decreases items@.len() - i,
                {
                    match read_layer(&items[i]) {
                        Some(l) => layers.push(l),
                        None => {
                            assert(!layer_ok(items@[i as int]));
                            assert(!layers_ok(items@));
                            return Err(SourceError::InvalidValue(id));
                        },
                    }
                    i = i + 1;
                }
                Ok(Token::Shadow(TokenDefinition { value: ShadowValue(layers), kind, name, id }))
            },
            _ => Err(SourceError::InvalidValue(id)),
        },
        ValueShape::Composition => match value {
            JsonValue::Object(members) => {
                let mut props: Vec<(String, String)> = Vec::new();
                let mut i: usize = 0;
                while i < members.len()
                    invariant
                        i <= members@.len(),
                        *value == JsonValue::Object(*members),
                        shape_of(kind) == ValueShape::Composition,
                        member(*node, "value"@) == Some(*value),
                        text_of(member(*node, "type"@)) is Some,
                        kind_of_alias(text_of(member(*node, "type"@))->Some_0) == Some(kind),
                        name@ == join_dots(texts(path@)),
                        id@ == set_name@ + "."@ + name@,
                        props@.len() == i,
                        forall|j: int| 0 <= j < i ==> text_of(Some(#[trigger] members@[j].1)) is Some,
                        forall|j: int|
                            0 <= j < i ==> props@[j].0@ == (#[trigger] members@[j]).0@ && text_of(
                                Some(members@[j].1),
                            ) == Some(props@[j].1@),
                    decreases members@.len() - i,
                {
                    match text_from(Some(&members[i].1)) {
                        Some(t) => props.push((members[i].0.clone(), t)),
                        None => {
                            assert(text_of(Some(members@[i as int].1)) is None);
                            return Err(SourceError::InvalidValue(id));
                        },
                    }
                    i = i + 1;
                }
                Ok(
                    Token::Composition(
                        TokenDefinition { value: CompositionValue(props), kind, name, id },
                    ),
                )
            },
            _ => Err(SourceError::InvalidValue(id)),
        },
    }
}

proof fn lemma_definitions_prefix(s: Seq<(String, JsonValue)>, k: int, prefix: Seq<Seq<char>>)
    requires
        0 <= k <= s.len(),
    ensures
        definitions_in(s.subrange(0, k), prefix).len() <= definitions_in(s, prefix).len(),
        forall|j: int|
            0 <= j < definitions_in(s.subrange(0, k), prefix).len() ==> #[trigger] definitions_in(
                s,
                prefix,
            )[j] == definitions_in(s.subrange(0, k), prefix)[j],
    decreases s.len() - k,
{
    if k == s.len() {
        assert(s.subrange(0, k) =~= s);
    } else {
        let t = s.subrange(0, s.len() - 1);
        assert(t.subrange(0, k) =~= s.subrange(0, k));
        lemma_definitions_prefix(t, k, prefix);
    }
}

/// Whether `out` holds the tokens of `defs`, in order, each definition readable.
pub open spec fn tokens_of_definitions(out: Seq<Token>, set_name: Seq<char>, defs: Seq<(Seq<Seq<char>>, JsonValue)>) -> bool {
    &&& out.len() == defs.len()
    &&& forall|j: int|
        0 <= j < defs.len() ==> definition_ok(#[trigger] defs[j].1) && is_token_of(
            out[j],
            set_name,
            defs[j].0,
            defs[j].1,
        )
}

/// Whether `e` reports one of `defs` that cannot be read.
pub open spec fn failure_among(e: SourceError, set_name: Seq<char>, defs: Seq<(Seq<Seq<char>>, JsonValue)>) -> bool {
    exists|j: int|
        0 <= j < defs.len() && !definition_ok(#[trigger] defs[j].1) && source_error_id(e)
            == set_name + "."@ + join_dots(defs[j].0)
}

fn extend_path(prefix: &Vec<String>, key: &String) -> (r: Vec<String>)
    ensures
        texts(r@) == texts(prefix@).push(key@),
{
    let mut r: Vec<String> = Vec::new();
    let mut i: usize = 0;
    while i < prefix.len()
        invariant
            i <= prefix@.len(),
            r@.len() == i,
            forall|j: int| 0 <= j < i ==> #[trigger] r@[j]@ == prefix@[j]@,
        decreases prefix@.len() - i,
    {
        let c = prefix[i].clone();
        r.push(c);
        i = i + 1;
    }
    r.push(key.clone());
    assert(texts(r@) =~= texts(prefix@).push(key@));
    r
}

fn collect_tokens(
    set_name: &str,
    node: &JsonValue,
    prefix: &Vec<String>,
    out: &mut Vec<Token>,
    done: Ghost<Seq<(Seq<Seq<char>>, JsonValue)>>,
) -> (r: Result<(), SourceError>)
    requires
        tokens_of_definitions(old(out)@, set_name@, done@),
    ensures
        r is Ok ==> tokens_of_definitions(
            final(out)@,
            set_name@,
            done@ + definitions(*node, texts(prefix@)),
        ),
        r matches Err(e) ==> failure_among(e, set_name@, definitions(*node, texts(prefix@))),
    decreases *node,
{
    match node {
        JsonValue::Object(members) => {
            let ghost p = texts(prefix@);
            let mut i: usize = 0;
            assert(members@.subrange(0, 0) =~= Seq::<(String, JsonValue)>::empty());
            assert(done@ + definitions_in(members@.subrange(0, 0), p) =~= done@);
            while i < members.len()
                invariant
                    i <= members@.len(),
                    *node == JsonValue::Object(*members),
                    p == texts(prefix@),
                    tokens_of_definitions(
                        out@,
                        set_name@,
                        done@ + definitions_in(members@.subrange(0, i as int), p),
                    ),
                decreases members@.len() - i,
            {
                let ghost before = done@ + definitions_in(members@.subrange(0, i as int), p);
                let ghost here = member_definitions(members@[i as int], p);
                proof {
                    let t = members@.subrange(0, i + 1);
                    assert(t.subrange(0, i as int) =~= members@.subrange(0, i as int));
                    assert(t[i as int] == members@[i as int]);
                    assert(definitions_in(t, p) == definitions_in(members@.subrange(0, i as int), p)
                        + here);
                    lemma_definitions_prefix(members@, i + 1, p);
                }
                let m = &members[i];
                let path = extend_path(prefix, &m.0);
                if find_member(&m.1, "type").is_some() {
                    match read_token(set_name, &path, &m.1) {
                        Ok(t) => {
                            out.push(t);
                            proof {
                                assert(here == seq![(texts(path@), m.1)]);
                                assert(before + here =~= done@ + definitions_in(
                                    members@.subrange(0, i + 1),
                                    p,
                                ));
                                assert forall|j: int|
                                    0 <= j < (before + here).len() implies definition_ok(
                                    #[trigger] (before + here)[j].1,
                                ) && is_token_of(
                                    out@[j],
                                    set_name@,
                                    (before + here)[j].0,
                                    (before + here)[j].1,
                                ) by {
                                    if j < before.len() {
                                        assert((before + here)[j] == before[j]);
                                    }
                                }
                            }
                        },
                        Err(e) => {
                            proof {
                                let k = definitions_in(members@.subrange(0, i as int), p).len() as int;
                                let defs = definitions(*node, p);
                                assert(defs[k] == (texts(path@), m.1));
                                assert(0 <= k < defs.len() && !definition_ok(defs[k].1) && source_error_id(e)
                                    == set_name@ + "."@ + join_dots(defs[k].0));
                            }
                            return Err(e);
                        },
                    }
                } else {
                    proof {
                        assert(decreases_to!(*node => (*node)->Object_0));
                        assert(decreases_to!((*node)->Object_0 => (*node)->Object_0@));
                        assert(decreases_to!((*node)->Object_0@ => (*node)->Object_0@[i as int]));
                        assert(decreases_to!((*node)->Object_0@[i as int] => (*node)->Object_0@[i as int].1));
                    }
                    match collect_tokens(set_name, &m.1, &path, out, Ghost(before)) {
                        Ok(()) => {
                            proof {
                                assert(here == definitions(m.1, texts(path@)));
                                assert(before + here =~= done@ + definitions_in(
                                    members@.subrange(0, i + 1),
                                    p,
                                ));
                            }
                        },
                        Err(e) => {
                            proof {
                                assert(here == definitions(m.1, texts(path@)));
                                let k = definitions_in(members@.subrange(0, i as int), p).len() as int;
                                let j = choose|j: int|
                                    0 <= j < here.len() && !definition_ok(#[trigger] here[j].1)
                                        && source_error_id(e) == set_name@ + "."@ + join_dots(
                                        here[j].0,
                                    );
                                let defs = definitions(*node, p);
                                assert(defs[k + j] == here[j]);
                                assert(0 <= k + j < defs.len() && !definition_ok(defs[k + j].1)
                                    && source_error_id(e) == set_name@ + "."@ + join_dots(
                                    defs[k + j].0,
                                ));
                            }
                            return Err(e);
                        },
                    }
                }
                i = i + 1;
            }
            proof {
                assert(members@.subrange(0, members@.len() as int) =~= members@);
            }
            Ok(())
        },
        _ => {
            assert(done@ + definitions(*node, texts(prefix@)) =~= done@);
            Ok(())
        },
    }
}

/// The tokens defined in the JSON source of the set named `set_name`, in document order:
/// a member whose value has a `type` member is a token named by the keys that lead to it,
/// joined by `.`, with the id `<set_name>.<name>`; any other object member is a group
/// whose members are read the same way. Fails on the first definition whose type is not a
/// known kind or whose value does not have the shape that kind asks for.
pub fn parse_token_set(set_name: &str, data: &JsonValue) -> (r: Result<Vec<Token>, SourceError>)
    ensures
        r matches Ok(ts) ==> tokens_of_definitions(ts@, set_name@, definitions(*data, seq![])),
        r matches Err(e) ==> failure_among(e, set_name@, definitions(*data, seq![])),
{
    let mut out: Vec<Token> = Vec::new();
    let prefix: Vec<String> = Vec::new();
    assert(texts(prefix@) =~= Seq::<Seq<char>>::empty());
    match collect_tokens(set_name, data, &prefix, &mut out, Ghost(Seq::empty())) {
        Ok(()) => {
            assert(Seq::<(Seq<Seq<char>>, JsonValue)>::empty() + definitions(*data, seq![])
                =~= definitions(*data, seq![]));
            Ok(out)
        },
        Err(e) => Err(e),
    }
}

} // verus!
