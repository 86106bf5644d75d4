use figtok::tokens::naming::{css_class_rule, css_custom_property, css_variable};
use figtok::tokens::color::{decimal_string, hex_to_rgb_channels, parse_hex_color};
use figtok::{
    contains_reference, css_stringify, CompositionValue, Figtok, JsonLeaf, ReplaceMethod,
    ResolveError, ShadowLayer, ShadowLayerKind, ShadowValue, Theme, Token, TokenDefinition,
    TokenKind, TokenSet, TokenSetStatus,
};

fn std_token(id: &str, name: &str, value: &str, kind: TokenKind) -> Token {
    Token::Standard(TokenDefinition {
        id: id.to_string(),
        name: name.to_string(),
        value: value.to_string(),
        kind,
    })
}

fn store_of(tokens: Vec<Token>) -> Figtok {
    Figtok::new(tokens, Vec::new(), Vec::new(), "./build")
}

fn layer(color: &str, kind: ShadowLayerKind, x: &str, y: &str, blur: &str, spread: &str) -> ShadowLayer {
    ShadowLayer {
        color: color.to_string(),
        kind,
        x: x.to_string(),
        y: y.to_string(),
        blur: blur.to_string(),
        spread: spread.to_string(),
    }
}

#[test]
fn captures_handlebars_refs() {
    let test_strings = vec![
        "{test}",
        "{ref.purple.1}",
        "{my.very.deeply.nested.ref.value}",
        "background-color: {ref.blue.1};",
    ];

    for current in test_strings {
        assert!(contains_reference(current));
    }
}

#[test]
fn helpers_captures_handlebars_refs() {
    for current in ["{test}", "{ref.purple.1}", "{my.very.deeply.nested.value}", "background-color: {ref.blue.1}"] {
        assert!(contains_reference(current));
    }
}

#[test]
fn reject_invalid_handlebars_refs() {
    let test_strings = vec!["{ref.pink.0", "radii.card}", "borderWidth.1}{"];

    for current in test_strings {
        assert!(!contains_reference(current));
    }
}

#[test]
fn helpers_reject_invalid_handlebars_refs() {
    for current in ["{ref.pink.0", "radii.card}", "borderWidth.1}{"] {
        assert!(!contains_reference(current));
    }
}

#[test]
fn reference_names_hold_no_braces() {
    assert!(contains_reference("{a{b}"));
    assert!(contains_reference("{}"));
    assert!(!contains_reference("}{"));
}

#[test]
fn standard() {
    let store = store_of(Vec::new());

    let token = std_token("global.typescale.4", "typescale.4", "24px", TokenKind::Other);

    assert_eq!(
        token.value(&store, ReplaceMethod::CssVariables, false, &None),
        Ok("24px".to_string())
    );
}

#[test]
fn standard_reference() {
    let ref_token = std_token("global.ref.grey.0", "ref.grey.0", "#000000", TokenKind::Color);
    let store = store_of(vec![ref_token.clone()]);

    let token = std_token("color.text", "color.text", "{ref.grey.0}", TokenKind::Color);

    assert_eq!(
        token.value(&store, ReplaceMethod::StaticValues, false, &None),
        Ok(String::from("rgb(0, 0, 0)"))
    );

    assert_eq!(
        token.value(&store, ReplaceMethod::CssVariables, false, &None),
        Ok(format!("rgb(var(--{}))", css_stringify(&ref_token.name())))
    );
    assert_eq!(
        token.value(&store, ReplaceMethod::CssVariables, false, &None),
        Ok("rgb(var(--ref-grey-0))".to_string())
    );
}

#[test]
fn reference_chain_is_wrapped_once() {
    let b = std_token("global.b", "b", "#000000", TokenKind::Color);
    let a = std_token("global.a", "a", "{b}", TokenKind::Color);
    let c = std_token("global.c", "c", "{a}", TokenKind::Color);
    let store = store_of(vec![b, a.clone(), c.clone()]);
    assert_eq!(a.value(&store, ReplaceMethod::StaticValues, false, &None), Ok("rgb(0, 0, 0)".to_string()));
    assert_eq!(c.value(&store, ReplaceMethod::StaticValues, false, &None), Ok("rgb(0, 0, 0)".to_string()));
    assert_eq!(c.value(&store, ReplaceMethod::StaticValues, true, &None), Ok("0, 0, 0".to_string()));
}

#[test]
fn color_literal_channels() {
    let store = store_of(Vec::new());
    let token = std_token("global.purple", "purple", "#7F00fF", TokenKind::Color);
    assert_eq!(
        token.value(&store, ReplaceMethod::StaticValues, false, &None),
        Ok("127, 0, 255".to_string())
    );
    assert_eq!(
        token.serialize(&store, ReplaceMethod::StaticValues, &None),
        Ok("--purple: rgb(127, 0, 255);".to_string())
    );
    assert_eq!(parse_hex_color("#0a1B2c"), Some((10, 27, 44)));
    assert_eq!(parse_hex_color("#0a1B2"), None);
    assert_eq!(parse_hex_color("0a1B2cc"), None);
    assert_eq!(hex_to_rgb_channels("#ffffff"), Some("255, 255, 255".to_string()));
    assert_eq!(decimal_string(0), "0");
    assert_eq!(decimal_string(9), "9");
    assert_eq!(decimal_string(10), "10");
    assert_eq!(decimal_string(200), "200");
}

#[test]
fn invalid_color_literal() {
    let store = store_of(Vec::new());
    let token = std_token("global.bad", "bad", "#12345g", TokenKind::Color);
    assert_eq!(
        token.value(&store, ReplaceMethod::StaticValues, false, &None),
        Err(ResolveError::InvalidColorLiteral("#12345g".to_string()))
    );
}

#[test]
fn broken_reference() {
    let store = store_of(vec![std_token("global.a", "a", "1px", TokenKind::Sizing)]);
    assert_eq!(
        store.enrich("{nonexistent.path}", ReplaceMethod::StaticValues, &None),
        Ok("BROKEN_REF".to_string())
    );
    let token = std_token("global.x", "x", "{nonexistent.path}", TokenKind::Sizing);
    assert_eq!(
        token.value(&store, ReplaceMethod::StaticValues, false, &None),
        Ok("BROKEN_REF".to_string())
    );
    assert_eq!(
        store.enrich("{a} {missing} {a}", ReplaceMethod::StaticValues, &None),
        Ok("1px BROKEN_REF 1px".to_string())
    );
}

#[test]
fn cyclic_reference() {
    let a = std_token("global.a", "a", "{b}", TokenKind::Sizing);
    let b = std_token("global.b", "b", "{a}", TokenKind::Sizing);
    let store = store_of(vec![a.clone(), b]);
    assert_eq!(
        a.value(&store, ReplaceMethod::StaticValues, false, &None),
        Err(ResolveError::CyclicReference("b".to_string()))
    );
    let own = std_token("global.self", "self", "{self}", TokenKind::Other);
    let store = store_of(vec![own.clone()]);
    assert_eq!(
        own.value(&store, ReplaceMethod::StaticValues, false, &None),
        Err(ResolveError::CyclicReference("self".to_string()))
    );
    assert_eq!(
        own.value(&store, ReplaceMethod::CssVariables, false, &None),
        Ok("var(--self)".to_string())
    );
}

#[test]
fn calc_wrapping() {
    let base = std_token("global.spacing.base", "spacing.base", "4px", TokenKind::Spacing);
    let double = std_token("global.spacing.double", "spacing.double", "{spacing.base} * 2", TokenKind::Spacing);
    let store = store_of(vec![base, double.clone()]);
    assert_eq!(
        double.value(&store, ReplaceMethod::CssVariables, false, &None),
        Ok("calc(var(--spacing-base) * 2)".to_string())
    );
    assert_eq!(
        double.value(&store, ReplaceMethod::StaticValues, false, &None),
        Ok("calc(4px * 2)".to_string())
    );
}

#[test]
fn resolution_is_repeatable() {
    let b = std_token("global.b", "b", "#102030", TokenKind::Color);
    let a = std_token("global.a", "a", "{b}", TokenKind::Color);
    let store = store_of(vec![b, a.clone()]);
    let first = a.value(&store, ReplaceMethod::StaticValues, false, &None);
    let second = a.value(&store, ReplaceMethod::StaticValues, false, &None);
    assert_eq!(first, second);
    assert_eq!(first, Ok("rgb(16, 32, 48)".to_string()));
}

#[test]
fn first_active_match_wins() {
    let one = std_token("one.size", "size", "1px", TokenKind::Sizing);
    let two = std_token("two.size", "size", "2px", TokenKind::Sizing);
    let store = Figtok::new(
        vec![one, two],
        vec![
            ("one".to_string(), TokenSet::new(vec!["one.size".to_string()])),
            ("two".to_string(), TokenSet::new(vec!["two.size".to_string()])),
        ],
        vec![
            (
                "dark".to_string(),
                Theme(vec![
                    ("one".to_string(), TokenSetStatus::Enabled),
                    ("two".to_string(), TokenSetStatus::Source),
                ]),
            ),
            ("light".to_string(), Theme(vec![("one".to_string(), TokenSetStatus::Source)])),
        ],
        "./build",
    );
    assert_eq!(store.enrich("{size}", ReplaceMethod::StaticValues, &None), Ok("1px".to_string()));
    assert_eq!(
        store.enrich("{size}", ReplaceMethod::StaticValues, &Some("dark".to_string())),
        Ok("2px".to_string())
    );
    assert_eq!(
        store.enrich("{size}", ReplaceMethod::StaticValues, &Some("light".to_string())),
        Ok("1px".to_string())
    );
    assert_eq!(
        store.enrich("{size}", ReplaceMethod::StaticValues, &Some("none".to_string())),
        Ok("BROKEN_REF".to_string())
    );
    assert_eq!(store.active_tokens(&Some("dark".to_string())), vec![1, 0]);
    assert_eq!(store.active_tokens(&None), vec![0, 1]);
    assert_eq!(store.find_token("two.size"), Some(1));
    assert_eq!(store.token("two.size").map(|t| t.name()), Some("size".to_string()));
    assert!(store.token("three.size").is_none());
    assert_eq!(store.lookup_name("size", &Some("dark".to_string())), Some(1));
}

#[test]
fn shadow() {
    let store = store_of(Vec::new());
    let token = Token::Shadow(TokenDefinition {
        id: "global.shadow.card".to_string(),
        name: "shadow.card".to_string(),
        kind: TokenKind::BoxShadow,
        value: ShadowValue(vec![
            layer("0, 0, 0", ShadowLayerKind::DropShadow, "0", "4", "24", "0"),
            layer("rgba(0, 0, 0, 0.5)", ShadowLayerKind::InnerShadow, "1", "2", "3", "4"),
        ]),
    });
    assert_eq!(
        token.value(&store, ReplaceMethod::StaticValues, false, &None),
        Ok("0px 4px 24px 0px rgb(0, 0, 0), inset 1px 2px 3px 4px rgba(0, 0, 0, 0.5)".to_string())
    );
    assert_eq!(
        token.serialize(&store, ReplaceMethod::StaticValues, &None),
        Ok("--shadow-card: 0px 4px 24px 0px rgb(0, 0, 0), inset 1px 2px 3px 4px rgba(0, 0, 0, 0.5);".to_string())
    );
}

#[test]
fn shadow_reference() {
    let color = std_token("global.ref.black", "ref.black", "#000000", TokenKind::Color);
    let offset = std_token("global.ref.offset", "ref.offset", "4", TokenKind::Other);
    let store = store_of(vec![color, offset]);
    let token = Token::Shadow(TokenDefinition {
        id: "global.shadow.card".to_string(),
        name: "shadow.card".to_string(),
        kind: TokenKind::BoxShadow,
        value: ShadowValue(vec![layer("{ref.black}", ShadowLayerKind::DropShadow, "0", "{ref.offset}", "8", "0")]),
    });
    assert_eq!(
        token.value(&store, ReplaceMethod::StaticValues, false, &None),
        Ok("0px 4px 8px 0px rgb(0, 0, 0)".to_string())
    );
    assert_eq!(
        token.value(&store, ReplaceMethod::CssVariables, false, &None),
        Ok("0px var(--ref-offset)px 8px 0px rgb(var(--ref-black))".to_string())
    );
}

#[test]
fn composition() {
    let store = store_of(Vec::new());
    let token = Token::Composition(TokenDefinition {
        id: "global.myCompositionToken".to_string(),
        name: "myCompositionToken".to_string(),
        kind: TokenKind::Composition,
        value: CompositionValue(vec![
            ("fontSize".to_string(), "24px".to_string()),
            ("padding.x".to_string(), "8px".to_string()),
        ]),
    });
    assert_eq!(
        token.value(&store, ReplaceMethod::StaticValues, false, &None),
        Ok("font-size: 24px;padding-x: 8px;".to_string())
    );
    assert_eq!(
        token.serialize(&store, ReplaceMethod::StaticValues, &None),
        Ok(".my-composition-token {font-size: 24px;padding-x: 8px;}".to_string())
    );
}

#[test]
fn composition_reference() {
    let size = std_token("global.typescale.4", "typescale.4", "24px", TokenKind::FontSize);
    let store = store_of(vec![size]);
    let token = Token::Composition(TokenDefinition {
        id: "global.heading".to_string(),
        name: "heading".to_string(),
        kind: TokenKind::Typography,
        value: CompositionValue(vec![("fontSize".to_string(), "{typescale.4}".to_string())]),
    });
    assert_eq!(
        token.value(&store, ReplaceMethod::StaticValues, false, &None),
        Ok("font-size: 24px;".to_string())
    );
    assert_eq!(
        token.value(&store, ReplaceMethod::CssVariables, false, &None),
        Ok("font-size: var(--typescale-4);".to_string())
    );
    let json = token.to_json(&store, ReplaceMethod::StaticValues, &None).unwrap();
    assert_eq!(json.path, vec!["heading".to_string()]);
    match json.leaf {
        JsonLeaf::Properties(props) => {
            assert_eq!(props, vec![("fontSize".to_string(), "24px".to_string())])
        }
        JsonLeaf::Value(_) => panic!("a composition token has properties"),
    }
}

#[test]
fn serializes_values_to_css_str() {
    let store = store_of(Vec::new());
    let token = std_token("fontSize.7", "typescale.7", "24px", TokenKind::Other);
    assert_eq!(
        token.serialize(&store, ReplaceMethod::StaticValues, &None),
        Ok("--typescale-7: 24px;".to_string())
    );
}

#[test]
fn to_json_paths() {
    let token = std_token("global.color.purple.1", "color.purple.1", "4px", TokenKind::Sizing);
    let store = store_of(vec![token.clone()]);
    let json = token.to_json(&store, ReplaceMethod::StaticValues, &None).unwrap();
    assert_eq!(json.path, vec!["color".to_string(), "purple".to_string(), "1".to_string()]);
    match json.leaf {
        JsonLeaf::Value(v) => assert_eq!(v, "4px"),
        JsonLeaf::Properties(_) => panic!("a standard token has a value"),
    }
}

#[test]
fn kebab_transform() {
    assert_eq!(css_stringify("global.color.purple.100"), "global-color-purple-100");
    assert_eq!(css_stringify("ColorPalette.primaryColor.100"), "color-palette-primary-color-100");
    assert_eq!(css_stringify("text.headings.h1.fontSize"), "text-headings-h1-font-size");
    assert_eq!(css_stringify("myCompositionToken"), "my-composition-token");
}

#[test]
fn token_kinds() {
    assert_eq!(TokenKind::FontSize.to_string(), "font-size");
    assert_eq!(TokenKind::BorderRadius.to_string(), "border-radius");
    assert_eq!(TokenKind::from_alias("fontSizes"), Some(TokenKind::FontSize));
    assert_eq!(TokenKind::from_alias("fontWeights"), Some(TokenKind::FontWeight));
    assert_eq!(TokenKind::from_alias("typography"), Some(TokenKind::Typography));
    assert_eq!(TokenKind::from_alias("FontSize"), None);
}

#[test]
fn token_getters() {
    let token = std_token("global.typescale.4", "typescale.4", "24px", TokenKind::Other);
    assert_eq!(token.name(), "typescale.4");
    assert_eq!(token.id(), "global.typescale.4");
}

#[test]
fn css_formatting() {
    assert_eq!(css_variable("ref-grey-0"), "var(--ref-grey-0)");
    assert_eq!(css_custom_property("space-1", "4px"), "--space-1: 4px;");
    assert_eq!(css_class_rule("heading", "font-size: 24px;"), ".heading {font-size: 24px;}");
}
