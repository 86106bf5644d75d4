use figtok::source::{parse_token_set, JsonValue, SourceError};
use figtok::load::{set_name_of, token_id, token_name};
use figtok::load::file_extension;
use figtok::{
    get_file_mode, CssSerializer, FileMode, Figtok, JsonLeaf, Theme, Token, TokenDefinition,
    TokenKind, TokenSet, TokenSetStatus,
};

fn set_token(id: &str, name: &str, value: &str, kind: TokenKind) -> Token {
    Token::Standard(TokenDefinition {
        id: id.to_string(),
        name: name.to_string(),
        value: value.to_string(),
        kind,
    })
}

fn sample_store() -> Figtok {
    Figtok::new(
        vec![
            set_token("global.space.1", "space.1", "4px", TokenKind::Spacing),
            set_token("global.color.black", "color.black", "#000000", TokenKind::Color),
            set_token("dark.color.text", "color.text", "{color.black}", TokenKind::Color),
        ],
        vec![
            (
                "global".to_string(),
                TokenSet::new(vec!["global.space.1".to_string(), "global.color.black".to_string()]),
            ),
            ("dark".to_string(), TokenSet::new(vec!["dark.color.text".to_string()])),
        ],
        vec![(
            "Dark".to_string(),
            Theme::from_selection(vec![
                ("dark".to_string(), TokenSetStatus::Enabled),
                ("global".to_string(), TokenSetStatus::Source),
                ("unused".to_string(), TokenSetStatus::Disabled),
            ]),
        )],
        "./build",
    )
}

#[test]
fn css_token_sets() {
    let store = sample_store();
    let files = CssSerializer::new().serialize_token_sets(&store).unwrap();
    assert_eq!(
        files,
        vec![
            ("global".to_string(), ":root{--space-1: 4px;--color-black: rgb(0, 0, 0);}\n".to_string()),
            ("dark".to_string(), ":root{--color-text: rgb(0, 0, 0);}\n".to_string()),
        ]
    );
}

#[test]
fn css_themes() {
    let store = sample_store();
    let files = CssSerializer::new().serialize_themes(&store).unwrap();
    assert_eq!(
        files,
        vec![(
            "Dark".to_string(),
            ":root{--space-1: 4px;--color-black: rgb(0, 0, 0);--color-text: rgb(0, 0, 0);}\n".to_string()
        )]
    );
}

#[test]
fn json_token_sets() {
    let store = sample_store();
    let sets = figtok::JsonSerializer::new().serialize_token_sets(&store).unwrap();
    assert_eq!(sets.len(), 2);
    assert_eq!(sets[1].0, "dark");
    assert_eq!(sets[1].1.len(), 1);
    assert_eq!(sets[1].1[0].path, vec!["color".to_string(), "text".to_string()]);
    match &sets[1].1[0].leaf {
        JsonLeaf::Value(v) => assert_eq!(v, "rgb(0, 0, 0)"),
        JsonLeaf::Properties(_) => panic!("a standard token has a value"),
    }
    let themes = figtok::JsonSerializer::new().serialize_themes(&store).unwrap();
    assert_eq!(themes.len(), 1);
    assert_eq!(themes[0].1.len(), 3);
}

#[test]
fn theme_drops_disabled_sets() {
    let theme = Theme::from_selection(vec![
        ("a".to_string(), TokenSetStatus::Disabled),
        ("b".to_string(), TokenSetStatus::Enabled),
        ("c".to_string(), TokenSetStatus::Source),
    ]);
    assert_eq!(
        theme.0,
        vec![("b".to_string(), TokenSetStatus::Enabled), ("c".to_string(), TokenSetStatus::Source)]
    );
    assert_eq!(TokenSetStatus::from_label("source"), Some(TokenSetStatus::Source));
    assert_eq!(TokenSetStatus::from_label("disabled"), Some(TokenSetStatus::Disabled));
    assert_eq!(TokenSetStatus::from_label("on"), None);
}

#[test]
fn test_get_file_mode() {
    assert_eq!(get_file_mode("./tokens/single_file.json"), FileMode::SingleFile);
    assert_eq!(get_file_mode("./tokens"), FileMode::MultiFile);
}

#[test]
fn mod_test_get_file_mode() {
    assert_eq!(get_file_mode("./tokens/single_file.json"), FileMode::SingleFile);
    assert_eq!(get_file_mode("./tokens"), FileMode::MultiFile);
}

#[test]
fn file_extensions() {
    assert_eq!(file_extension("./tokens/variables.css"), Some("css".to_string()));
    assert_eq!(file_extension("./tokens/"), None);
    assert_eq!(file_extension(".hidden"), None);
    assert_eq!(file_extension("a/b.tar.gz"), Some("gz".to_string()));
    assert_eq!(file_extension(".."), None);
    assert_eq!(file_extension("dir.d/file"), None);
}

#[test]
fn token_set_source() {
    let text = |s: &str| JsonValue::Text(s.to_string());
    let definition = |kind: &str, value: JsonValue| {
        JsonValue::Object(vec![("type".to_string(), text(kind)), ("value".to_string(), value)])
    };
    let data = JsonValue::Object(vec![
        (
            "color".to_string(),
            JsonValue::Object(vec![
                ("purple".to_string(), definition("color", text("#7F00FF"))),
                ("note".to_string(), text("not a token")),
            ]),
        ),
        ("space".to_string(), definition("spacing", JsonValue::Scalar("4".to_string()))),
        (
            "card".to_string(),
            definition(
                "boxShadow",
                JsonValue::List(vec![JsonValue::Object(vec![
                    ("color".to_string(), text("#000000")),
                    ("type".to_string(), text("innerShadow")),
                    ("x".to_string(), text("0")),
                    ("y".to_string(), text("1")),
                    ("blur".to_string(), text("2")),
                    ("spread".to_string(), text("3")),
                ])]),
            ),
        ),
        (
            "heading".to_string(),
            definition("typography", JsonValue::Object(vec![("fontSize".to_string(), text("24px"))])),
        ),
    ]);
    let tokens = parse_token_set("base.light", &data).unwrap();
    assert_eq!(tokens.len(), 4);
    assert_eq!(tokens[0].name(), "color.purple");
    assert_eq!(tokens[0].id(), "base.light.color.purple");
    assert!(matches!(&tokens[0], Token::Standard(d) if d.kind == TokenKind::Color && d.value == "#7F00FF"));
    assert!(matches!(&tokens[1], Token::Standard(d) if d.kind == TokenKind::Spacing && d.value == "4"));
    assert!(matches!(&tokens[2], Token::Shadow(d) if d.value.0.len() == 1 && d.value.0[0].spread == "3"));
    assert!(matches!(&tokens[3], Token::Composition(d) if d.value.0 == vec![("fontSize".to_string(), "24px".to_string())]));

    let bad = JsonValue::Object(vec![("x".to_string(), definition("colour", text("#000000")))]);
    assert_eq!(parse_token_set("s", &bad).unwrap_err(), SourceError::UnknownType("s.x".to_string()));
    let bad = JsonValue::Object(vec![("x".to_string(), definition("boxShadow", text("none")))]);
    assert_eq!(parse_token_set("s", &bad).unwrap_err(), SourceError::InvalidValue("s.x".to_string()));
}

#[test]
fn loader_names() {
    assert_eq!(set_name_of("themes/dark"), "themes.dark");
    assert_eq!(token_name(&vec!["color".to_string(), "purple".to_string(), "1".to_string()]), "color.purple.1");
    assert_eq!(token_id("themes.dark", "color.purple.1"), "themes.dark.color.purple.1");
    assert_eq!(TokenKind::BoxShadow.shape(), figtok::tokens::kind::ValueShape::Shadow);
}
