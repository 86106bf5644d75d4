use figtok::css_math::token::Token;
use figtok::css_math::tokenize::{tokenize, TokenizationError, Tokenizer};
use figtok::css_math::validate::{validate, validator, ValidationError, ValidationKind};
use figtok::is_css_math;

fn num(s: &str) -> Token {
    Token::Number(s.to_string())
}

fn unit(s: &str) -> Token {
    Token::Unit(s.to_string())
}

fn op(s: &str) -> Token {
    Token::Operator(s.to_string())
}

fn var(s: &str) -> Token {
    Token::Variable(s.to_string())
}

fn without_whitespace(tokens: Vec<Token>) -> Vec<Token> {
    tokens.into_iter().filter(|t| *t != Token::Whitespace).collect()
}

fn kind_of(input: &[Token]) -> Option<ValidationKind> {
    match validator(input) {
        Ok(()) => None,
        Err(e) => Some(e.kind()),
    }
}

#[test]
fn handles_whitespace() {
    let input = " ";
    let mut tokenizer = Tokenizer::new(input);
    assert!(matches!(tokenizer.next().unwrap().unwrap(), Token::Whitespace));
}

#[test]
fn handles_left_paren() {
    let input = "(";
    let mut tokenizer = Tokenizer::new(input);
    assert!(matches!(tokenizer.next().unwrap().unwrap(), Token::LeftParen));
}

#[test]
fn handles_right_paren() {
    let input = ")";
    let mut tokenizer = Tokenizer::new(input);
    assert!(matches!(tokenizer.next().unwrap().unwrap(), Token::RightParen));
}

#[test]
fn handles_number() {
    for input in ["5", "10", "1.12", "100", "6.2", "-60.0001", "-1", "10.5"] {
        let mut tokenizer = Tokenizer::new(input);
        assert_eq!(tokenizer.next().unwrap().unwrap(), num(input));
    }
}

#[test]
fn handles_unit() {
    for input in ["px", "%", "vh", "vw", "ch", "cw", "em", "rem"] {
        let mut tokenizer = Tokenizer::new(input);
        assert_eq!(tokenizer.next().unwrap().unwrap(), unit(input));
    }
}

#[test]
fn handles_variable() {
    for input in ["var(--color)", "var(--typescale-1)", "var(--ref-purple-100)", "var(--gutter)"] {
        let mut tokenizer = Tokenizer::new(input);
        assert_eq!(tokenizer.next().unwrap().unwrap(), var(input));
    }
}

#[test]
fn handles_invalid_variable() {
    for input in ["varcolor)", "var(-color)", "var(--color"] {
        let mut tokenizer = Tokenizer::new(input);
        assert!(matches!(tokenizer.next().unwrap(), Err(TokenizationError::InvalidVariable(_))));
    }
}

#[test]
fn handles_operator() {
    for input in ["+", "-", "/", "*"] {
        let mut tokenizer = Tokenizer::new(input);
        assert_eq!(tokenizer.next().unwrap().unwrap(), op(input));
    }
}

#[test]
fn handles_unrecognized_character() {
    for c in ['&', '@', '^', '[', ']'] {
        let input = c.to_string();
        let mut tokenizer = Tokenizer::new(&input);
        assert_eq!(tokenizer.next().unwrap(), Err(TokenizationError::UnrecognizedCharacter(c)));
        assert_eq!(tokenizer.next().unwrap(), Err(TokenizationError::UnrecognizedCharacter(c)));
    }
}

#[test]
fn tokenizer_ends_with_none() {
    let mut tokenizer = Tokenizer::new("5");
    assert_eq!(tokenizer.next(), Some(Ok(num("5"))));
    assert_eq!(tokenizer.next(), None);
}

#[test]
fn unary_minus_before_a_digit() {
    assert_eq!(
        without_whitespace(tokenize("-1 - 1").unwrap()),
        vec![num("-1"), op("-"), num("1")]
    );
    assert_eq!(
        without_whitespace(tokenize("10 - -1").unwrap()),
        vec![num("10"), op("-"), num("-1")]
    );
}

#[test]
fn tokenize_keeps_each_space() {
    assert_eq!(
        tokenize("-1 - 1").unwrap(),
        vec![num("-1"), Token::Whitespace, op("-"), Token::Whitespace, num("1")]
    );
    assert_eq!(
        tokenize("1  +").unwrap(),
        vec![num("1"), Token::Whitespace, Token::Whitespace, op("+")]
    );
}

#[test]
fn tokenize_outputs() {
    assert_eq!(
        without_whitespace(tokenize("5 + 10px").unwrap()),
        vec![num("5"), op("+"), num("10"), unit("px")]
    );
    assert_eq!(
        without_whitespace(tokenize("5vh - 10px + 100%").unwrap()),
        vec![num("5"), unit("vh"), op("-"), num("10"), unit("px"), op("+"), num("100"), unit("%")]
    );
    assert_eq!(
        without_whitespace(tokenize("(2 * 10ch) + 4px").unwrap()),
        vec![
            Token::LeftParen,
            num("2"),
            op("*"),
            num("10"),
            unit("ch"),
            Token::RightParen,
            op("+"),
            num("4"),
            unit("px")
        ]
    );
    assert_eq!(
        without_whitespace(tokenize("(400 / -23) * 1").unwrap()),
        vec![
            Token::LeftParen,
            num("400"),
            op("/"),
            num("-23"),
            Token::RightParen,
            op("*"),
            num("1")
        ]
    );
}

#[test]
fn tokenize_errors() {
    assert_eq!(tokenize("5 & 3"), Err(TokenizationError::UnrecognizedCharacter('&')));
    assert_eq!(
        tokenize("var(-x) + 1"),
        Err(TokenizationError::InvalidVariable("var(-x)".to_string()))
    );
    assert_eq!(tokenize(".5").unwrap(), vec![num(".5")]);
}

/// The tokens with one space on each side of every operator.
fn spaced(case: Vec<Token>) -> Vec<Token> {
    let mut out = Vec::new();
    for t in case {
        let is_op = matches!(t, Token::Operator(_));
        if is_op {
            out.push(Token::Whitespace);
        }
        out.push(t);
        if is_op {
            out.push(Token::Whitespace);
        }
    }
    out
}

#[test]
fn validator_accepts() {
    let l = || Token::LeftParen;
    let r = || Token::RightParen;
    let cases: Vec<Vec<Token>> = vec![
        // subtract px from percent
        vec![num("100"), unit("%"), op("-"), num("50"), unit("px")],
        // multiply percent by number
        vec![num("100"), unit("%"), op("*"), num("2")],
        // divide vh by number
        vec![num("50"), unit("vh"), op("/"), num("2")],
        // add px to em
        vec![num("100"), unit("px"), op("+"), num("2"), unit("em")],
        // nested operation with subtraction
        vec![num("100"), unit("px"), op("-"), l(), num("50"), unit("px"), op("-"), num("30"), unit("px"), r()],
        // nested operation with subtraction and multiplication
        vec![l(), num("100"), unit("px"), op("-"), num("50"), unit("px"), r(), op("*"), num("3")],
        // division and subtraction with no parentheses
        vec![num("100"), unit("%"), op("/"), num("2"), op("-"), num("30"), unit("px")],
        // multiply variable by number
        vec![var("var(--width)"), op("*"), num("2")],
        // subtract variable from percentage
        vec![num("100"), unit("%"), op("-"), var("var(--padding)")],
        // complex nested operation with variable
        vec![num("100"), unit("vh"), op("-"), l(), num("2"), op("*"), var("var(--margin)"), r()],
        // double nested add and subtract, then multiply
        vec![
            l(), l(), num("100"), unit("px"), op("+"), num("50"), unit("px"), r(), op("-"), num("20"),
            unit("px"), r(), op("*"), num("2"),
        ],
        // subtract with nested add
        vec![num("100"), unit("vw"), op("-"), l(), num("80"), unit("vw"), op("+"), num("30"), unit("px"), r()],
        // nested division and addition
        vec![l(), num("200"), op("/"), num("2"), r(), op("*"), l(), num("50"), op("+"), num("50"), r()],
    ];
    for case in cases {
        assert!(validate(&spaced(case)));
    }
}

#[test]
fn validator_rejects() {
    let l = || Token::LeftParen;
    let r = || Token::RightParen;
    let cases: Vec<(Vec<Token>, ValidationKind)> = vec![
        // division by zero
        (vec![num("100"), unit("px"), op("/"), num("0")], ValidationKind::DivisionByZero),
        // divide px by px
        (vec![num("100"), unit("px"), op("/"), num("2"), unit("px")], ValidationKind::InvalidDivisionRHS),
        // multiply percent by percent
        (vec![num("100"), unit("%"), op("*"), num("50"), unit("%")], ValidationKind::MultiplicationWithUnits),
        // incomplete expression
        (vec![num("100"), op("+")], ValidationKind::IncompleteExpression),
        // missing closing parenthesis
        (vec![l(), num("100"), unit("px")], ValidationKind::MismatchedParentheses),
        // multiplication with two units
        (vec![num("100"), unit("em"), op("*"), num("5"), unit("vh")], ValidationKind::MultiplicationWithUnits),
        // division of variable by unit
        (vec![var("var(--base)"), op("/"), num("2"), unit("px")], ValidationKind::InvalidDivisionRHS),
        // unit before number
        (vec![unit("px"), num("100"), op("+"), num("100")], ValidationKind::InvalidSyntax),
        // operator at the start
        (vec![op("*"), num("100"), unit("px")], ValidationKind::InvalidSyntax),
        // operator at the start of nested expression
        (
            vec![l(), op("*"), num("100"), unit("px"), op("-"), num("50"), unit("px"), r(), op("*"), num("3")],
            ValidationKind::InvalidSyntax,
        ),
        // nested multiplication without unit in inner expression
        (
            vec![l(), num("100"), unit("px"), op("*"), l(), num("50"), r(), op("+"), num("50"), unit("px")],
            ValidationKind::MismatchedParentheses,
        ),
        // division by zero in nested expression
        (
            vec![num("100"), unit("px"), op("/"), l(), num("10"), unit("px"), op("/"), num("0"), r()],
            ValidationKind::DivisionByZero,
        ),
        // invalid operator at the start of nested expression
        (vec![l(), op("-"), num("100"), unit("px"), r(), op("*"), num("3")], ValidationKind::InvalidSyntax),
        // missing operator before a number
        (vec![l(), num("100"), unit("px"), op("-"), r(), num("50")], ValidationKind::InvalidSyntax),
        // unit mismatch in division after nested expression
        (
            vec![l(), num("100"), unit("%"), op("+"), num("50"), unit("px"), r(), op("/"), num("2"), unit("px")],
            ValidationKind::InvalidDivisionRHS,
        ),
    ];
    for (case, kind) in cases {
        assert_eq!(kind_of(&spaced(case)), Some(kind));
    }
}

#[test]
fn validator_whitespace_and_number_rules() {
    let s = || Token::Whitespace;
    let cases: Vec<(Vec<Token>, ValidationKind)> = vec![
        (vec![num("15."), s(), op("*"), s(), num("2"), unit("px")], ValidationKind::InvalidNumber),
        (vec![var("var(x)"), s(), op("*"), s(), num("2")], ValidationKind::InvalidVariable),
        (vec![num("1"), op("+"), num("2")], ValidationKind::InvalidWhitespace),
        (vec![num("1"), s(), s(), op("+"), s(), num("2")], ValidationKind::InvalidWhitespace),
        (vec![num("100"), unit("px")], ValidationKind::NoOperators),
    ];
    for (case, kind) in cases {
        assert_eq!(kind_of(&case), Some(kind));
    }
}

#[test]
fn validation_error_text() {
    let tokens = vec![num("100"), unit("px"), Token::Whitespace, op("/"), Token::Whitespace, num("0")];
    assert_eq!(
        validator(&tokens),
        Err(ValidationError::DivisionByZero("100px / 0".to_string()))
    );
}

#[test]
fn expressions_of_the_grammar() {
    assert!(is_css_math("100% - 50px"));
    assert!(is_css_math("(100% - 60px) / 4"));
    assert!(is_css_math("var(--typescale-3) * 1.5"));
    for (input, kind) in [
        ("100px * 2px", ValidationKind::MultiplicationWithUnits),
        ("100px / 0", ValidationKind::DivisionByZero),
        ("(100px", ValidationKind::MismatchedParentheses),
        ("100px", ValidationKind::NoOperators),
    ] {
        assert!(!is_css_math(input));
        assert_eq!(kind_of(&tokenize(input).unwrap()), Some(kind));
    }
}

#[test]
fn invalid_expressions() {
    for input in ["12px px", "2% rem", "2px rem px", "15. * 2px", "10 px + 1"] {
        assert!(!is_css_math(input));
    }
}

#[test]
fn captures_calc_statements() {
    let test_strings = vec![
        "5 + 10",
        "10 - 5",
        "5 * 10",
        "10 / 5",
        "5.5 + 10.5",
        "10.5 - 5.5",
        "5.5 * 10.5",
        "10.5 / 5.5",
        "5rem + 180deg",
        "10px - 5em",
        "var(--width) + 10%",
        "10px - var(--width)",
        "var(--width) * 10px",
        "10px / var(--width)",
        "5 + 10 + 15",
        "10 - 5 - 5",
        "10 / 5 / 5",
    ];

    for current in test_strings {
        assert!(is_css_math(current));
    }

    // A product may carry one unit, and a divisor none.
    assert!(!is_css_math("5px * 10vw"));
    assert!(!is_css_math("10vh / 5px"));
}

#[test]
fn helpers_captures_calc_statements() {
    let test_strings = vec![
        "5 + 10",
        "10 - 5",
        "5 * 10",
        "10 / 5",
        "5.5 + 10.5",
        "10.5 - 5.5",
        "5.5 * 10.5",
        "10.5 / 5.5",
        "5rem + 180deg",
        "10px - 5em",
        "var(--width) + 10%",
        "10px - var(--width)",
        "var(--width) * 10px",
        "10px / var(--width)",
    ];

    for current in test_strings {
        assert!(is_css_math(current));
    }

    // A product may carry one unit, and a divisor none.
    assert!(!is_css_math("5px * 10vw"));
    assert!(!is_css_math("10vh / 5px"));
}

#[test]
fn reject_invalid_calc_statements() {
    let test_strings = vec!["5.5+10.5", "5 *", "5.5 +", "foo + 10", "10 - bar", "5.5 * foo", "10.5 / "];

    for current in test_strings {
        assert!(!is_css_math(current));
    }
}

#[test]
fn helpers_reject_invalid_calc_statements() {
    let test_strings = vec![
        "5.5+10.5",
        "5-72",
        "12/11",
        "100*6",
        "5 *",
        "5.5 +",
        "foo + 10",
        "10 - bar",
        "5.5 * foo",
        "10.5 / ",
    ];

    for current in test_strings {
        assert!(!is_css_math(current));
    }

    // Chains of operations are expressions of the grammar.
    for current in ["5 + 10 + 15", "10 - 5 - 5", "10 / 5 / 5"] {
        assert!(is_css_math(current));
    }
}
