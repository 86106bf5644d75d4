use vstd::prelude::*;

use crate::css_math::token::{lexemes, Lexeme, Token};
use crate::css_math::tokenize::var_prefix;
use crate::text::{starts_with, ends_with_char, push_str, str_is_char, str_starts_with, str_ends_with_char};

verus! {

/// Why a token stream is not an acceptable CSS arithmetic expression. Each variant carries
/// the whole stream rendered as text.
#[derive(Debug, PartialEq, Clone)]
pub enum ValidationError {
    DivisionByZero(String),
    IncompleteExpression(String),
    InvalidDivisionRHS(String),
    InvalidWhitespace(String),
    InvalidVariable(String),
    InvalidNumber(String),
    InvalidSyntax(String),
    NoOperators(String),
    MismatchedParentheses(String),
    MultiplicationWithUnits(String),
}

/// The kinds of [`ValidationError`], without their text.
#[derive(Debug, Clone, Copy, PartialEq, Eq, Structural)]
pub enum ValidationKind {
    DivisionByZero,
    IncompleteExpression,
    InvalidDivisionRHS,
    InvalidWhitespace,
    InvalidVariable,
    InvalidNumber,
    InvalidSyntax,
    NoOperators,
    MismatchedParentheses,
    MultiplicationWithUnits,
}

impl ValidationError {
    pub open spec fn spec_kind(&self) -> ValidationKind {
        match self {
            ValidationError::DivisionByZero(_) => ValidationKind::DivisionByZero,
            ValidationError::IncompleteExpression(_) => ValidationKind::IncompleteExpression,
            ValidationError::InvalidDivisionRHS(_) => ValidationKind::InvalidDivisionRHS,
            ValidationError::InvalidWhitespace(_) => ValidationKind::InvalidWhitespace,
            ValidationError::InvalidVariable(_) => ValidationKind::InvalidVariable,
            ValidationError::InvalidNumber(_) => ValidationKind::InvalidNumber,
            ValidationError::InvalidSyntax(_) => ValidationKind::InvalidSyntax,
            ValidationError::NoOperators(_) => ValidationKind::NoOperators,
            ValidationError::MismatchedParentheses(_) => ValidationKind::MismatchedParentheses,
            ValidationError::MultiplicationWithUnits(_) => ValidationKind::MultiplicationWithUnits,
        }
    }

    pub open spec fn text(&self) -> Seq<char> {
        match self {
            ValidationError::DivisionByZero(s) => s@,
            ValidationError::IncompleteExpression(s) => s@,
            ValidationError::InvalidDivisionRHS(s) => s@,
            ValidationError::InvalidWhitespace(s) => s@,
            ValidationError::InvalidVariable(s) => s@,
            ValidationError::InvalidNumber(s) => s@,
            ValidationError::InvalidSyntax(s) => s@,
            ValidationError::NoOperators(s) => s@,
            ValidationError::MismatchedParentheses(s) => s@,
            ValidationError::MultiplicationWithUnits(s) => s@,
        }
    }

    /// The kind of this error.
    pub fn kind(&self) -> (k: ValidationKind)
        ensures
            k == self.spec_kind(),
    {
        match self {
            ValidationError::DivisionByZero(_) => ValidationKind::DivisionByZero,
            ValidationError::IncompleteExpression(_) => ValidationKind::IncompleteExpression,
            ValidationError::InvalidDivisionRHS(_) => ValidationKind::InvalidDivisionRHS,
            ValidationError::InvalidWhitespace(_) => ValidationKind::InvalidWhitespace,
            ValidationError::InvalidVariable(_) => ValidationKind::InvalidVariable,
            ValidationError::InvalidNumber(_) => ValidationKind::InvalidNumber,
            ValidationError::InvalidSyntax(_) => ValidationKind::InvalidSyntax,
            ValidationError::NoOperators(_) => ValidationKind::NoOperators,
            ValidationError::MismatchedParentheses(_) => ValidationKind::MismatchedParentheses,
            ValidationError::MultiplicationWithUnits(_) => ValidationKind::MultiplicationWithUnits,
        }
    }

    fn with_text(k: ValidationKind, s: String) -> (e: ValidationError)
        ensures
            e.spec_kind() == k,
            e.text() == s@,
    {
        match k {
            ValidationKind::DivisionByZero => ValidationError::DivisionByZero(s),
            ValidationKind::IncompleteExpression => ValidationError::IncompleteExpression(s),
            ValidationKind::InvalidDivisionRHS => ValidationError::InvalidDivisionRHS(s),
            ValidationKind::InvalidWhitespace => ValidationError::InvalidWhitespace(s),
            ValidationKind::InvalidVariable => ValidationError::InvalidVariable(s),
            ValidationKind::InvalidNumber => ValidationError::InvalidNumber(s),
            ValidationKind::InvalidSyntax => ValidationError::InvalidSyntax(s),
            ValidationKind::NoOperators => ValidationError::NoOperators(s),
            ValidationKind::MismatchedParentheses => ValidationError::MismatchedParentheses(s),
            ValidationKind::MultiplicationWithUnits => ValidationError::MultiplicationWithUnits(s),
        }
    }
}

/// The latest operator seen in a scope.
#[derive(Debug, Clone, Copy, PartialEq, Eq, Structural)]
pub enum OpClass {
    NoOperator,
    /// `+`, `-` or any other operator text: starts a new additive term.
    Additive,
    Multiply,
    Divide,
}

/// The kind of the previous token in a scope (whitespace aside).
#[derive(Debug, Clone, Copy, PartialEq, Eq, Structural)]
pub enum Prev {
    Start,
    Number,
    Unit,
    Variable,
    Operator,
    LeftParen,
    RightParen,
}

/// What the validator tracks for one parenthesis nesting level.
#[derive(Debug, Clone, Copy, PartialEq, Eq, Structural)]
pub struct Scope {
    pub op: OpClass,
    /// Whether a unit was seen in the current multiplicative run.
    pub unit_seen: bool,
    pub prev: Prev,
}

/// The previous raw token, whitespace included.
#[derive(Debug, Clone, Copy, PartialEq, Eq, Structural)]
pub enum Raw {
    Nothing,
    Space,
    Operator,
    Other,
}

/// The validator's state: the scope stack and the previous raw token.
pub struct CheckState {
    pub stack: Seq<Scope>,
    pub raw: Raw,
}

pub open spec fn fresh_scope() -> Scope {
    Scope { op: OpClass::NoOperator, unit_seen: false, prev: Prev::Start }
}

pub open spec fn initial_state() -> CheckState {
    CheckState { stack: seq![fresh_scope()], raw: Raw::Nothing }
}

pub open spec fn op_class(op: Seq<char>) -> OpClass {
    if op == seq!['/'] {
        OpClass::Divide
    } else if op == seq!['*'] {
        OpClass::Multiply
    } else {
        OpClass::Additive
    }
}

/// The effect of one non-whitespace token on the state.
pub open spec fn check_token(st: CheckState, t: Lexeme) -> Result<CheckState, ValidationKind> {
    let n = st.stack.len();
    let top = st.stack.last();
    if n == 0 {
        Err(ValidationKind::MismatchedParentheses)
    } else {
        match t {
            Lexeme::LeftParen => Ok(
                CheckState {
                    stack: st.stack.update(n - 1, Scope { prev: Prev::LeftParen, ..top }).push(
                        fresh_scope(),
                    ),
                    raw: Raw::Other,
                },
            ),
            Lexeme::RightParen => {
                if n <= 1 {
                    Err(ValidationKind::MismatchedParentheses)
                } else {
                    let rest = st.stack.drop_last();
                    Ok(
                        CheckState {
                            stack: rest.update(n - 2, Scope { prev: Prev::RightParen, ..rest.last() }),
                            raw: Raw::Other,
                        },
                    )
                }
            },
            Lexeme::Operator(op) => {
                if top.prev == Prev::Start {
                    Err(ValidationKind::InvalidSyntax)
                } else if st.raw != Raw::Space {
                    Err(ValidationKind::InvalidWhitespace)
                } else {
                    let c = op_class(op);
                    let unit_seen = if c == OpClass::Additive {
                        false
                    } else {
                        top.unit_seen
                    };
                    Ok(
                        CheckState {
                            stack: st.stack.update(
                                n - 1,
                                Scope { op: c, unit_seen: unit_seen, prev: Prev::Operator },
                            ),
                            raw: Raw::Operator,
                        },
                    )
                }
            },
            Lexeme::Unit(_) => {
                if top.prev != Prev::Number || st.raw == Raw::Space {
                    Err(ValidationKind::InvalidSyntax)
                } else if top.op == OpClass::Divide {
                    Err(ValidationKind::InvalidDivisionRHS)
                } else if top.op == OpClass::Multiply && top.unit_seen {
                    Err(ValidationKind::MultiplicationWithUnits)
                } else {
                    Ok(
                        CheckState {
                            stack: st.stack.update(
                                n - 1,
                                Scope { unit_seen: true, prev: Prev::Unit, ..top },
                            ),
                            raw: Raw::Other,
                        },
                    )
                }
            },
            Lexeme::Number(num) => {
                if top.prev != Prev::Start && top.prev != Prev::Operator {
                    Err(ValidationKind::InvalidSyntax)
                } else if top.op == OpClass::Divide && num == seq!['0'] {
                    Err(ValidationKind::DivisionByZero)
                } else if ends_with_char(num, '.') {
                    Err(ValidationKind::InvalidNumber)
                } else {
                    Ok(
                        CheckState {
                            stack: st.stack.update(n - 1, Scope { prev: Prev::Number, ..top }),
                            raw: Raw::Other,
                        },
                    )
                }
            },
            Lexeme::Variable(v) => {
                if top.prev != Prev::Start && top.prev != Prev::Operator {
                    Err(ValidationKind::InvalidSyntax)
                } else if !(starts_with(v, var_prefix()) && ends_with_char(v, ')')) {
                    Err(ValidationKind::InvalidVariable)
                } else {
                    Ok(
                        CheckState {
                            stack: st.stack.update(n - 1, Scope { prev: Prev::Variable, ..top }),
                            raw: Raw::Other,
                        },
                    )
                }
            },
            Lexeme::Whitespace => Ok(st),
        }
    }
}

/// The effect of one token on the state: a space may not follow a space, and an operator
/// must be followed by one.
pub open spec fn check_step(st: CheckState, t: Lexeme) -> Result<CheckState, ValidationKind> {
    if t is Whitespace {
        if st.raw == Raw::Space {
            Err(ValidationKind::InvalidWhitespace)
        } else {
            Ok(CheckState { raw: Raw::Space, ..st })
        }
    } else if st.raw == Raw::Operator {
        Err(ValidationKind::InvalidWhitespace)
    } else {
        check_token(st, t)
    }
}

/// The state after all of `t`, or the first failure.
pub open spec fn run(t: Seq<Lexeme>) -> Result<CheckState, ValidationKind>
    decreases t.len(),
{
    if t.len() == 0 {
        Ok(initial_state())
    } else {
        match run(t.drop_last()) {
            Ok(st) => check_step(st, t.last()),
            Err(k) => Err(k),
        }
    }
}

pub open spec fn count_left(t: Seq<Lexeme>) -> nat
    decreases t.len(),
{
    if t.len() == 0 {
        0
    } else {
        count_left(t.drop_last()) + if t.last() is LeftParen {
            1nat
        } else {
            0nat
        }
    }
}

pub open spec fn count_right(t: Seq<Lexeme>) -> nat
    decreases t.len(),
{
    if t.len() == 0 {
        0
    } else {
        count_right(t.drop_last()) + if t.last() is RightParen {
            1nat
        } else {
            0nat
        }
    }
}

pub open spec fn has_operator(t: Seq<Lexeme>) -> bool {
    exists|i: int| 0 <= i < t.len() && t[i] is Operator
}

/// The verdict on a token stream: `None` when it is an acceptable expression.
pub open spec fn validation_outcome(t: Seq<Lexeme>) -> Option<ValidationKind> {
    if count_left(t) != count_right(t) {
        Some(ValidationKind::MismatchedParentheses)
    } else if !has_operator(t) {
        Some(ValidationKind::NoOperators)
    } else {
        match run(t) {
            Err(k) => Some(k),
            Ok(st) => if st.stack.len() != 1 || st.stack[0].prev == Prev::Operator {
                Some(ValidationKind::IncompleteExpression)
            } else {
                None
            },
        }
    }
}

pub open spec fn render_one(t: Lexeme) -> Seq<char> {
    match t {
        Lexeme::Number(s) => s,
        Lexeme::Unit(s) => s,
        Lexeme::Variable(s) => s,
        Lexeme::Operator(s) => seq![' '] + s + seq![' '],
        Lexeme::LeftParen => seq!['('],
        Lexeme::RightParen => seq![')'],
        Lexeme::Whitespace => seq![],
    }
}

/// A token stream as text, for diagnostics: operators get one space on each side and
/// whitespace tokens are left out.
pub open spec fn render(t: Seq<Lexeme>) -> Seq<char>
    decreases t.len(),
{
    if t.len() == 0 {
        seq![]
    } else {
        render(t.drop_last()) + render_one(t.last())
    }
}

proof fn lemma_prefix_step(t: Seq<Lexeme>, i: int)
    requires
        0 <= i < t.len(),
    ensures
        t.subrange(0, i + 1).drop_last() == t.subrange(0, i),
        t.subrange(0, i + 1).last() == t[i],
{
    assert(t.subrange(0, i + 1).drop_last() =~= t.subrange(0, i));
}

proof fn lemma_run_error_stays(t: Seq<Lexeme>, i: int)
    requires
        0 <= i <= t.len(),
        run(t.subrange(0, i)) is Err,
    ensures
        run(t) == run(t.subrange(0, i)),
    decreases t.len() - i,
{
    if i == t.len() {
        assert(t.subrange(0, i) =~= t);
    } else {
        lemma_prefix_step(t, i);
        lemma_run_error_stays(t, i + 1);
    }
}

fn render_exec(t: &[Token]) -> (r: String)
    ensures
        r@ == render(lexemes(t@)),
{
    let ghost ls = lexemes(t@);
    let mut r = String::new();
    let mut i: usize = 0;
    while i < t.len()
        invariant
            i <= t@.len(),
            ls == lexemes(t@),
            r@ == render(ls.subrange(0, i as int)),
        decreases t@.len() - i,
    {
        proof {
            lemma_prefix_step(ls, i as int);
        }
        match &t[i] {
            Token::Number(s) => push_str(&mut r, s.as_str()),
            Token::Unit(s) => push_str(&mut r, s.as_str()),
            Token::Variable(s) => push_str(&mut r, s.as_str()),
            Token::Operator(s) => {
                push_str(&mut r, " ");
                push_str(&mut r, s.as_str());
                push_str(&mut r, " ");
                proof {
                    reveal_strlit(" ");
                }
            },
            Token::LeftParen => {
                push_str(&mut r, "(");
                proof {
                    reveal_strlit("(");
                }
            },
            Token::RightParen => {
                push_str(&mut r, ")");
                proof {
                    reveal_strlit(")");
                }
            },
            Token::Whitespace => {},
        }
        proof {
            assert(r@ =~= render(ls.subrange(0, i + 1)));
        }
        i = i + 1;
    }
    assert(ls.subrange(0, t@.len() as int) =~= ls);
    r
}

fn op_class_of(op: &String) -> (c: OpClass)
    ensures
        c == op_class(op@),
{
    if str_is_char(op.as_str(), '/') {
        OpClass::Divide
    } else if str_is_char(op.as_str(), '*') {
        OpClass::Multiply
    } else {
        OpClass::Additive
    }
}

/// One step of the validator on the state held in `stack` and `raw`.
fn step_exec(stack: &mut Vec<Scope>, raw: &mut Raw, t: &Token) -> (r: Result<(), ValidationKind>)
    ensures
        match check_step(CheckState { stack: old(stack)@, raw: *old(raw) }, t@) {
            Ok(st) => r is Ok && final(stack)@ == st.stack && *final(raw) == st.raw,
            Err(k) => r == Err::<(), ValidationKind>(k),
        },
{
    if let Token::Whitespace = t {
        if *raw == Raw::Space {
            return Err(ValidationKind::InvalidWhitespace);
        }
        *raw = Raw::Space;
        return Ok(());
    }
    if *raw == Raw::Operator {
        return Err(ValidationKind::InvalidWhitespace);
    }
    let n = stack.len();
    if n == 0 {
        return Err(ValidationKind::MismatchedParentheses);
    }
    let top = stack[n - 1];
    match t {
        Token::LeftParen => {
            stack.set(n - 1, Scope { prev: Prev::LeftParen, ..top });
            stack.push(Scope { op: OpClass::NoOperator, unit_seen: false, prev: Prev::Start });
            *raw = Raw::Other;
            Ok(())
        },
        Token::RightParen => {
            if n <= 1 {
                return Err(ValidationKind::MismatchedParentheses);
            }
            stack.pop();
            let below = stack[n - 2];
            stack.set(n - 2, Scope { prev: Prev::RightParen, ..below });
            *raw = Raw::Other;
            Ok(())
        },
        Token::Operator(op) => {
            if top.prev == Prev::Start {
                return Err(ValidationKind::InvalidSyntax);
            }
            if *raw != Raw::Space {
                return Err(ValidationKind::InvalidWhitespace);
            }
            let c = op_class_of(op);
            let unit_seen = if c == OpClass::Additive {
                false
            } else {
                top.unit_seen
            };
            stack.set(n - 1, Scope { op: c, unit_seen: unit_seen, prev: Prev::Operator });
            *raw = Raw::Operator;
            Ok(())
        },
        Token::Unit(_) => {
            if top.prev != Prev::Number || *raw == Raw::Space {
                return Err(ValidationKind::InvalidSyntax);
            }
            if top.op == OpClass::Divide {
                return Err(ValidationKind::InvalidDivisionRHS);
            }
            if top.op == OpClass::Multiply && top.unit_seen {
                return Err(ValidationKind::MultiplicationWithUnits);
            }
            stack.set(n - 1, Scope { unit_seen: true, prev: Prev::Unit, ..top });
            *raw = Raw::Other;
            Ok(())
        },
        Token::Number(num) => {
            if top.prev != Prev::Start && top.prev != Prev::Operator {
                return Err(ValidationKind::InvalidSyntax);
            }
            if top.op == OpClass::Divide && str_is_char(num.as_str(), '0') {
                return Err(ValidationKind::DivisionByZero);
            }
            if str_ends_with_char(num.as_str(), '.') {
                return Err(ValidationKind::InvalidNumber);
            }
            stack.set(n - 1, Scope { prev: Prev::Number, ..top });
            *raw = Raw::Other;
            Ok(())
        },
        Token::Variable(v) => {
            if top.prev != Prev::Start && top.prev != Prev::Operator {
                return Err(ValidationKind::InvalidSyntax);
            }
            let ok = str_starts_with(v.as_str(), "var(--") && str_ends_with_char(v.as_str(), ')');
            proof {
                reveal_strlit("var(--");
                assert("var(--"@ =~= var_prefix());
            }
            if !ok {
                return Err(ValidationKind::InvalidVariable);
            }
            stack.set(n - 1, Scope { prev: Prev::Variable, ..top });
            *raw = Raw::Other;
            Ok(())
        },
        Token::Whitespace => Ok(()),
    }
}

/// Checks a token stream against the CSS arithmetic grammar: balanced parentheses, at
/// least one operator, operands and operators in turn within each parenthesis level, a
/// single space around each operator, units only right after a number, no unit on the right
/// of a division, no second unit in a multiplication, no division by a literal `0`, no
/// number ending in `.`, and no operator at the end.
pub fn validator(t: &[Token]) -> (r: Result<(), ValidationError>)
    ensures
        match validation_outcome(lexemes(t@)) {
            None => r is Ok,
            Some(k) => r is Err && r->Err_0.spec_kind() == k && r->Err_0.text() == render(
                lexemes(t@),
            ),
        },
{
    let ghost ls = lexemes(t@);
    let mut lefts: usize = 0;
    let mut rights: usize = 0;
    let mut any_operator = false;
    let mut i: usize = 0;
    while i < t.len()
        invariant
            i <= t@.len(),
            ls == lexemes(t@),
            lefts == count_left(ls.subrange(0, i as int)),
            rights == count_right(ls.subrange(0, i as int)),
            lefts <= i,
            rights <= i,
            any_operator == exists|j: int| 0 <= j < i && ls[j] is Operator,
        decreases t@.len() - i,
    {
        proof {
            lemma_prefix_step(ls, i as int);
        }
        match &t[i] {
            Token::LeftParen => lefts = lefts + 1,
            Token::RightParen => rights = rights + 1,
            Token::Operator(_) => any_operator = true,
            _ => {},
        }
        i = i + 1;
    }
    assert(ls.subrange(0, t@.len() as int) =~= ls);
    if lefts != rights {
        return Err(ValidationError::with_text(ValidationKind::MismatchedParentheses, render_exec(t)));
    }
    if !any_operator {
        return Err(ValidationError::with_text(ValidationKind::NoOperators, render_exec(t)));
    }
    let mut stack: Vec<Scope> = vec![Scope { op: OpClass::NoOperator, unit_seen: false, prev: Prev::Start }];
    let mut raw = Raw::Nothing;
    assert(stack@ =~= seq![fresh_scope()]);
    assert(ls.subrange(0, 0) =~= Seq::<Lexeme>::empty());
    let mut i: usize = 0;
    while i < t.len()
        invariant
            i <= t@.len(),
            ls == lexemes(t@),
            run(ls.subrange(0, i as int)) == Ok::<CheckState, ValidationKind>(CheckState { stack: stack@, raw: raw }),
            count_left(ls) == count_right(ls),
            has_operator(ls),
        decreases t@.len() - i,
    {
        proof {
            lemma_prefix_step(ls, i as int);
        }
        assert(ls[i as int] == t@[i as int]@);
        match step_exec(&mut stack, &mut raw, &t[i]) {
            Ok(()) => {},
            Err(k) => {
                proof {
                    assert(run(ls.subrange(0, i + 1)) == Err::<CheckState, ValidationKind>(k));
                    lemma_run_error_stays(ls, i + 1);
                }
                return Err(ValidationError::with_text(k, render_exec(t)));
            },
        }
        i = i + 1;
    }
    if stack.len() != 1 || stack[0].prev == Prev::Operator {
        return Err(ValidationError::with_text(ValidationKind::IncompleteExpression, render_exec(t)));
    }
    Ok(())
}

/// Whether a token stream is an acceptable CSS arithmetic expression.
pub fn validate(t: &[Token]) -> (r: bool)
    ensures
        r == (validation_outcome(lexemes(t@)) is None),
{
    validator(t).is_ok()
}

} // verus!
