use vstd::prelude::*;

use crate::css_math::token::{lexemes, Lexeme, Token};
use crate::text::{starts_with, ends_with_char, string_of_range, chars_of};

verus! {

/// A tokenization failure.
#[derive(Debug, PartialEq, Clone)]
pub enum TokenizationError {
    /// A character that cannot begin any token.
    UnrecognizedCharacter(char),
    /// Text that began like `var` but is not of the form `var(--...)`.
    InvalidVariable(String),
}

/// The mathematical value of a [`TokenizationError`].
pub enum TokenizationFailure {
    UnrecognizedCharacter(char),
    InvalidVariable(Seq<char>),
}

impl View for TokenizationError {
    type V = TokenizationFailure;

    open spec fn view(&self) -> TokenizationFailure {
        match self {
            TokenizationError::UnrecognizedCharacter(c) => TokenizationFailure::UnrecognizedCharacter(*c),
            TokenizationError::InvalidVariable(s) => TokenizationFailure::InvalidVariable(s@),
        }
    }
}

/// The classes of characters that the tokenizer reads in runs.
#[derive(Clone, Copy, PartialEq, Eq)]
pub enum CharClass {
    /// Digits and `.`.
    NumberChar,
    /// Letters and `%`.
    UnitChar,
    /// Letters, digits and `)`: what follows `--` inside `var(`.
    VariableChar,
}

pub open spec fn is_digit(c: char) -> bool {
    '0' <= c && c <= '9'
}

pub open spec fn is_letter(c: char) -> bool {
    ('a' <= c && c <= 'z') || ('A' <= c && c <= 'Z')
}

pub open spec fn in_class(k: CharClass, c: char) -> bool {
    match k {
        CharClass::NumberChar => is_digit(c) || c == '.',
        CharClass::UnitChar => is_letter(c) || c == '%',
        CharClass::VariableChar => is_letter(c) || is_digit(c) || c == ')',
    }
}

/// The end of the run of characters of class `k` that starts at `i`.
pub open spec fn scan(s: Seq<char>, i: int, k: CharClass) -> int
    decreases s.len() - i,
{
    if 0 <= i < s.len() && in_class(k, s[i]) {
        scan(s, i + 1, k)
    } else {
        i
    }
}

pub proof fn lemma_scan(s: Seq<char>, i: int, k: CharClass)
    requires
        0 <= i <= s.len(),
    ensures
        i <= scan(s, i, k) <= s.len(),
        forall|j: int| i <= j < scan(s, i, k) ==> in_class(k, #[trigger] s[j]),
        scan(s, i, k) < s.len() ==> !in_class(k, s[scan(s, i, k)]),
    decreases s.len() - i,
{
    if i < s.len() && in_class(k, s[i]) {
        lemma_scan(s, i + 1, k);
    }
}

/// The end of the `--name` segments of a variable, the first of which starts at `p`.
pub open spec fn var_tail(s: Seq<char>, p: int) -> int
    decreases s.len() - p,
{
    if 0 <= p < s.len() && s[p] == '-' {
        let q = scan(s, p + 1, CharClass::VariableChar);
        proof {
            lemma_scan(s, p + 1, CharClass::VariableChar);
        }
        var_tail(s, q)
    } else {
        p
    }
}

pub proof fn lemma_var_tail(s: Seq<char>, p: int)
    requires
        0 <= p <= s.len(),
    ensures
        p <= var_tail(s, p) <= s.len(),
    decreases s.len() - p,
{
    if p < s.len() && s[p] == '-' {
        lemma_scan(s, p + 1, CharClass::VariableChar);
        lemma_var_tail(s, scan(s, p + 1, CharClass::VariableChar));
    }
}

pub open spec fn var_prefix() -> Seq<char> {
    seq!['v', 'a', 'r', '(', '-', '-']
}

/// The token that starts with a letter or `%` at `i`: a unit, or a variable when the
/// letters begin with `var`.
pub open spec fn word_step(s: Seq<char>, i: int) -> (Option<Result<Lexeme, TokenizationFailure>>, int) {
    let j = scan(s, i, CharClass::UnitChar);
    let w = s.subrange(i, j);
    if starts_with(w, seq!['v', 'a', 'r']) {
        let k = if j < s.len() && s[j] == '(' {
            var_tail(s, j + 1)
        } else {
            j
        };
        let v = s.subrange(i, k);
        if starts_with(v, var_prefix()) && ends_with_char(v, ')') {
            (Some(Ok(Lexeme::Variable(v))), k)
        } else {
            (Some(Err(TokenizationFailure::InvalidVariable(v))), k)
        }
    } else {
        (Some(Ok(Lexeme::Unit(w))), j)
    }
}

/// One step of the tokenizer at position `i`: the item produced (none at the end of the
/// input) and the position after it.
pub open spec fn step(s: Seq<char>, i: int) -> (Option<Result<Lexeme, TokenizationFailure>>, int) {
    if i < 0 || i >= s.len() {
        (None, i)
    } else {
        let c = s[i];
        if in_class(CharClass::NumberChar, c) {
            let j = scan(s, i, CharClass::NumberChar);
            (Some(Ok(Lexeme::Number(s.subrange(i, j)))), j)
        } else if in_class(CharClass::UnitChar, c) {
            word_step(s, i)
        } else if c == '+' || c == '*' || c == '/' {
            (Some(Ok(Lexeme::Operator(seq![c]))), i + 1)
        } else if c == '-' {
            if i + 1 < s.len() && is_digit(s[i + 1]) {
                let j = scan(s, i + 1, CharClass::NumberChar);
                (Some(Ok(Lexeme::Number(s.subrange(i, j)))), j)
            } else {
                (Some(Ok(Lexeme::Operator(seq!['-']))), i + 1)
            }
        } else if c == ' ' {
            (Some(Ok(Lexeme::Whitespace)), i + 1)
        } else if c == '(' {
            (Some(Ok(Lexeme::LeftParen)), i + 1)
        } else if c == ')' {
            (Some(Ok(Lexeme::RightParen)), i + 1)
        } else {
            (Some(Err(TokenizationFailure::UnrecognizedCharacter(c))), i)
        }
    }
}

pub proof fn lemma_step(s: Seq<char>, i: int)
    requires
        0 <= i < s.len(),
    ensures
        step(s, i).0 is Some,
        step(s, i).0.unwrap() is Ok ==> i < step(s, i).1 <= s.len(),
        step(s, i).0.unwrap() is Err ==> i <= step(s, i).1 <= s.len(),
{
    lemma_scan(s, i, CharClass::NumberChar);
    lemma_scan(s, i, CharClass::UnitChar);
    if i + 1 < s.len() {
        lemma_scan(s, i + 1, CharClass::NumberChar);
    }
    let j = scan(s, i, CharClass::UnitChar);
    if j < s.len() {
        lemma_var_tail(s, j + 1);
    }
}

/// The tokens of `s` from position `i` on, or the first failure.
pub open spec fn lex(s: Seq<char>, i: int) -> Result<Seq<Lexeme>, TokenizationFailure>
    decreases s.len() - i,
{
    if i < 0 || i >= s.len() {
        Ok(seq![])
    } else {
        let (item, j) = step(s, i);
        match item {
            Some(Ok(t)) => {
                if i < j <= s.len() {
                    match lex(s, j) {
                        Ok(rest) => Ok(seq![t] + rest),
                        Err(e) => Err(e),
                    }
                } else {
                    Ok(seq![])
                }
            },
            Some(Err(e)) => Err(e),
            None => Ok(seq![]),
        }
    }
}

/// The tokens of `s`, or the first failure.
pub open spec fn tokens_of(s: Seq<char>) -> Result<Seq<Lexeme>, TokenizationFailure> {
    lex(s, 0)
}

pub open spec fn item_view(r: Option<Result<Token, TokenizationError>>) -> Option<Result<Lexeme, TokenizationFailure>> {
    match r {
        Some(Ok(t)) => Some(Ok(t@)),
        Some(Err(e)) => Some(Err(e@)),
        None => None,
    }
}

/// Reads a CSS arithmetic expression one token at a time.
pub struct Tokenizer {
    chars: Vec<char>,
    pos: usize,
}

impl Tokenizer {
    /// The whole input.
    pub closed spec fn text(&self) -> Seq<char> {
        self.chars@
    }

    /// The position of the next character to read.
    pub closed spec fn position(&self) -> int {
        self.pos as int
    }

    pub closed spec fn wf(&self) -> bool {
        self.pos <= self.chars@.len()
    }

    pub fn new(input: &str) -> (r: Tokenizer)
        ensures
            r.wf(),
            r.text() == input@,
            r.position() == 0,
    {
        Tokenizer { chars: chars_of(input), pos: 0 }
    }

    fn in_class_at(&self, i: usize, k: CharClass) -> (r: bool)
        requires
            i < self.chars@.len(),
        ensures
            r == in_class(k, self.chars@[i as int]),
    {
        let c = self.chars[i];
        match k {
            CharClass::NumberChar => ('0' <= c && c <= '9') || c == '.',
            CharClass::UnitChar => ('a' <= c && c <= 'z') || ('A' <= c && c <= 'Z') || c == '%',
            CharClass::VariableChar => ('a' <= c && c <= 'z') || ('A' <= c && c <= 'Z') || ('0' <= c
                && c <= '9') || c == ')',
        }
    }

    /// The end of the run of characters of class `k` that starts at `i`.
    fn scan_from(&self, i: usize, k: CharClass) -> (j: usize)
        requires
            i <= self.chars@.len(),
        ensures
            j == scan(self.chars@, i as int, k),
    {
        let n = self.chars.len();
        let mut j = i;
        while j < n && self.in_class_at(j, k)
            invariant
                i <= j <= n,
                n == self.chars@.len(),
                scan(self.chars@, i as int, k) == scan(self.chars@, j as int, k),
            decreases n - j,
        {
            j = j + 1;
        }
        j
    }

    fn var_tail_from(&self, p: usize) -> (q: usize)
        requires
            p <= self.chars@.len(),
        ensures
            q == var_tail(self.chars@, p as int),
    {
        let n = self.chars.len();
        let mut q = p;
        while q < n && self.chars[q] == '-'
            invariant
                p <= q <= n,
                n == self.chars@.len(),
                var_tail(self.chars@, p as int) == var_tail(self.chars@, q as int),
            decreases n - q,
        {
            proof {
                lemma_scan(self.chars@, q + 1, CharClass::VariableChar);
            }
            q = self.scan_from(q + 1, CharClass::VariableChar);
        }
        q
    }

    /// Whether `chars[from..to]` begins with `p`.
    fn range_starts_with(&self, from: usize, to: usize, p: &Vec<char>) -> (r: bool)
        requires
            from <= to <= self.chars@.len(),
        ensures
            r == starts_with(self.chars@.subrange(from as int, to as int), p@),
    {
        if p.len() > to - from {
            return false;
        }
        let mut k: usize = 0;
        while k < p.len()
            invariant
                k <= p@.len() <= to - from,
                from <= to <= self.chars@.len(),
                forall|j: int| 0 <= j < k ==> self.chars@.subrange(from as int, to as int)[j] == p@[j],
            decreases p@.len() - k,
        {
            if self.chars[from + k] != p[k] {
                return false;
            }
            k = k + 1;
        }
        true
    }

    fn next_word(&mut self) -> (r: Option<Result<Token, TokenizationError>>)
        requires
            old(self).wf(),
            old(self).pos < old(self).chars@.len(),
        ensures
            final(self).wf(),
            final(self).chars@ == old(self).chars@,
            item_view(r) == word_step(old(self).chars@, old(self).pos as int).0,
            final(self).pos == word_step(old(self).chars@, old(self).pos as int).1,
    {
        let i = self.pos;
        let n = self.chars.len();
        proof {
            lemma_scan(self.chars@, i as int, CharClass::UnitChar);
        }
        let j = self.scan_from(i, CharClass::UnitChar);
        let var_word = vec!['v', 'a', 'r'];
        assert(var_word@ =~= seq!['v', 'a', 'r']);
        if self.range_starts_with(i, j, &var_word) {
            let k = if j < n && self.chars[j] == '(' {
                proof {
                    lemma_var_tail(self.chars@, j + 1);
                }
                self.var_tail_from(j + 1)
            } else {
                j
            };
            let var_start = vec!['v', 'a', 'r', '(', '-', '-'];
            assert(var_start@ =~= var_prefix());
            let text = string_of_range(&self.chars, i, k);
            self.pos = k;
            if self.range_starts_with(i, k, &var_start) && k > i && self.chars[k - 1] == ')' {
                Some(Ok(Token::Variable(text)))
            } else {
                Some(Err(TokenizationError::InvalidVariable(text)))
            }
        } else {
            self.pos = j;
            Some(Ok(Token::Unit(string_of_range(&self.chars, i, j))))
        }
    }

    /// Reads the next token; `None` at the end of the input. After an unrecognized character
    /// the position stays where it was.
    pub fn next(&mut self) -> (r: Option<Result<Token, TokenizationError>>)
        requires
            old(self).wf(),
        ensures
            final(self).wf(),
            final(self).text() == old(self).text(),
            item_view(r) == step(old(self).text(), old(self).position()).0,
            final(self).position() == step(old(self).text(), old(self).position()).1,
    {
        let i = self.pos;
        let n = self.chars.len();
        if i >= n {
            return None;
        }
        let c = self.chars[i];
        if self.in_class_at(i, CharClass::NumberChar) {
            proof {
                lemma_scan(self.chars@, i as int, CharClass::NumberChar);
            }
            let j = self.scan_from(i, CharClass::NumberChar);
            self.pos = j;
            Some(Ok(Token::Number(string_of_range(&self.chars, i, j))))
        } else if self.in_class_at(i, CharClass::UnitChar) {
            self.next_word()
        } else if c == '+' || c == '*' || c == '/' {
            self.pos = i + 1;
            let op = string_of_range(&self.chars, i, i + 1);
            assert(op@ =~= seq![c]);
            Some(Ok(Token::Operator(op)))
        } else if c == '-' {
            if i + 1 < n && '0' <= self.chars[i + 1] && self.chars[i + 1] <= '9' {
                proof {
                    lemma_scan(self.chars@, i + 1, CharClass::NumberChar);
                }
                let j = self.scan_from(i + 1, CharClass::NumberChar);
                self.pos = j;
                Some(Ok(Token::Number(string_of_range(&self.chars, i, j))))
            } else {
                self.pos = i + 1;
                let op = string_of_range(&self.chars, i, i + 1);
                assert(op@ =~= seq!['-']);
                Some(Ok(Token::Operator(op)))
            }
        } else if c == ' ' {
            self.pos = i + 1;
            Some(Ok(Token::Whitespace))
        } else if c == '(' {
            self.pos = i + 1;
            Some(Ok(Token::LeftParen))
        } else if c == ')' {
            self.pos = i + 1;
            Some(Ok(Token::RightParen))
        } else {
            Some(Err(TokenizationError::UnrecognizedCharacter(c)))
        }
    }
}

/// Splits a CSS arithmetic expression into tokens; fails on the first malformed one.
pub fn tokenize(input: &str) -> (r: Result<Vec<Token>, TokenizationError>)
    ensures
        match tokens_of(input@) {
            Ok(ts) => r is Ok && lexemes(r->Ok_0@) == ts,
            Err(e) => r is Err && r->Err_0@ == e,
        },
{
    let mut tokenizer = Tokenizer::new(input);
    let mut out: Vec<Token> = Vec::new();
    loop
        invariant
            tokenizer.wf(),
            tokenizer.text() == input@,
            0 <= tokenizer.position() <= input@.len(),
            lex(input@, 0) == match lex(input@, tokenizer.position()) {
                Ok(rest) => Ok(lexemes(out@) + rest),
                Err(e) => Err(e),
            },
        decreases input@.len() - tokenizer.position(),
    {
        let ghost s = input@;
        let ghost i = tokenizer.position();
        proof {
            if i < s.len() {
                lemma_step(s, i);
            }
        }
        match tokenizer.next() {
            None => {
                assert(lexemes(out@) + seq![] =~= lexemes(out@));
                return Ok(out);
            },
            Some(Err(e)) => {
                return Err(e);
            },
            Some(Ok(t)) => {
                let ghost before = out@;
                out.push(t);
                proof {
                    assert(lexemes(out@) =~= lexemes(before).push(t@));
                    match lex(s, tokenizer.position()) {
                        Ok(rest) => {
                            assert(lexemes(before) + (seq![t@] + rest) =~= lexemes(out@) + rest);
                        },
                        Err(_) => {},
                    }
                }
            },
        }
    }
}

} // verus!
