//! The lexer: from a text to its tokens.

use vstd::prelude::*;

use crate::error::{Error, ErrorView};
use crate::float::{
    ask, digits_only, float_shape, is_float_unit, literal_value, model_of, ArithmeticOp,
    Float, FloatModel, FloatRequest,
};
use crate::operator::{BinaryOp, ComparisonOp, LogicOp, UnaryOp};
use crate::text::{characters, text_between};

verus! {

/// One lexical unit of an expression.
#[derive(Clone, Debug, PartialEq)]
pub enum Token {
    Int(i64),
    Float(Float),
    Boolean(bool),
    String(String),
    Identifier(String),
    /// An operator between two operands.
    Binary(BinaryOp),
    /// An operator in front of its operand.
    Unary(UnaryOp),
    LeftParenthesis,
    RightParenthesis,
    Comma,
    /// A single `=`. The grammar of expressions has no place for it.
    Assign,
}

/// The mathematical content of a [`Token`].
pub enum TokenView {
    Int(int),
    Float(Float),
    Boolean(bool),
    String(Seq<char>),
    Identifier(Seq<char>),
    Binary(BinaryOp),
    Unary(UnaryOp),
    LeftParenthesis,
    RightParenthesis,
    Comma,
    Assign,
}

impl View for Token {
    type V = TokenView;

    open spec fn view(&self) -> TokenView {
        match self {
            Token::Int(i) => TokenView::Int(*i as int),
            Token::Float(f) => TokenView::Float(*f),
            Token::Boolean(b) => TokenView::Boolean(*b),
            Token::String(s) => TokenView::String(s@),
            Token::Identifier(s) => TokenView::Identifier(s@),
            Token::Binary(op) => TokenView::Binary(*op),
            Token::Unary(op) => TokenView::Unary(*op),
            Token::LeftParenthesis => TokenView::LeftParenthesis,
            Token::RightParenthesis => TokenView::RightParenthesis,
            Token::Comma => TokenView::Comma,
            Token::Assign => TokenView::Assign,
        }
    }
}

impl TokenView {
    /// Whether an operand can end with this token: a literal, an identifier
    /// or a closing parenthesis. A `+` or `-` behind such a token stands
    /// between two operands; anywhere else it is a sign.
    pub open spec fn ends_operand(self) -> bool {
        match self {
            TokenView::Int(_)
            | TokenView::Float(_)
            | TokenView::Boolean(_)
            | TokenView::String(_)
            | TokenView::Identifier(_)
            | TokenView::RightParenthesis => true,
            _ => false,
        }
    }
}

impl Token {
    /// Whether an operand can end with this token.
    pub fn closes_operand(&self) -> (r: bool)
        ensures
            r == self@.ends_operand(),
    {
        match self {
            Token::Int(_)
            | Token::Float(_)
            | Token::Boolean(_)
            | Token::String(_)
            | Token::Identifier(_)
            | Token::RightParenthesis => true,
            _ => false,
        }
    }
}

/// The contents of a sequence of tokens.
pub open spec fn token_views(tokens: Seq<Token>) -> Seq<TokenView> {
    Seq::new(tokens.len(), |i: int| tokens[i]@)
}

/// The content of what the lexer returns.
pub open spec fn tokens_view(r: Result<Vec<Token>, Error>) -> Result<Seq<TokenView>, ErrorView> {
    match r {
        Ok(tokens) => Ok(token_views(tokens@)),
        Err(e) => Err(e@),
    }
}

/// Whether a character separates tokens without being one.
pub open spec fn is_space(c: char) -> bool {
    c == ' ' || c == '\t' || c == '\n' || c == '\r'
}

/// Whether a character is a decimal digit.
pub open spec fn is_digit(c: char) -> bool {
    '0' <= c <= '9'
}

/// Whether an identifier can start with this character.
pub open spec fn is_letter(c: char) -> bool {
    'a' <= c <= 'z' || 'A' <= c <= 'Z' || c == '_'
}

/// Whether an identifier can go on with this character.
pub open spec fn is_word(c: char) -> bool {
    is_letter(c) || is_digit(c)
}

/// The first place at or behind `from` where `s` has no digit.
pub open spec fn digits_end(s: Seq<char>, from: int) -> int
    decreases s.len() - from,
{
    if 0 <= from < s.len() && is_digit(s[from]) {
        digits_end(s, from + 1)
    } else {
        from
    }
}

/// The first place at or behind `from` where `s` has no character of an identifier.
pub open spec fn word_end(s: Seq<char>, from: int) -> int
    decreases s.len() - from,
{
    if 0 <= from < s.len() && is_word(s[from]) {
        word_end(s, from + 1)
    } else {
        from
    }
}

/// The number that the decimal digits of `s` from `from` up to `to` denote.
pub open spec fn decimal_value(s: Seq<char>, from: int, to: int) -> nat
    decreases to - from,
{
    if to <= from {
        0
    } else {
        (decimal_value(s, from, to - 1) * 10 + (s[to - 1] as int - '0' as int)) as nat
    }
}

/// Where the parts of the number that starts at `pos` end: the digits
/// before the decimal point, the fraction, the mark and sign of the
/// exponent, and the exponent's digits.
pub struct NumberShape {
    pub whole_end: int,
    pub fraction_end: int,
    pub exponent_start: int,
    pub end: int,
}

/// The shape of the number that starts at `pos`.
pub open spec fn number_shape(s: Seq<char>, pos: int) -> NumberShape {
    let whole_end = digits_end(s, pos);
    let fraction_end = if whole_end < s.len() && s[whole_end] == '.' {
        digits_end(s, whole_end + 1)
    } else {
        whole_end
    };
    let marked = fraction_end < s.len() && (s[fraction_end] == 'e' || s[fraction_end] == 'E');
    let exponent_start = if !marked {
        fraction_end
    } else if fraction_end + 1 < s.len() && (s[fraction_end + 1] == '+' || s[fraction_end + 1] == '-') {
        fraction_end + 2
    } else {
        fraction_end + 1
    };
    let end = if marked {
        digits_end(s, exponent_start)
    } else {
        fraction_end
    };
    NumberShape { whole_end, fraction_end, exponent_start, end }
}

/// The number that starts at `pos`, where `s` has a digit, and the place
/// behind it. Digits alone are an integer. Digits with a decimal point or
/// an exponent are read by the host's arithmetic. An exponent without
/// digits, a second decimal point and an integer beyond 64 bits are errors.
pub open spec fn number_token(
    floats: FloatModel,
    s: Seq<char>,
    pos: int,
) -> Result<(TokenView, int), ErrorView> {
    let shape = number_shape(s, pos);
    if shape.fraction_end < shape.exponent_start && shape.end == shape.exponent_start {
        Err(ErrorView::MalformedNumber { position: pos as usize })
    } else if shape.end < s.len() && s[shape.end] == '.' {
        Err(ErrorView::MalformedNumber { position: pos as usize })
    } else if shape.end == shape.whole_end {
        if decimal_value(s, pos, shape.end) > i64::MAX {
            Err(ErrorView::MalformedNumber { position: pos as usize })
        } else {
            Ok((TokenView::Int(decimal_value(s, pos, shape.end) as int), shape.end))
        }
    } else {
        Ok((TokenView::Float(literal_value(floats, s.subrange(pos, shape.end))), shape.end))
    }
}

/// The word that starts at `pos` and the place behind it: a truth value
/// where it spells one, else an identifier.
pub open spec fn word_token(s: Seq<char>, pos: int) -> (TokenView, int) {
    let end = word_end(s, pos);
    let word = s.subrange(pos, end);
    if word == seq!['t', 'r', 'u', 'e'] {
        (TokenView::Boolean(true), end)
    } else if word == seq!['f', 'a', 'l', 's', 'e'] {
        (TokenView::Boolean(false), end)
    } else {
        (TokenView::Identifier(word), end)
    }
}

/// The character that a backslash and `c` stand for in a string literal.
pub open spec fn escape(c: char) -> Option<char> {
    if c == '\\' || c == '"' {
        Some(c)
    } else if c == 'n' {
        Some('\n')
    } else if c == 't' {
        Some('\t')
    } else if c == 'r' {
        Some('\r')
    } else {
        None
    }
}

/// The characters of the string literal that opens at `start`, read from
/// `from` up to its closing quote, and the place behind that quote.
pub open spec fn string_body(s: Seq<char>, start: int, from: int) -> Result<(Seq<char>, int), ErrorView>
    decreases s.len() - from,
{
    if from < 0 || from >= s.len() {
        Err(ErrorView::UnterminatedString { position: start as usize })
    } else if s[from] == '"' {
        Ok((Seq::empty(), from + 1))
    } else if s[from] == '\\' {
        if from + 1 >= s.len() {
            Err(ErrorView::UnterminatedString { position: start as usize })
        } else {
            match escape(s[from + 1]) {
                None => Err(ErrorView::InvalidEscape { position: from as usize }),
                Some(c) => followed_by(c, string_body(s, start, from + 2)),
            }
        }
    } else {
        followed_by(s[from], string_body(s, start, from + 1))
    }
}

/// The rest of a string literal with one more character in front.
pub open spec fn followed_by(c: char, rest: Result<(Seq<char>, int), ErrorView>) -> Result<
    (Seq<char>, int),
    ErrorView,
> {
    match rest {
        Ok((body, end)) => Ok((seq![c] + body, end)),
        Err(e) => Err(e),
    }
}

/// The string literal that opens at `pos` and the place behind it.
pub open spec fn string_token(s: Seq<char>, pos: int) -> Result<(TokenView, int), ErrorView> {
    match string_body(s, pos, pos + 1) {
        Ok((body, end)) => Ok((TokenView::String(body), end)),
        Err(e) => Err(e),
    }
}

/// Whether `s` has the character `c` at `pos`.
pub open spec fn has(s: Seq<char>, pos: int, c: char) -> bool {
    0 <= pos < s.len() && s[pos] == c
}

/// The operator or punctuation mark at `pos` and the place behind it.
pub open spec fn symbol_token(s: Seq<char>, pos: int, after_operand: bool) -> Result<
    (TokenView, int),
    ErrorView,
> {
    let c = s[pos];
    let paired = has(s, pos + 1, '=');
    if c == '+' {
        Ok(
            (
                if after_operand {
                    TokenView::Binary(BinaryOp::Arithmetic(ArithmeticOp::Add))
                } else {
                    TokenView::Unary(UnaryOp::Plus)
                },
                pos + 1,
            ),
        )
    } else if c == '-' {
        Ok(
            (
                if after_operand {
                    TokenView::Binary(BinaryOp::Arithmetic(ArithmeticOp::Sub))
                } else {
                    TokenView::Unary(UnaryOp::Neg)
                },
                pos + 1,
            ),
        )
    } else if c == '*' {
        Ok((TokenView::Binary(BinaryOp::Arithmetic(ArithmeticOp::Mul)), pos + 1))
    } else if c == '/' {
        Ok((TokenView::Binary(BinaryOp::Arithmetic(ArithmeticOp::Div)), pos + 1))
    } else if c == '%' {
        Ok((TokenView::Binary(BinaryOp::Arithmetic(ArithmeticOp::Mod)), pos + 1))
    } else if c == '^' {
        Ok((TokenView::Binary(BinaryOp::Arithmetic(ArithmeticOp::Pow)), pos + 1))
    } else if c == '=' {
        if paired {
            Ok((TokenView::Binary(BinaryOp::Comparison(ComparisonOp::Eq)), pos + 2))
        } else {
            Ok((TokenView::Assign, pos + 1))
        }
    } else if c == '!' {
        if paired {
            Ok((TokenView::Binary(BinaryOp::Comparison(ComparisonOp::Neq)), pos + 2))
        } else {
            Ok((TokenView::Unary(UnaryOp::Not), pos + 1))
        }
    } else if c == '<' {
        if paired {
            Ok((TokenView::Binary(BinaryOp::Comparison(ComparisonOp::Leq)), pos + 2))
        } else {
            Ok((TokenView::Binary(BinaryOp::Comparison(ComparisonOp::Lt)), pos + 1))
        }
    } else if c == '>' {
        if paired {
            Ok((TokenView::Binary(BinaryOp::Comparison(ComparisonOp::Geq)), pos + 2))
        } else {
            Ok((TokenView::Binary(BinaryOp::Comparison(ComparisonOp::Gt)), pos + 1))
        }
    } else if c == '&' && has(s, pos + 1, '&') {
        Ok((TokenView::Binary(BinaryOp::Logic(LogicOp::And)), pos + 2))
    } else if c == '|' && has(s, pos + 1, '|') {
        Ok((TokenView::Binary(BinaryOp::Logic(LogicOp::Or)), pos + 2))
    } else if c == '(' {
        Ok((TokenView::LeftParenthesis, pos + 1))
    } else if c == ')' {
        Ok((TokenView::RightParenthesis, pos + 1))
    } else if c == ',' {
        Ok((TokenView::Comma, pos + 1))
    } else {
        Err(ErrorView::UnknownCharacter { position: pos as usize })
    }
}

/// The token that starts at `pos`, where `s` has a character that is no
/// space, and the place behind it.
pub open spec fn next_token(floats: FloatModel, s: Seq<char>, pos: int, after_operand: bool) -> Result<
    (TokenView, int),
    ErrorView,
> {
    let c = s[pos];
    if is_digit(c) {
        number_token(floats, s, pos)
    } else if is_letter(c) {
        Ok(word_token(s, pos))
    } else if c == '"' {
        string_token(s, pos)
    } else {
        symbol_token(s, pos, after_operand)
    }
}

/// Tokens with one more token in front.
pub open spec fn preceded_by(tokens: Seq<TokenView>, rest: Result<Seq<TokenView>, ErrorView>) -> Result<
    Seq<TokenView>,
    ErrorView,
> {
    match rest {
        Ok(more) => Ok(tokens + more),
        Err(e) => Err(e),
    }
}

/// The tokens of `s` from `pos` on. `after_operand` says whether the token
/// before `pos` can end an operand. The first error ends the reading.
///
/// A token always ends behind its first character and within the text
/// ([`lemma_token_advances`]); the test for it is there to show that the
/// reading comes to an end.
pub open spec fn scan(floats: FloatModel, s: Seq<char>, pos: int, after_operand: bool) -> Result<
    Seq<TokenView>,
    ErrorView,
>
    decreases s.len() - pos,
{
    if pos < 0 || pos >= s.len() {
        Ok(Seq::empty())
    } else if is_space(s[pos]) {
        scan(floats, s, pos + 1, after_operand)
    } else {
        match next_token(floats, s, pos, after_operand) {
            Err(e) => Err(e),
            Ok((token, end)) => if end <= pos || end > s.len() {
                Ok(seq![token])
            } else {
                preceded_by(seq![token], scan(floats, s, end, token.ends_operand()))
            },
        }
    }
}

/// The tokens of a text.
pub open spec fn tokens_of(floats: FloatModel, text: Seq<char>) -> Result<Seq<TokenView>, ErrorView> {
    scan(floats, text, 0, false)
}

/// Up to where they end, digits are digits; there, they are not.
pub proof fn lemma_digits_end(s: Seq<char>, from: int)
    requires
        0 <= from <= s.len(),
    ensures
        from <= digits_end(s, from) <= s.len(),
        forall|i: int| from <= i < digits_end(s, from) ==> is_digit(#[trigger] s[i]),
        digits_end(s, from) < s.len() ==> !is_digit(s[digits_end(s, from)]),
    decreases s.len() - from,
{
    if from < s.len() && is_digit(s[from]) {
        lemma_digits_end(s, from + 1);
    }
}

/// The same of the characters of identifiers.
pub proof fn lemma_word_end(s: Seq<char>, from: int)
    requires
        0 <= from <= s.len(),
    ensures
        from <= word_end(s, from) <= s.len(),
        forall|i: int| from <= i < word_end(s, from) ==> is_word(#[trigger] s[i]),
        word_end(s, from) < s.len() ==> !is_word(s[word_end(s, from)]),
    decreases s.len() - from,
{
    if from < s.len() && is_word(s[from]) {
        lemma_word_end(s, from + 1);
    }
}

/// More digits do not make a number smaller.
pub proof fn lemma_decimal_value_grows(s: Seq<char>, from: int, mid: int, to: int)
    requires
        0 <= from <= mid <= to <= s.len(),
        forall|i: int| from <= i < to ==> is_digit(#[trigger] s[i]),
    ensures
        decimal_value(s, from, mid) <= decimal_value(s, from, to),
    decreases to - mid,
{
    if mid < to {
        lemma_decimal_value_grows(s, from, mid, to - 1);
        assert(is_digit(s[to - 1]));
    }
}

/// A string literal that closes, closes behind where its reading began and within the text.
pub proof fn lemma_string_body_advances(s: Seq<char>, start: int, from: int)
    requires
        0 <= from <= s.len(),
    ensures
        string_body(s, start, from) matches Ok((_, end)) ==> from < end <= s.len(),
    decreases s.len() - from,
{
    if from < s.len() && s[from] != '"' {
        if s[from] == '\\' {
            if from + 1 < s.len() && escape(s[from + 1]) is Some {
                lemma_string_body_advances(s, start, from + 2);
            }
        } else {
            lemma_string_body_advances(s, start, from + 1);
        }
    }
}

/// Every token ends behind its first character and within the text, so
/// that reading on from its end comes to an end.
pub proof fn lemma_token_advances(floats: FloatModel, s: Seq<char>, pos: int, after_operand: bool)
    requires
        0 <= pos < s.len(),
    ensures
        next_token(floats, s, pos, after_operand) matches Ok((_, end)) ==> pos < end <= s.len(),
{
    let c = s[pos];
    if is_digit(c) {
        let shape = number_shape(s, pos);
        lemma_digits_end(s, pos);
        if shape.whole_end < s.len() {
            lemma_digits_end(s, shape.whole_end + 1);
        }
        if shape.exponent_start <= s.len() {
            lemma_digits_end(s, shape.exponent_start);
        }
    } else if is_letter(c) {
        lemma_word_end(s, pos);
    } else if c == '"' {
        lemma_string_body_advances(s, pos, pos + 1);
    }
}

/// The place behind the digits that start at `from`.
fn skip_digits(source: &Vec<char>, from: usize) -> (end: usize)
    requires
        from <= source.len(),
    ensures
        end == digits_end(source@, from as int),
        from <= end <= source.len(),
{
    let mut i: usize = from;
    while i < source.len() && source[i] >= '0' && source[i] <= '9'
        invariant
            from <= i <= source.len(),
            digits_end(source@, from as int) == digits_end(source@, i as int),
        decreases source.len() - i,
    {
        i += 1;
    }
    i
}

/// Reads the integer that the digits from `pos` up to `end` denote.
fn read_integer(source: &Vec<char>, pos: usize, end: usize) -> (r: Option<i64>)
    requires
        pos <= end <= source.len(),
        forall|i: int| pos <= i < end ==> is_digit(#[trigger] source@[i]),
    ensures
        match r {
            Some(value) => value == decimal_value(source@, pos as int, end as int),
            None => decimal_value(source@, pos as int, end as int) > i64::MAX,
        },
{
    let mut value: i64 = 0;
    let mut i: usize = pos;
    while i < end
        invariant
            pos <= i <= end <= source.len(),
            forall|i: int| pos <= i < end ==> is_digit(#[trigger] source@[i]),
            value == decimal_value(source@, pos as int, i as int),
        decreases end - i,
    {
        assert(is_digit(source@[i as int]));
        let digit: i64 = (source[i] as u32 - 48) as i64;
        proof {
            lemma_decimal_value_grows(source@, pos as int, i + 1, end as int);
        }
        let scaled = match value.checked_mul(10) {
            Some(v) => v,
            None => {
                return None;
            },
        };
        value = match scaled.checked_add(digit) {
            Some(v) => v,
            None => {
                return None;
            },
        };
        i += 1;
    }
    Some(value)
}

/// Reads the number that starts at `pos`.
fn read_number<U: Fn(FloatRequest) -> Float>(unit: &U, source: &Vec<char>, pos: usize) -> (r: Result<
    (Token, usize),
    Error,
>)
    requires
        is_float_unit(unit),
        pos < source.len(),
        is_digit(source@[pos as int]),
    ensures
        match r {
            Ok((token, end)) => number_token(model_of(unit), source@, pos as int) == Ok::<
                (TokenView, int),
                ErrorView,
            >((token@, end as int)) && pos < end <= source.len(),
            Err(e) => number_token(model_of(unit), source@, pos as int) == Err::<(TokenView, int), ErrorView>(e@),
        },
{
    let ghost s = source@;
    let ghost shape = number_shape(s, pos as int);
    let len = source.len();
    let whole_end = skip_digits(source, pos);
    proof {
        lemma_digits_end(s, pos as int);
        if whole_end < len {
            lemma_digits_end(s, whole_end + 1);
        }
    }
    let fraction_end = if whole_end < len && source[whole_end] == '.' {
        skip_digits(source, whole_end + 1)
    } else {
        whole_end
    };
    let marked = fraction_end < len && (source[fraction_end] == 'e' || source[fraction_end] == 'E');
    let exponent_start = if !marked {
        fraction_end
    } else if fraction_end + 1 < len && (source[fraction_end + 1] == '+' || source[fraction_end + 1] == '-') {
        fraction_end + 2
    } else {
        fraction_end + 1
    };
    proof {
        lemma_digits_end(s, exponent_start as int);
    }
    let end = if marked {
        skip_digits(source, exponent_start)
    } else {
        fraction_end
    };
    assert(shape == NumberShape {
        whole_end: whole_end as int,
        fraction_end: fraction_end as int,
        exponent_start: exponent_start as int,
        end: end as int,
    });
    if marked && end == exponent_start {
        return Err(Error::MalformedNumber { position: pos });
    }
    if end < len && source[end] == '.' {
        return Err(Error::MalformedNumber { position: pos });
    }
    if end == whole_end {
        match read_integer(source, pos, end) {
            Some(value) => Ok((Token::Int(value), end)),
            None => Err(Error::MalformedNumber { position: pos }),
        }
    } else {
        let literal = text_between(source, pos, end);
        proof {
            let t = literal@;
            let point = whole_end - pos;
            let exponent = fraction_end - pos;
            assert(forall|i: int| 0 <= i < t.len() ==> t[i] == s[pos + i]);
            if marked {
                if exponent_start == fraction_end + 2 {
                    assert(digits_only(t, exponent + 2));
                } else {
                    assert(digits_only(t, exponent + 1));
                }
            }
            assert(float_shape(t, point, exponent));
        }
        Ok((Token::Float(ask(unit, FloatRequest::Literal(literal))), end))
    }
}

/// Whether an identifier can go on with this character.
fn is_word_character(c: char) -> (r: bool)
    ensures
        r == is_word(c),
{
    (c >= 'a' && c <= 'z') || (c >= 'A' && c <= 'Z') || c == '_' || (c >= '0' && c <= '9')
}

/// Reads the word that starts at `pos`.
fn read_word(source: &Vec<char>, pos: usize) -> (r: (Token, usize))
    requires
        pos < source.len(),
        is_letter(source@[pos as int]),
    ensures
        (r.0@, r.1 as int) == word_token(source@, pos as int),
        pos < r.1 <= source.len(),
{
    let ghost s = source@;
    let mut end: usize = pos;
    while end < source.len() && is_word_character(source[end])
        invariant
            pos <= end <= source.len(),
            word_end(source@, pos as int) == word_end(source@, end as int),
            end == pos ==> is_word(source@[pos as int]),
        decreases source.len() - end,
    {
        end += 1;
    }
    let ghost word = s.subrange(pos as int, end as int);
    if end - pos == 4 && source[pos] == 't' && source[pos + 1] == 'r' && source[pos + 2] == 'u' && source[pos
        + 3] == 'e' {
        assert(word =~= seq!['t', 'r', 'u', 'e']);
        (Token::Boolean(true), end)
    } else if end - pos == 5 && source[pos] == 'f' && source[pos + 1] == 'a' && source[pos + 2] == 'l'
        && source[pos + 3] == 's' && source[pos + 4] == 'e' {
        assert(word =~= seq!['f', 'a', 'l', 's', 'e']);
        assert(word != seq!['t', 'r', 'u', 'e']) by {
            assert(word.len() != seq!['t', 'r', 'u', 'e'].len());
        }
        (Token::Boolean(false), end)
    } else {
        assert(word != seq!['t', 'r', 'u', 'e']) by {
            if word == seq!['t', 'r', 'u', 'e'] {
                assert(word.len() == 4);
                assert(word[0] == 't' && word[1] == 'r' && word[2] == 'u' && word[3] == 'e');
            }
        }
        assert(word != seq!['f', 'a', 'l', 's', 'e']) by {
            if word == seq!['f', 'a', 'l', 's', 'e'] {
                assert(word.len() == 5);
                assert(word[0] == 'f' && word[1] == 'a' && word[2] == 'l' && word[3] == 's' && word[4] == 'e');
            }
        }
        (Token::Identifier(text_between(source, pos, end)), end)
    }
}

/// The character that a backslash and `c` stand for.
fn unescape(c: char) -> (r: Option<char>)
    ensures
        r == escape(c),
{
    if c == '\\' || c == '"' {
        Some(c)
    } else if c == 'n' {
        Some('\n')
    } else if c == 't' {
        Some('\t')
    } else if c == 'r' {
        Some('\r')
    } else {
        None
    }
}

/// The rest of a string literal behind the characters read so far.
pub open spec fn continued(read: Seq<char>, rest: Result<(Seq<char>, int), ErrorView>) -> Result<
    (Seq<char>, int),
    ErrorView,
> {
    match rest {
        Ok((body, end)) => Ok((read + body, end)),
        Err(e) => Err(e),
    }
}

/// Reading one more character and then the rest is reading the rest behind one more character.
proof fn lemma_continued(read: Seq<char>, c: char, rest: Result<(Seq<char>, int), ErrorView>)
    ensures
        continued(read, followed_by(c, rest)) == continued(read.push(c), rest),
{
    if let Ok((body, end)) = rest {
        assert(read + (seq![c] + body) =~= read.push(c) + body);
    }
}

/// Reads the string literal that opens at `pos`.
fn read_string(source: &Vec<char>, pos: usize) -> (r: Result<(Token, usize), Error>)
    requires
        pos < source.len(),
        source@[pos as int] == '"',
    ensures
        match r {
            Ok((token, end)) => string_token(source@, pos as int) == Ok::<(TokenView, int), ErrorView>(
                (token@, end as int),
            ) && pos < end <= source.len(),
            Err(e) => string_token(source@, pos as int) == Err::<(TokenView, int), ErrorView>(e@),
        },
{
    let ghost s = source@;
    let mut body = String::new();
    let mut i: usize = pos + 1;
    assert(continued(body@, string_body(s, pos as int, i as int)) == string_body(s, pos as int, pos + 1)) by {
        if let Ok((rest, end)) = string_body(s, pos as int, i as int) {
            assert(body@ + rest =~= rest);
        }
    }
    while i < source.len()
        invariant
            pos < i <= source.len(),
            s == source@,
            string_body(s, pos as int, pos + 1) == continued(body@, string_body(s, pos as int, i as int)),
        decreases source.len() - i,
    {
        let c = source[i];
        if c == '"' {
            assert(body@ + Seq::<char>::empty() =~= body@);
            return Ok((Token::String(body), i + 1));
        }
        if c == '\\' {
            if i + 1 >= source.len() {
                return Err(Error::UnterminatedString { position: pos });
            }
            match unescape(source[i + 1]) {
                None => {
                    return Err(Error::InvalidEscape { position: i });
                },
                Some(decoded) => {
                    proof {
                        lemma_continued(body@, decoded, string_body(s, pos as int, i + 2));
                    }
                    body.push(decoded);
                    i += 2;
                },
            }
        } else {
            proof {
                lemma_continued(body@, c, string_body(s, pos as int, i + 1));
            }
            body.push(c);
            i += 1;
        }
    }
    Err(Error::UnterminatedString { position: pos })
}

/// Reads the operator or punctuation mark at `pos`.
fn read_symbol(source: &Vec<char>, pos: usize, after_operand: bool) -> (r: Result<(Token, usize), Error>)
    requires
        pos < source.len(),
    ensures
        match r {
            Ok((token, end)) => symbol_token(source@, pos as int, after_operand) == Ok::<
                (TokenView, int),
                ErrorView,
            >((token@, end as int)) && pos < end <= source.len(),
            Err(e) => symbol_token(source@, pos as int, after_operand) == Err::<(TokenView, int), ErrorView>(
                e@,
            ),
        },
{
    let c = source[pos];
    let paired = pos + 1 < source.len() && source[pos + 1] == '=';
    if c == '+' {
        Ok(
            (
                if after_operand {
                    Token::Binary(BinaryOp::Arithmetic(ArithmeticOp::Add))
                } else {
                    Token::Unary(UnaryOp::Plus)
                },
                pos + 1,
            ),
        )
    } else if c == '-' {
        Ok(
            (
                if after_operand {
                    Token::Binary(BinaryOp::Arithmetic(ArithmeticOp::Sub))
                } else {
                    Token::Unary(UnaryOp::Neg)
                },
                pos + 1,
            ),
        )
    } else if c == '*' {
        Ok((Token::Binary(BinaryOp::Arithmetic(ArithmeticOp::Mul)), pos + 1))
    } else if c == '/' {
        Ok((Token::Binary(BinaryOp::Arithmetic(ArithmeticOp::Div)), pos + 1))
    } else if c == '%' {
        Ok((Token::Binary(BinaryOp::Arithmetic(ArithmeticOp::Mod)), pos + 1))
    } else if c == '^' {
        Ok((Token::Binary(BinaryOp::Arithmetic(ArithmeticOp::Pow)), pos + 1))
    } else if c == '=' {
        if paired {
            Ok((Token::Binary(BinaryOp::Comparison(ComparisonOp::Eq)), pos + 2))
        } else {
            Ok((Token::Assign, pos + 1))
        }
    } else if c == '!' {
        if paired {
            Ok((Token::Binary(BinaryOp::Comparison(ComparisonOp::Neq)), pos + 2))
        } else {
            Ok((Token::Unary(UnaryOp::Not), pos + 1))
        }
    } else if c == '<' {
        if paired {
            Ok((Token::Binary(BinaryOp::Comparison(ComparisonOp::Leq)), pos + 2))
        } else {
            Ok((Token::Binary(BinaryOp::Comparison(ComparisonOp::Lt)), pos + 1))
        }
    } else if c == '>' {
        if paired {
            Ok((Token::Binary(BinaryOp::Comparison(ComparisonOp::Geq)), pos + 2))
        } else {
            Ok((Token::Binary(BinaryOp::Comparison(ComparisonOp::Gt)), pos + 1))
        }
    } else if c == '&' && pos + 1 < source.len() && source[pos + 1] == '&' {
        Ok((Token::Binary(BinaryOp::Logic(LogicOp::And)), pos + 2))
    } else if c == '|' && pos + 1 < source.len() && source[pos + 1] == '|' {
        Ok((Token::Binary(BinaryOp::Logic(LogicOp::Or)), pos + 2))
    } else if c == '(' {
        Ok((Token::LeftParenthesis, pos + 1))
    } else if c == ')' {
        Ok((Token::RightParenthesis, pos + 1))
    } else if c == ',' {
        Ok((Token::Comma, pos + 1))
    } else {
        Err(Error::UnknownCharacter { position: pos })
    }
}

/// Reads the token that starts at `pos`.
fn read_token<U: Fn(FloatRequest) -> Float>(
    unit: &U,
    source: &Vec<char>,
    pos: usize,
    after_operand: bool,
) -> (r:
    Result<(Token, usize), Error>)
    requires
        is_float_unit(unit),
        pos < source.len(),
    ensures
        match r {
            Ok((token, end)) => next_token(model_of(unit), source@, pos as int, after_operand) == Ok::<
                (TokenView, int),
                ErrorView,
            >((token@, end as int)) && pos < end <= source.len(),
            Err(e) => next_token(model_of(unit), source@, pos as int, after_operand) == Err::<
                (TokenView, int),
                ErrorView,
            >(e@),
        },
{
    let c = source[pos];
    if c >= '0' && c <= '9' {
        read_number(unit, source, pos)
    } else if (c >= 'a' && c <= 'z') || (c >= 'A' && c <= 'Z') || c == '_' {
        Ok(read_word(source, pos))
    } else if c == '"' {
        read_string(source, pos)
    } else {
        read_symbol(source, pos, after_operand)
    }
}

/// Splits a text into its tokens.
///
/// Spaces separate tokens and are dropped. A `+` or `-` is a sign unless
/// the token before it can end an operand. Numbers with a decimal point or
/// an exponent are read by `unit`. The first malformed token ends the
/// reading with an error that holds its offset, counted in characters.
pub fn tokenize<U: Fn(FloatRequest) -> Float>(text: &str, unit: &U) -> (r: Result<Vec<Token>, Error>)
    requires
        is_float_unit(unit),
    ensures
        tokens_view(r) == tokens_of(model_of(unit), text@),
{
    let source = characters(text);
    let ghost s = source@;
    let ghost floats = model_of(unit);
    let mut tokens: Vec<Token> = Vec::new();
    let mut pos: usize = 0;
    let mut after_operand = false;
    assert(preceded_by(token_views(tokens@), scan(floats, s, 0, false)) == scan(floats, s, 0, false)) by {
        if let Ok(more) = scan(floats, s, 0, false) {
            assert(token_views(tokens@) + more =~= more);
        }
    }
    while pos < source.len()
        invariant
            pos <= source.len(),
            is_float_unit(unit),
            s == source@,
            s == text@,
            floats == model_of(unit),
            tokens_of(floats, s) == preceded_by(token_views(tokens@), scan(floats, s, pos as int, after_operand)),
        decreases source.len() - pos,
    {
        let c = source[pos];
        if c == ' ' || c == '\t' || c == '\n' || c == '\r' {
            pos += 1;
        } else {
            match read_token(unit, &source, pos, after_operand) {
                Err(e) => {
                    return Err(e);
                },
                Ok((token, end)) => {
                    proof {
                        let before = token_views(tokens@);
                        let rest = scan(floats, s, end as int, token@.ends_operand());
                        assert(token_views(tokens@.push(token)) =~= before.push(token@));
                        if let Ok(more) = rest {
                            assert(before + (seq![token@] + more) =~= before.push(token@) + more);
                        }
                    }
                    after_operand = token.closes_operand();
                    tokens.push(token);
                    pos = end;
                },
            }
        }
    }
    assert(token_views(tokens@) + Seq::<TokenView>::empty() =~= token_views(tokens@));
    Ok(tokens)
}

} // verus!
