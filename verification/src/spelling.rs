//! Tokens written out as text: the lexer reads back what was written.

use vstd::prelude::*;

use crate::error::ErrorView;
use crate::float::{ArithmeticOp, FloatModel};
use crate::operator::{BinaryOp, ComparisonOp, LogicOp, UnaryOp};
use crate::parts::{lemma_parts_stand, stands_at};
use crate::token::{
    decimal_value, digits_end, escape, followed_by, is_digit, is_letter, is_space, is_word, lemma_word_end,
    next_token, number_shape, scan, string_body, symbol_token, tokens_of, word_end, TokenView,
};

verus! {

/// The character of a decimal digit.
pub open spec fn digit(d: int) -> char {
    (48 + d) as char
}

/// A number written in decimal digits, without leading zeros.
pub open spec fn digits(n: nat) -> Seq<char>
    decreases n,
{
    if n < 10 {
        seq![digit(n as int)]
    } else {
        digits(n / 10).push(digit((n % 10) as int))
    }
}

/// The characters of a text from `from` on as they stand between the
/// quotes of a string literal: a backslash in front of each quote and each
/// backslash.
pub open spec fn escaped(text: Seq<char>, from: nat) -> Seq<char>
    decreases text.len() - from,
{
    if from >= text.len() {
        Seq::empty()
    } else if text[from as int] == '"' || text[from as int] == '\\' {
        seq!['\\', text[from as int]] + escaped(text, from + 1)
    } else {
        seq![text[from as int]] + escaped(text, from + 1)
    }
}

/// How an operator between operands is written.
pub open spec fn binary_spelling(op: BinaryOp) -> Seq<char> {
    match op {
        BinaryOp::Arithmetic(ArithmeticOp::Add) => seq!['+'],
        BinaryOp::Arithmetic(ArithmeticOp::Sub) => seq!['-'],
        BinaryOp::Arithmetic(ArithmeticOp::Mul) => seq!['*'],
        BinaryOp::Arithmetic(ArithmeticOp::Div) => seq!['/'],
        BinaryOp::Arithmetic(ArithmeticOp::Mod) => seq!['%'],
        BinaryOp::Arithmetic(ArithmeticOp::Pow) => seq!['^'],
        BinaryOp::Comparison(ComparisonOp::Eq) => seq!['=', '='],
        BinaryOp::Comparison(ComparisonOp::Neq) => seq!['!', '='],
        BinaryOp::Comparison(ComparisonOp::Lt) => seq!['<'],
        BinaryOp::Comparison(ComparisonOp::Leq) => seq!['<', '='],
        BinaryOp::Comparison(ComparisonOp::Gt) => seq!['>'],
        BinaryOp::Comparison(ComparisonOp::Geq) => seq!['>', '='],
        BinaryOp::Logic(LogicOp::And) => seq!['&', '&'],
        BinaryOp::Logic(LogicOp::Or) => seq!['|', '|'],
    }
}

/// How a token is written.
pub open spec fn spelling(token: TokenView) -> Seq<char> {
    match token {
        TokenView::Int(i) => digits(i as nat),
        TokenView::Float(_) => Seq::empty(),
        TokenView::Boolean(b) => if b {
            seq!['t', 'r', 'u', 'e']
        } else {
            seq!['f', 'a', 'l', 's', 'e']
        },
        TokenView::String(text) => seq!['"'] + escaped(text, 0) + seq!['"'],
        TokenView::Identifier(name) => name,
        TokenView::Binary(op) => binary_spelling(op),
        TokenView::Unary(UnaryOp::Neg) => seq!['-'],
        TokenView::Unary(UnaryOp::Plus) => seq!['+'],
        TokenView::Unary(UnaryOp::Not) => seq!['!'],
        TokenView::LeftParenthesis => seq!['('],
        TokenView::RightParenthesis => seq![')'],
        TokenView::Comma => seq![','],
        TokenView::Assign => seq!['='],
    }
}

/// Whether a word can be the name of a variable or a function.
pub open spec fn is_name(word: Seq<char>) -> bool {
    &&& word.len() > 0
    &&& is_letter(word[0])
    &&& forall|i: int| 0 <= i < word.len() ==> is_word(#[trigger] word[i])
    &&& word != seq!['t', 'r', 'u', 'e']
    &&& word != seq!['f', 'a', 'l', 's', 'e']
}

/// Whether the lexer can give this token behind a token that ends an
/// operand, or behind one that does not. An integer is not negative and
/// fits in 64 bits; a name is a word and no truth value; `+` and `-` stand
/// between operands behind an operand only, and are signs elsewhere only.
/// Numbers with a fraction are left out: how they are written is the
/// host's matter.
pub open spec fn spellable(token: TokenView, after_operand: bool) -> bool {
    match token {
        TokenView::Int(i) => 0 <= i <= i64::MAX,
        TokenView::Float(_) => false,
        TokenView::Identifier(name) => is_name(name),
        TokenView::Binary(BinaryOp::Arithmetic(ArithmeticOp::Add))
        | TokenView::Binary(BinaryOp::Arithmetic(ArithmeticOp::Sub)) => after_operand,
        TokenView::Unary(UnaryOp::Plus) | TokenView::Unary(UnaryOp::Neg) => !after_operand,
        _ => true,
    }
}

/// Whether the lexer can give the tokens from `from` on, one behind the other.
pub open spec fn all_spellable(tokens: Seq<TokenView>, from: nat, after_operand: bool) -> bool
    decreases tokens.len() - from,
{
    from >= tokens.len() || (spellable(tokens[from as int], after_operand) && all_spellable(
        tokens,
        from + 1,
        tokens[from as int].ends_operand(),
    ))
}

/// The tokens from `from` on written out, each with a space behind it.
pub open spec fn spelled(tokens: Seq<TokenView>, from: nat) -> Seq<char>
    decreases tokens.len() - from,
{
    if from >= tokens.len() {
        Seq::empty()
    } else {
        spelling(tokens[from as int]) + seq![' '] + spelled(tokens, from + 1)
    }
}

/// The digits of a number are digits, and one at least.
proof fn lemma_digits_are_digits(n: nat)
    ensures
        digits(n).len() >= 1,
        forall|i: int| 0 <= i < digits(n).len() ==> is_digit(#[trigger] digits(n)[i]),
    decreases n,
{
    if n >= 10 {
        lemma_digits_are_digits(n / 10);
    }
}

/// The digits of a number denote the number.
proof fn lemma_digits_denote(s: Seq<char>, pos: int, n: nat)
    requires
        stands_at(s, pos, digits(n)),
    ensures
        decimal_value(s, pos, pos + digits(n).len()) == n,
    decreases n,
{
    let written = digits(n);
    if n < 10 {
        assert(s[pos + 0] == written[0]);
        assert(decimal_value(s, pos, pos) == 0);
    } else {
        let front = digits(n / 10);
        assert(written == front + seq![digit((n % 10) as int)]);
        lemma_parts_stand(s, pos, front, seq![digit((n % 10) as int)]);
        lemma_digits_denote(s, pos, n / 10);
        assert(s[pos + front.len() + 0] == seq![digit((n % 10) as int)][0]);
    }
}

/// Digits end where the first character stands that is no digit.
proof fn lemma_digits_end_there(s: Seq<char>, from: int, to: int)
    requires
        0 <= from <= to <= s.len(),
        forall|i: int| from <= i < to ==> is_digit(#[trigger] s[i]),
        to < s.len() ==> !is_digit(s[to]),
    ensures
        digits_end(s, from) == to,
    decreases to - from,
{
    if from < to {
        lemma_digits_end_there(s, from + 1, to);
    }
}

/// A word ends where the first character stands that is none of a word.
proof fn lemma_word_ends_there(s: Seq<char>, from: int, to: int)
    requires
        0 <= from <= to <= s.len(),
        forall|i: int| from <= i < to ==> is_word(#[trigger] s[i]),
        to < s.len() ==> !is_word(s[to]),
    ensures
        word_end(s, from) == to,
    decreases to - from,
{
    if from < to {
        lemma_word_ends_there(s, from + 1, to);
    }
}

/// Whether `token` is written in `s` from `pos` on, with a space behind it.
pub open spec fn written_at(s: Seq<char>, pos: int, token: TokenView) -> bool {
    &&& stands_at(s, pos, spelling(token))
    &&& pos + spelling(token).len() < s.len()
    &&& s[pos + spelling(token).len()] == ' '
}

/// An integer that is written out is read back.
proof fn lemma_integer_is_read(floats: FloatModel, s: Seq<char>, pos: int, n: int, after_operand: bool)
    requires
        0 <= n <= i64::MAX,
        written_at(s, pos, TokenView::Int(n)),
    ensures
        next_token(floats, s, pos, after_operand) == Ok::<(TokenView, int), ErrorView>(
            (TokenView::Int(n), pos + digits(n as nat).len()),
        ),
{
    let written = digits(n as nat);
    let end = pos + written.len();
    lemma_digits_are_digits(n as nat);
    assert forall|i: int| pos <= i < end implies is_digit(#[trigger] s[i]) by {
        assert(s[pos + (i - pos)] == written[i - pos]);
    }
    lemma_digits_end_there(s, pos, end);
    lemma_digits_denote(s, pos, n as nat);
    let shape = number_shape(s, pos);
    assert(shape.whole_end == end);
    assert(shape.fraction_end == end);
    assert(shape.exponent_start == end);
    assert(shape.end == end);
    assert(is_digit(s[pos]));
}

/// A word that is written out is read back: a truth value or a name.
proof fn lemma_word_is_read(floats: FloatModel, s: Seq<char>, pos: int, token: TokenView, after_operand: bool)
    requires
        token is Boolean || (token matches TokenView::Identifier(name) && is_name(name)),
        written_at(s, pos, token),
    ensures
        next_token(floats, s, pos, after_operand) == Ok::<(TokenView, int), ErrorView>(
            (token, pos + spelling(token).len()),
        ),
{
    let written = spelling(token);
    let end = pos + written.len();
    assert forall|i: int| 0 <= i < written.len() implies is_word(#[trigger] written[i]) by {}
    assert forall|i: int| pos <= i < end implies is_word(#[trigger] s[i]) by {
        assert(s[pos + (i - pos)] == written[i - pos]);
    }
    assert(s[pos + 0] == written[0]);
    lemma_word_ends_there(s, pos, end);
    assert(s.subrange(pos, end) =~= written) by {
        assert forall|i: int| 0 <= i < written.len() implies s.subrange(pos, end)[i] == written[i] by {
            assert(s[pos + i] == written[i]);
        }
    }
    assert(is_letter(s[pos]));
    assert(!is_digit(s[pos]));
    if let TokenView::Boolean(b) = token {
        if !b {
            assert(written.len() != seq!['t', 'r', 'u', 'e'].len());
        }
    }
}

/// What stands between the quotes of a string literal is read back as the text that it was.
proof fn lemma_body_is_read(s: Seq<char>, start: int, pos: int, text: Seq<char>, from: nat)
    requires
        from <= text.len(),
        stands_at(s, pos, escaped(text, from) + seq!['"']),
    ensures
        string_body(s, start, pos) == Ok::<(Seq<char>, int), ErrorView>(
            (text.skip(from as int), pos + escaped(text, from).len() + 1),
        ),
    decreases text.len() - from,
{
    let quote = seq!['"'];
    let here = escaped(text, from) + quote;
    assert(s[pos + 0] == here[0]);
    if from >= text.len() {
        assert(text.skip(from as int) =~= Seq::<char>::empty());
    } else {
        let c = text[from as int];
        let after = escaped(text, from + 1);
        assert(text.skip(from as int) =~= seq![c] + text.skip(from + 1int));
        if c == '"' || c == '\\' {
            let mark = seq!['\\', c];
            assert(here =~= mark + (after + quote));
            lemma_parts_stand(s, pos, mark, after + quote);
            assert(s[pos + 0] == mark[0]);
            assert(s[pos + 1] == mark[1]);
            lemma_body_is_read(s, start, pos + 2, text, from + 1);
            assert(escape(c) == Some(c));
            assert(string_body(s, start, pos) == followed_by(c, string_body(s, start, pos + 2)));
        } else {
            let plain = seq![c];
            assert(here =~= plain + (after + quote));
            lemma_parts_stand(s, pos, plain, after + quote);
            assert(s[pos + 0] == plain[0]);
            lemma_body_is_read(s, start, pos + 1, text, from + 1);
            assert(string_body(s, start, pos) == followed_by(c, string_body(s, start, pos + 1)));
        }
    }
}

/// A string literal that is written out is read back.
proof fn lemma_string_is_read(
    floats: FloatModel,
    s: Seq<char>,
    pos: int,
    text: Seq<char>,
    after_operand: bool,
)
    requires
        written_at(s, pos, TokenView::String(text)),
    ensures
        next_token(floats, s, pos, after_operand) == Ok::<(TokenView, int), ErrorView>(
            (TokenView::String(text), pos + spelling(TokenView::String(text)).len()),
        ),
{
    let quote = seq!['"'];
    let written = spelling(TokenView::String(text));
    assert(written =~= quote + (escaped(text, 0) + quote));
    lemma_parts_stand(s, pos, quote, escaped(text, 0) + quote);
    assert(s[pos + 0] == quote[0]);
    lemma_body_is_read(s, pos, pos + 1, text, 0);
    assert(text.skip(0) =~= text);
}

/// An operator between operands that is written out is read back.
proof fn lemma_binary_is_read(floats: FloatModel, s: Seq<char>, pos: int, op: BinaryOp, after_operand: bool)
    requires
        spellable(TokenView::Binary(op), after_operand),
        written_at(s, pos, TokenView::Binary(op)),
    ensures
        next_token(floats, s, pos, after_operand) == Ok::<(TokenView, int), ErrorView>(
            (TokenView::Binary(op), pos + binary_spelling(op).len()),
        ),
{
    let written = binary_spelling(op);
    assert(s[pos + 0] == written[0]);
    if written.len() == 2 {
        assert(s[pos + 1] == written[1]);
    }
    assert(symbol_token(s, pos, after_operand) == Ok::<(TokenView, int), ErrorView>(
        (TokenView::Binary(op), pos + written.len()),
    ));
}

/// A prefix operator or a punctuation mark that is written out is read back.
proof fn lemma_mark_is_read(floats: FloatModel, s: Seq<char>, pos: int, token: TokenView, after_operand: bool)
    requires
        token is Unary || token is LeftParenthesis || token is RightParenthesis || token is Comma
            || token is Assign,
        spellable(token, after_operand),
        written_at(s, pos, token),
    ensures
        next_token(floats, s, pos, after_operand) == Ok::<(TokenView, int), ErrorView>((token, pos + 1)),
        spelling(token).len() == 1,
{
    let written = spelling(token);
    assert(s[pos + 0] == written[0]);
    assert(symbol_token(s, pos, after_operand) == Ok::<(TokenView, int), ErrorView>((token, pos + 1)));
}

/// A token that is written out is read back, and ends where its spelling ends.
proof fn lemma_spelling_is_read(
    floats: FloatModel,
    s: Seq<char>,
    pos: int,
    token: TokenView,
    after_operand: bool,
)
    requires
        spellable(token, after_operand),
        written_at(s, pos, token),
    ensures
        next_token(floats, s, pos, after_operand) == Ok::<(TokenView, int), ErrorView>(
            (token, pos + spelling(token).len()),
        ),
        spelling(token).len() > 0,
        !is_space(s[pos]),
{
    let written = spelling(token);
    match token {
        TokenView::Int(n) => {
            lemma_digits_are_digits(n as nat);
            lemma_integer_is_read(floats, s, pos, n, after_operand);
            assert(is_digit(written[0]));
        },
        TokenView::Boolean(_) | TokenView::Identifier(_) => {
            lemma_word_is_read(floats, s, pos, token, after_operand);
            assert(is_letter(written[0]));
        },
        TokenView::String(text) => {
            lemma_string_is_read(floats, s, pos, text, after_operand);
            assert(written[0] == '"');
        },
        TokenView::Binary(op) => {
            lemma_binary_is_read(floats, s, pos, op, after_operand);
        },
        _ => {
            lemma_mark_is_read(floats, s, pos, token, after_operand);
        },
    }
    assert(s[pos + 0] == written[0]);
}

/// Tokens that are written out with spaces behind them are read back as they were.
proof fn lemma_spelled_is_read(
    floats: FloatModel,
    s: Seq<char>,
    pos: int,
    tokens: Seq<TokenView>,
    from: nat,
    after_operand: bool,
)
    requires
        from <= tokens.len(),
        all_spellable(tokens, from, after_operand),
        stands_at(s, pos, spelled(tokens, from)),
        pos + spelled(tokens, from).len() == s.len(),
    ensures
        scan(floats, s, pos, after_operand) == Ok::<Seq<TokenView>, ErrorView>(tokens.skip(from as int)),
    decreases tokens.len() - from,
{
    if from >= tokens.len() {
        assert(tokens.skip(from as int) =~= Seq::<TokenView>::empty());
    } else {
        let token = tokens[from as int];
        let space = seq![' '];
        let after = spelled(tokens, from + 1);
        lemma_parts_stand(s, pos, spelling(token) + space, after);
        lemma_parts_stand(s, pos, spelling(token), space);
        let end = pos + spelling(token).len();
        assert(s[end + 0] == space[0]);
        lemma_spelling_is_read(floats, s, pos, token, after_operand);
        lemma_spelled_is_read(floats, s, end + 1, tokens, from + 1, token.ends_operand());
        assert(scan(floats, s, end, token.ends_operand()) == scan(floats, s, end + 1, token.ends_operand()));
        assert(seq![token] + tokens.skip(from + 1int) =~= tokens.skip(from as int));
    }
}

/// Every sequence of tokens that the lexer can give is the sequence of
/// the tokens of its spelling: the lexer reads each token as it is
/// written, tells signs from operators by what stands before them, and no
/// such sequence is out of its reach.
pub proof fn lemma_spelled_tokens_are_read(floats: FloatModel, tokens: Seq<TokenView>)
    requires
        all_spellable(tokens, 0, false),
    ensures
        tokens_of(floats, spelled(tokens, 0)) == Ok::<Seq<TokenView>, ErrorView>(tokens),
{
    let s = spelled(tokens, 0);
    assert(stands_at(s, 0, s));
    lemma_spelled_is_read(floats, s, 0, tokens, 0, false);
    assert(tokens.skip(0) =~= tokens);
}

/// Whether the tokens from `from` on are each a number with a fraction
/// or a token that [`spellable`] describes, one behind the other.
pub open spec fn all_readable(tokens: Seq<TokenView>, from: nat, after_operand: bool) -> bool
    decreases tokens.len() - from,
{
    from >= tokens.len() || ((tokens[from as int] is Float || spellable(tokens[from as int], after_operand))
        && all_readable(tokens, from + 1, tokens[from as int].ends_operand()))
}

/// A token that is read is a number with a fraction or one that [`spellable`] describes.
proof fn lemma_read_token_is_spellable(floats: FloatModel, s: Seq<char>, pos: int, after_operand: bool)
    requires
        0 <= pos < s.len(),
    ensures
        next_token(floats, s, pos, after_operand) matches Ok((token, _)) ==> token is Float || spellable(
            token,
            after_operand,
        ),
{
    let c = s[pos];
    if is_letter(c) {
        lemma_word_end(s, pos);
        let end = word_end(s, pos);
        let word = s.subrange(pos, end);
        assert(word[0] == s[pos]);
        assert forall|i: int| 0 <= i < word.len() implies is_word(#[trigger] word[i]) by {
            assert(word[i] == s[pos + i]);
        }
    }
}

/// Tokens that are read are such tokens, one behind the other.
proof fn lemma_scanned_tokens_are_readable(floats: FloatModel, s: Seq<char>, pos: int, after_operand: bool)
    ensures
        scan(floats, s, pos, after_operand) matches Ok(tokens) ==> all_readable(tokens, 0, after_operand),
    decreases s.len() - pos,
{
    if 0 <= pos < s.len() {
        if is_space(s[pos]) {
            lemma_scanned_tokens_are_readable(floats, s, pos + 1, after_operand);
        } else {
            lemma_read_token_is_spellable(floats, s, pos, after_operand);
            if let Ok((token, end)) = next_token(floats, s, pos, after_operand) {
                if pos < end <= s.len() {
                    lemma_scanned_tokens_are_readable(floats, s, end, token.ends_operand());
                    if let Ok(others) = scan(floats, s, end, token.ends_operand()) {
                        lemma_readable_behind(token, others, 0, token.ends_operand());
                        assert((seq![token] + others)[0] == token);
                    }
                } else {
                    assert(all_readable(seq![token], 1, token.ends_operand()));
                }
            }
        }
    } else {
        assert(all_readable(Seq::<TokenView>::empty(), 0, after_operand));
    }
}

/// Readable tokens stay readable behind one more token in front of them.
proof fn lemma_readable_behind(token: TokenView, others: Seq<TokenView>, from: nat, after_operand: bool)
    requires
        from <= others.len(),
        all_readable(others, from, after_operand),
    ensures
        all_readable(seq![token] + others, from + 1, after_operand),
    decreases others.len() - from,
{
    let all = seq![token] + others;
    if from < others.len() {
        assert(all[from + 1int] == others[from as int]);
        lemma_readable_behind(token, others, from + 1, others[from as int].ends_operand());
    }
}

/// Every sequence of tokens that the lexer gives is made of numbers with
/// a fraction and of tokens that [`spellable`] describes: together with
/// [`lemma_spelled_tokens_are_read`], the lexer gives these sequences and,
/// but for such numbers, no others.
pub proof fn lemma_read_tokens_are_spellable(floats: FloatModel, text: Seq<char>)
    ensures
        tokens_of(floats, text) matches Ok(tokens) ==> all_readable(tokens, 0, false),
{
    lemma_scanned_tokens_are_readable(floats, text, 0, false);
}

} // verus!
