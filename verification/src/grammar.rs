//! The grammar, as functions on the stream of tokens: what parsing yields,
//! and on which streams it fails and how. A position in a stream is the
//! index of the token that the parser is looking at.

use vstd::prelude::*;
use vstd::arithmetic::power::pow;
use crate::ast::{AstView, VariableType};
use crate::decimal::{decimal_text, parse_decimal};
use crate::lexer::{is_last, stream_wf, LexErrorView, Lexeme};
use crate::token::TokenView;

verus! {

/// The ways in which parsing fails.
#[derive(Debug, Clone, Copy, PartialEq, Eq)]
pub enum ParseErrorKind {
    /// An include directive names a header that the lexer was not given.
    MissingInclude,
    /// No `{` behind `$define`.
    ExpectedDefineOpen,
    /// The input ends inside a define block.
    UnterminatedDefine,
    /// The operator named in the detail of the error is missing.
    ExpectedOperator,
    /// No string behind `version =`.
    ExpectedVersionString,
    /// No `[` behind `schemes =`.
    ExpectedSchemesOpen,
    /// A scheme does not end with `}`.
    ExpectedSchemeClose,
    /// The list of schemes does not end with `]`.
    ExpectedSchemesClose,
    /// A scheme does not start with `preset`.
    ExpectedPreset,
    /// No string behind `preset =`.
    ExpectedPresetString,
    /// No `params` behind the preset of a scheme.
    ExpectedParams,
    /// No `{` behind `params =`.
    ExpectedParamsOpen,
    /// A state block does not start with `$state`.
    ExpectedStateKeyword,
    /// No `{` behind `$state`.
    ExpectedStateOpen,
    /// A state block does not end with `}`.
    ExpectedStateClose,
    /// A consts block does not start with `$consts`.
    ExpectedConstsKeyword,
    /// No `{` behind `$consts`.
    ExpectedConstsOpen,
    /// A consts block does not end with `}`.
    ExpectedConstsClose,
    /// A declaration does not end with `;`.
    ExpectedSemiColon,
    /// A value starts with a token that starts no value.
    UnexpectedValue,
    /// The input ends inside an array.
    UnterminatedArray,
    /// No number behind an operator.
    ExpectedNumber,
    /// An operator that is none of `+ - * / % ^`.
    UnknownOperator,
    /// An operand that is no unsigned 128-bit decimal.
    InvalidNumber,
    /// A result that is below zero or does not fit in 128 bits.
    Overflow,
    /// A division or remainder by zero.
    DivisionByZero,
    /// No identifier where one is due.
    ExpectedIdentifier,
    /// No type where one is due.
    ExpectedType,
}

/// A failure of parsing as a mathematical value: what went wrong, where the
/// cursor of the lexer stood behind the token at fault, and the text that
/// the kind of failure refers to, if any.
pub struct ParseErrorView {
    pub kind: ParseErrorKind,
    pub position: nat,
    pub detail: Seq<char>,
}

/// What a rule yields at a position: a value and the position behind what
/// the rule has consumed, or a failure.
pub type Parsed<T> = Result<(T, int), ParseErrorView>;

/// `i` is a position in the sound stream `s` at which a token stands.
pub open spec fn here(s: Seq<Lexeme>, i: int) -> bool {
    stream_wf(s) && 0 <= i < s.len() && s[i].result is Ok
}

/// The token at position `i`.
pub open spec fn token_at(s: Seq<Lexeme>, i: int) -> TokenView {
    s[i].result->Ok_0
}

/// The failure of kind `kind` at the token at position `i`.
pub open spec fn failure(s: Seq<Lexeme>, i: int, kind: ParseErrorKind) -> ParseErrorView {
    ParseErrorView { kind, position: s[i].position, detail: Seq::empty() }
}

/// The failure of parsing that a failure of the lexer amounts to.
pub open spec fn lexical(e: LexErrorView, position: nat) -> ParseErrorView {
    match e {
        LexErrorView::MissingInclude(name) => ParseErrorView {
            kind: ParseErrorKind::MissingInclude,
            position,
            detail: name,
        },
    }
}

/// Moving on to the next token: the position behind `i`, the failure of the
/// lexer where it could read no further token, and `i` itself at the end of
/// the input, which is never left.
pub open spec fn advance(s: Seq<Lexeme>, i: int) -> Result<int, ParseErrorView> {
    if i + 1 >= s.len() {
        Ok(i)
    } else {
        match s[i + 1].result {
            Ok(_) => Ok(i + 1),
            Err(e) => Err(lexical(e, s[i + 1].position)),
        }
    }
}

/// The token at `i` has to be `expected`, and is consumed.
pub open spec fn expect_token(
    s: Seq<Lexeme>,
    i: int,
    expected: TokenView,
    kind: ParseErrorKind,
) -> Result<int, ParseErrorView> {
    if token_at(s, i) == expected {
        advance(s, i)
    } else {
        Err(failure(s, i, kind))
    }
}

/// The token at `i` has to be the operator `op`, and is consumed.
pub open spec fn expect_operator(s: Seq<Lexeme>, i: int, op: Seq<char>) -> Result<
    int,
    ParseErrorView,
> {
    if token_at(s, i) == TokenView::Operator(op) {
        advance(s, i)
    } else {
        Err(
            ParseErrorView {
                kind: ParseErrorKind::ExpectedOperator,
                position: s[i].position,
                detail: op,
            },
        )
    }
}

/// The token at `i` has to be a string, which is consumed and handed out.
pub open spec fn expect_string(s: Seq<Lexeme>, i: int, kind: ParseErrorKind) -> Parsed<Seq<char>> {
    match token_at(s, i) {
        TokenView::String(text) => match advance(s, i) {
            Ok(j) => Ok((text, j)),
            Err(e) => Err(e),
        },
        _ => Err(failure(s, i, kind)),
    }
}

/// The token at `i` has to be an identifier, which is consumed and handed out.
pub open spec fn expect_identifier(s: Seq<Lexeme>, i: int) -> Parsed<Seq<char>> {
    match token_at(s, i) {
        TokenView::Identifier(text) => match advance(s, i) {
            Ok(j) => Ok((text, j)),
            Err(e) => Err(e),
        },
        _ => Err(failure(s, i, ParseErrorKind::ExpectedIdentifier)),
    }
}

/// The token at `i` has to be one of the four types that a declaration may
/// name, which is consumed and handed out.
pub open spec fn expect_variable_type(s: Seq<Lexeme>, i: int) -> Parsed<VariableType> {
    let found = match token_at(s, i) {
        TokenView::Address => Some(VariableType::Address),
        TokenView::U128 => Some(VariableType::U128),
        TokenView::U8 => Some(VariableType::U8),
        TokenView::Bool => Some(VariableType::Bool),
        _ => None,
    };
    match found {
        Some(t) => match advance(s, i) {
            Ok(j) => Ok((t, j)),
            Err(e) => Err(e),
        },
        None => Err(failure(s, i, ParseErrorKind::ExpectedType)),
    }
}

/// A number, if it fits in 128 bits.
pub open spec fn fitting(n: int) -> Result<nat, ParseErrorKind> {
    if 0 <= n <= u128::MAX {
        Ok(n as nat)
    } else {
        Err(ParseErrorKind::Overflow)
    }
}

/// One operator applied to two numbers, in unsigned 128-bit arithmetic that
/// fails where it would wrap. The operator is a single character; `/` is
/// the quotient without remainder, `%` the remainder, `^` the power.
pub open spec fn apply(a: nat, op: Seq<char>, b: nat) -> Result<nat, ParseErrorKind> {
    if op.len() != 1 {
        Err(ParseErrorKind::UnknownOperator)
    } else if op[0] == '+' {
        fitting((a + b) as int)
    } else if op[0] == '-' {
        fitting(a - b)
    } else if op[0] == '*' {
        fitting((a * b) as int)
    } else if op[0] == '/' {
        if b == 0 {
            Err(ParseErrorKind::DivisionByZero)
        } else {
            Ok(a / b)
        }
    } else if op[0] == '%' {
        if b == 0 {
            Err(ParseErrorKind::DivisionByZero)
        } else {
            Ok(a % b)
        }
    } else if op[0] == '^' {
        fitting(pow(a as int, b))
    } else {
        Err(ParseErrorKind::UnknownOperator)
    }
}

/// One step of constant folding: both texts are read as unsigned 128-bit
/// decimals, the operator is applied, and the result is written in decimal.
/// An operand that cannot be read is reported before the operator is looked at.
pub open spec fn fold(left: Seq<char>, op: Seq<char>, right: Seq<char>) -> Result<
    Seq<char>,
    ParseErrorKind,
> {
    match (parse_decimal(left, u128::MAX as nat), parse_decimal(right, u128::MAX as nat)) {
        (Some(a), Some(b)) => match apply(a, op, b) {
            Ok(v) => Ok(decimal_text(v)),
            Err(kind) => Err(kind),
        },
        _ => Err(ParseErrorKind::InvalidNumber),
    }
}

/// Inside an array, from `i` on: every string up to the closing `]` is an
/// item, and every other token is passed over.
pub open spec fn array_loop(s: Seq<Lexeme>, i: int, done: Seq<AstView>) -> Parsed<AstView>
    decreases s.len() - i,
    when here(s, i)
{
    match token_at(s, i) {
        TokenView::RightBracket => match advance(s, i) {
            Ok(j) => Ok((AstView::Array(done), j)),
            Err(e) => Err(e),
        },
        TokenView::Eof => Err(failure(s, i, ParseErrorKind::UnterminatedArray)),
        TokenView::String(text) => match advance(s, i) {
            Ok(j) => array_loop(s, j, done.push(AstView::StringLiteral(text))),
            Err(e) => Err(e),
        },
        _ => match advance(s, i) {
            Ok(j) => array_loop(s, j, done),
            Err(e) => Err(e),
        },
    }
}

/// Behind a number whose text is `value`, from `i` on: as long as an operator
/// follows, a number has to follow the operator, and the two numbers fold
/// into one. So an expression is worked off from left to right, whatever
/// the operators.
pub open spec fn fold_loop(s: Seq<Lexeme>, i: int, value: Seq<char>) -> Parsed<AstView>
    decreases s.len() - i,
    when here(s, i)
{
    match token_at(s, i) {
        TokenView::Operator(op) => match advance(s, i) {
            Ok(j) => match token_at(s, j) {
                TokenView::Number(next) => match fold(value, op, next) {
                    Ok(folded) => match advance(s, j) {
                        Ok(k) => fold_loop(s, k, folded),
                        Err(e) => Err(e),
                    },
                    Err(kind) => Err(failure(s, j, kind)),
                },
                _ => Err(failure(s, j, ParseErrorKind::ExpectedNumber)),
            },
            Err(e) => Err(e),
        },
        _ => Ok((AstView::Number(value), i)),
    }
}

/// A value: an array of strings, a number with the operations that follow
/// it folded in, or a string.
pub open spec fn value(s: Seq<Lexeme>, i: int) -> Parsed<AstView> {
    match token_at(s, i) {
        TokenView::LeftBracket => match advance(s, i) {
            Ok(j) => array_loop(s, j, Seq::empty()),
            Err(e) => Err(e),
        },
        TokenView::Number(text) => match advance(s, i) {
            Ok(j) => fold_loop(s, j, text),
            Err(e) => Err(e),
        },
        TokenView::String(text) => match advance(s, i) {
            Ok(j) => Ok((AstView::StringLiteral(text), j)),
            Err(e) => Err(e),
        },
        _ => Err(failure(s, i, ParseErrorKind::UnexpectedValue)),
    }
}

/// What a rule that succeeded at `i` has reached: a position in the stream,
/// not before `i`, at which a token stands.
pub open spec fn reached<T>(r: Parsed<T>, s: Seq<Lexeme>, i: int) -> bool {
    r matches Ok((_, j)) ==> i <= j && here(s, j)
}

/// As `reached`, and at least one token was consumed.
pub open spec fn moved<T>(r: Parsed<T>, s: Seq<Lexeme>, i: int) -> bool {
    r matches Ok((_, j)) ==> i < j && here(s, j)
}

/// An array ends behind its closing bracket.
pub proof fn lemma_array_loop(s: Seq<Lexeme>, i: int, done: Seq<AstView>)
    requires
        here(s, i),
    ensures
        moved(array_loop(s, i, done), s, i),
    decreases s.len() - i,
{
    match token_at(s, i) {
        TokenView::RightBracket => {},
        TokenView::Eof => {},
        TokenView::String(text) => {
            if advance(s, i) is Ok {
                lemma_array_loop(s, i + 1, done.push(AstView::StringLiteral(text)));
            }
        },
        _ => {
            if advance(s, i) is Ok {
                lemma_array_loop(s, i + 1, done);
            }
        },
    }
}

/// Folding ends at a position in the stream.
pub proof fn lemma_fold_loop(s: Seq<Lexeme>, i: int, value: Seq<char>)
    requires
        here(s, i),
    ensures
        reached(fold_loop(s, i, value), s, i),
    decreases s.len() - i,
{
    match token_at(s, i) {
        TokenView::Operator(op) => {
            if advance(s, i) is Ok {
                let j = i + 1;
                match token_at(s, j) {
                    TokenView::Number(next) => {
                        if fold(value, op, next) is Ok && advance(s, j) is Ok {
                            lemma_fold_loop(s, j + 1, fold(value, op, next)->Ok_0);
                        }
                    },
                    _ => {},
                }
            }
        },
        _ => {},
    }
}

/// A value takes up at least one token.
pub proof fn lemma_value(s: Seq<Lexeme>, i: int)
    requires
        here(s, i),
    ensures
        moved(value(s, i), s, i),
{
    match token_at(s, i) {
        TokenView::LeftBracket => {
            if advance(s, i) is Ok {
                lemma_array_loop(s, i + 1, Seq::empty());
            }
        },
        TokenView::Number(text) => {
            if advance(s, i) is Ok {
                lemma_fold_loop(s, i + 1, text);
            }
        },
        _ => {},
    }
}

/// Inside the braces of `params`, from `i` on: pairs of an identifier and a
/// value with `=` between them, up to the closing `}` or the end of the
/// input, neither of which is consumed.
pub open spec fn params_loop(s: Seq<Lexeme>, i: int, done: Seq<(Seq<char>, AstView)>) -> Parsed<
    Seq<(Seq<char>, AstView)>,
>
    decreases s.len() - i,
    when here(s, i)
    via params_loop_decreases
{
    match token_at(s, i) {
        TokenView::RightBrace => Ok((done, i)),
        TokenView::Eof => Ok((done, i)),
        _ => match expect_identifier(s, i) {
            Ok((name, j)) => match expect_operator(s, j, "="@) {
                Ok(k) => match value(s, k) {
                    Ok((v, l)) => params_loop(s, l, done.push((name, v))),
                    Err(e) => Err(e),
                },
                Err(e) => Err(e),
            },
            Err(e) => Err(e),
        },
    }
}

#[via_fn]
proof fn params_loop_decreases(s: Seq<Lexeme>, i: int, done: Seq<(Seq<char>, AstView)>) {
    if let Ok((name, j)) = expect_identifier(s, i) {
        if let Ok(k) = expect_operator(s, j, "="@) {
            lemma_value(s, k);
        }
    }
}

/// The parameters end at a position in the stream.
pub proof fn lemma_params_loop(s: Seq<Lexeme>, i: int, done: Seq<(Seq<char>, AstView)>)
    requires
        here(s, i),
    ensures
        reached(params_loop(s, i, done), s, i),
    decreases s.len() - i,
{
    match token_at(s, i) {
        TokenView::RightBrace => {},
        TokenView::Eof => {},
        _ => {
            if let Ok((name, j)) = expect_identifier(s, i) {
                if let Ok(k) = expect_operator(s, j, "="@) {
                    lemma_value(s, k);
                    if let Ok((v, l)) = value(s, k) {
                        lemma_params_loop(s, l, done.push((name, v)));
                    }
                }
            }
        },
    }
}

/// `preset = "<name>"`.
pub open spec fn preset(s: Seq<Lexeme>, i: int) -> Parsed<Seq<char>> {
    match expect_token(s, i, TokenView::Identifier("preset"@), ParseErrorKind::ExpectedPreset) {
        Ok(j) => match expect_operator(s, j, "="@) {
            Ok(k) => expect_string(s, k, ParseErrorKind::ExpectedPresetString),
            Err(e) => Err(e),
        },
        Err(e) => Err(e),
    }
}

/// `params = {` and the pairs that follow; the closing `}` is left standing.
pub open spec fn params(s: Seq<Lexeme>, i: int) -> Parsed<Seq<(Seq<char>, AstView)>> {
    match expect_token(s, i, TokenView::Identifier("params"@), ParseErrorKind::ExpectedParams) {
        Ok(j) => match expect_operator(s, j, "="@) {
            Ok(k) => match expect_token(
                s,
                k,
                TokenView::LeftBrace,
                ParseErrorKind::ExpectedParamsOpen,
            ) {
                Ok(l) => params_loop(s, l, Seq::empty()),
                Err(e) => Err(e),
            },
            Err(e) => Err(e),
        },
        Err(e) => Err(e),
    }
}

/// A scheme: its preset, then its parameters. The node is a list of schemes
/// that holds this one scheme.
pub open spec fn scheme(s: Seq<Lexeme>, i: int) -> Parsed<AstView> {
    match preset(s, i) {
        Ok((name, j)) => match params(s, j) {
            Ok((pairs, k)) => Ok(
                (AstView::Schemes(seq![AstView::Scheme { preset: name, params: pairs }]), k),
            ),
            Err(e) => Err(e),
        },
        Err(e) => Err(e),
    }
}

/// A scheme takes up at least one token.
pub proof fn lemma_scheme(s: Seq<Lexeme>, i: int)
    requires
        here(s, i),
    ensures
        moved(scheme(s, i), s, i),
{
    if let Ok((name, j)) = preset(s, i) {
        if let Ok(k) = expect_token(s, j, TokenView::Identifier("params"@), ParseErrorKind::ExpectedParams) {
            if let Ok(l) = expect_operator(s, k, "="@) {
                if let Ok(m) = expect_token( s, l, TokenView::LeftBrace, ParseErrorKind::ExpectedParamsOpen, ) {
                    lemma_params_loop(s, m, Seq::empty());
                }
            }
        }
    }
}

/// Inside the brackets of `schemes`, from `i` on: every `{` opens a scheme,
/// behind which a `}` has to stand; that `}` and every token that opens no
/// scheme are passed over, up to the closing `]`.
pub open spec fn schemes_loop(s: Seq<Lexeme>, i: int, done: Seq<AstView>) -> Parsed<Seq<AstView>>
    decreases s.len() - i,
    when here(s, i)
    via schemes_loop_decreases
{
    match token_at(s, i) {
        TokenView::RightBracket => match advance(s, i) {
            Ok(j) => Ok((done, j)),
            Err(e) => Err(e),
        },
        TokenView::Eof => Err(failure(s, i, ParseErrorKind::ExpectedSchemesClose)),
        TokenView::LeftBrace => match advance(s, i) {
            Ok(j) => match scheme(s, j) {
                Ok((node, k)) => if token_at(s, k) == TokenView::RightBrace {
                    match advance(s, k) {
                        Ok(l) => schemes_loop(s, l, done.push(node)),
                        Err(e) => Err(e),
                    }
                } else {
                    Err(failure(s, k, ParseErrorKind::ExpectedSchemeClose))
                },
                Err(e) => Err(e),
            },
            Err(e) => Err(e),
        },
        _ => match advance(s, i) {
            Ok(j) => schemes_loop(s, j, done),
            Err(e) => Err(e),
        },
    }
}

#[via_fn]
proof fn schemes_loop_decreases(s: Seq<Lexeme>, i: int, done: Seq<AstView>) {
    if let Ok(j) = advance(s, i) {
        lemma_scheme(s, j);
    }
}

/// The list of schemes ends behind its closing bracket.
pub proof fn lemma_schemes_loop(s: Seq<Lexeme>, i: int, done: Seq<AstView>)
    requires
        here(s, i),
    ensures
        moved(schemes_loop(s, i, done), s, i),
    decreases s.len() - i,
{
    match token_at(s, i) {
        TokenView::RightBracket => {},
        TokenView::Eof => {},
        TokenView::LeftBrace => {
            if let Ok(j) = advance(s, i) {
                lemma_scheme(s, j);
                if let Ok((node, k)) = scheme(s, j) {
                    if token_at(s, k) == TokenView::RightBrace {
                        if let Ok(l) = advance(s, k) {
                            lemma_schemes_loop(s, l, done.push(node));
                        }
                    }
                }
            }
        },
        _ => {
            if let Ok(j) = advance(s, i) {
                lemma_schemes_loop(s, j, done);
            }
        },
    }
}

/// `schemes = [` and the schemes up to `]`.
pub open spec fn schemes(s: Seq<Lexeme>, i: int) -> Parsed<Seq<AstView>> {
    match advance(s, i) {
        Ok(j) => match expect_operator(s, j, "="@) {
            Ok(k) => match expect_token(
                s,
                k,
                TokenView::LeftBracket,
                ParseErrorKind::ExpectedSchemesOpen,
            ) {
                Ok(l) => schemes_loop(s, l, Seq::empty()),
                Err(e) => Err(e),
            },
            Err(e) => Err(e),
        },
        Err(e) => Err(e),
    }
}

/// `version = "<text>"`.
pub open spec fn version(s: Seq<Lexeme>, i: int) -> Parsed<Seq<char>> {
    match advance(s, i) {
        Ok(j) => match expect_operator(s, j, "="@) {
            Ok(k) => expect_string(s, k, ParseErrorKind::ExpectedVersionString),
            Err(e) => Err(e),
        },
        Err(e) => Err(e),
    }
}

/// The list of schemes takes up at least one token.
pub proof fn lemma_schemes(s: Seq<Lexeme>, i: int)
    requires
        here(s, i),
        token_at(s, i) == TokenView::Schemes,
    ensures
        moved(schemes(s, i), s, i),
{
    if let Ok(j) = advance(s, i) {
        if let Ok(k) = expect_operator(s, j, "="@) {
            if let Ok(l) = expect_token( s, k, TokenView::LeftBracket, ParseErrorKind::ExpectedSchemesOpen, ) {
                lemma_schemes_loop(s, l, Seq::empty());
            }
        }
    }
}

/// Inside a define block, from `i` on: `version` and `schemes` in any order
/// and number, the last of each standing, and every other token passed
/// over, up to the closing `}`.
pub open spec fn define_loop(
    s: Seq<Lexeme>,
    i: int,
    found: Option<Seq<char>>,
    list: Seq<AstView>,
) -> Parsed<AstView>
    decreases s.len() - i,
    when here(s, i)
    via define_loop_decreases
{
    match token_at(s, i) {
        TokenView::Version => match version(s, i) {
            Ok((text, j)) => define_loop(s, j, Some(text), list),
            Err(e) => Err(e),
        },
        TokenView::Schemes => match schemes(s, i) {
            Ok((nodes, j)) => define_loop(s, j, found, nodes),
            Err(e) => Err(e),
        },
        TokenView::RightBrace => match advance(s, i) {
            Ok(j) => Ok((AstView::Define { version: found, schemes: list }, j)),
            Err(e) => Err(e),
        },
        TokenView::Eof => Err(failure(s, i, ParseErrorKind::UnterminatedDefine)),
        _ => match advance(s, i) {
            Ok(j) => define_loop(s, j, found, list),
            Err(e) => Err(e),
        },
    }
}

#[via_fn]
proof fn define_loop_decreases(
    s: Seq<Lexeme>,
    i: int,
    found: Option<Seq<char>>,
    list: Seq<AstView>,
) {
    if token_at(s, i) == TokenView::Schemes {
        lemma_schemes(s, i);
    }
}

/// A define block ends behind its closing brace.
pub proof fn lemma_define_loop(
    s: Seq<Lexeme>,
    i: int,
    found: Option<Seq<char>>,
    list: Seq<AstView>,
)
    requires
        here(s, i),
    ensures
        moved(define_loop(s, i, found, list), s, i),
    decreases s.len() - i,
{
    match token_at(s, i) {
        TokenView::Version => {
            if let Ok((text, j)) = version(s, i) {
                lemma_define_loop(s, j, Some(text), list);
            }
        },
        TokenView::Schemes => {
            lemma_schemes(s, i);
            if let Ok((nodes, j)) = schemes(s, i) {
                lemma_define_loop(s, j, found, nodes);
            }
        },
        TokenView::RightBrace => {},
        TokenView::Eof => {},
        _ => {
            if let Ok(j) = advance(s, i) {
                lemma_define_loop(s, j, found, list);
            }
        },
    }
}

/// A define block: `$define {`, then what `define_loop` reads.
pub open spec fn define(s: Seq<Lexeme>, i: int) -> Parsed<AstView> {
    match advance(s, i) {
        Ok(j) => match expect_token(
            s,
            j,
            TokenView::LeftBrace,
            ParseErrorKind::ExpectedDefineOpen,
        ) {
            Ok(k) => define_loop(s, k, None, Seq::empty()),
            Err(e) => Err(e),
        },
        Err(e) => Err(e),
    }
}

/// Inside a state block, from `i` on: declarations `<type> <name>;` up to
/// the closing `}`.
pub open spec fn state_loop(s: Seq<Lexeme>, i: int, done: Seq<AstView>) -> Parsed<AstView>
    decreases s.len() - i,
    when here(s, i)
{
    match token_at(s, i) {
        TokenView::RightBrace => match advance(s, i) {
            Ok(j) => Ok((AstView::State(done), j)),
            Err(e) => Err(e),
        },
        TokenView::Eof => Err(failure(s, i, ParseErrorKind::ExpectedStateClose)),
        _ => match expect_variable_type(s, i) {
            Ok((var_type, j)) => match expect_identifier(s, j) {
                Ok((name, k)) => match expect_token(
                    s,
                    k,
                    TokenView::SemiColon,
                    ParseErrorKind::ExpectedSemiColon,
                ) {
                    Ok(l) => state_loop(
                        s,
                        l,
                        done.push(AstView::StateVariableDeclaration { name, var_type }),
                    ),
                    Err(e) => Err(e),
                },
                Err(e) => Err(e),
            },
            Err(e) => Err(e),
        },
    }
}

/// A state block: `$state {`, then what `state_loop` reads.
pub open spec fn state_block(s: Seq<Lexeme>, i: int) -> Parsed<AstView> {
    match expect_token(s, i, TokenView::State, ParseErrorKind::ExpectedStateKeyword) {
        Ok(j) => match expect_token(
            s,
            j,
            TokenView::LeftBrace,
            ParseErrorKind::ExpectedStateOpen,
        ) {
            Ok(k) => state_loop(s, k, Seq::empty()),
            Err(e) => Err(e),
        },
        Err(e) => Err(e),
    }
}

/// Inside a consts block, from `i` on: declarations `<type> <name> = <value>;`
/// up to the closing `}`.
pub open spec fn consts_loop(s: Seq<Lexeme>, i: int, done: Seq<AstView>) -> Parsed<AstView>
    decreases s.len() - i,
    when here(s, i)
    via consts_loop_decreases
{
    match token_at(s, i) {
        TokenView::RightBrace => match advance(s, i) {
            Ok(j) => Ok((AstView::Consts(done), j)),
            Err(e) => Err(e),
        },
        TokenView::Eof => Err(failure(s, i, ParseErrorKind::ExpectedConstsClose)),
        _ => match expect_variable_type(s, i) {
            Ok((var_type, j)) => match expect_identifier(s, j) {
                Ok((name, k)) => match expect_operator(s, k, "="@) {
                    Ok(l) => match value(s, l) {
                        Ok((v, m)) => match expect_token(
                            s,
                            m,
                            TokenView::SemiColon,
                            ParseErrorKind::ExpectedSemiColon,
                        ) {
                            Ok(n) => consts_loop(
                                s,
                                n,
                                done.push(
                                    AstView::ConstDeclaration {
                                        name,
                                        var_type,
                                        value: Box::new(v),
                                    },
                                ),
                            ),
                            Err(e) => Err(e),
                        },
                        Err(e) => Err(e),
                    },
                    Err(e) => Err(e),
                },
                Err(e) => Err(e),
            },
            Err(e) => Err(e),
        },
    }
}

#[via_fn]
proof fn consts_loop_decreases(s: Seq<Lexeme>, i: int, done: Seq<AstView>) {
    if let Ok((var_type, j)) = expect_variable_type(s, i) {
        if let Ok((name, k)) = expect_identifier(s, j) {
            if let Ok(l) = expect_operator(s, k, "="@) {
                lemma_value(s, l);
            }
        }
    }
}

/// A consts block: `$consts {`, then what `consts_loop` reads.
pub open spec fn consts_block(s: Seq<Lexeme>, i: int) -> Parsed<AstView> {
    match expect_token(s, i, TokenView::Consts, ParseErrorKind::ExpectedConstsKeyword) {
        Ok(j) => match expect_token(
            s,
            j,
            TokenView::LeftBrace,
            ParseErrorKind::ExpectedConstsOpen,
        ) {
            Ok(k) => consts_loop(s, k, Seq::empty()),
            Err(e) => Err(e),
        },
        Err(e) => Err(e),
    }
}

/// The procedures block: its keyword is consumed, and the node is empty.
/// What follows the keyword is read as any other tokens between blocks are.
pub open spec fn procedures(s: Seq<Lexeme>, i: int) -> Parsed<AstView> {
    match advance(s, i) {
        Ok(j) => Ok((AstView::Procedures(Seq::empty()), j)),
        Err(e) => Err(e),
    }
}

/// A state block ends behind its closing brace.
pub proof fn lemma_state_loop(s: Seq<Lexeme>, i: int, done: Seq<AstView>)
    requires
        here(s, i),
    ensures
        moved(state_loop(s, i, done), s, i),
    decreases s.len() - i,
{
    match token_at(s, i) {
        TokenView::RightBrace => {},
        TokenView::Eof => {},
        _ => {
            if let Ok((var_type, j)) = expect_variable_type(s, i) {
                if let Ok((name, k)) = expect_identifier(s, j) {
                    if let Ok(l) = expect_token( s, k, TokenView::SemiColon, ParseErrorKind::ExpectedSemiColon, ) {
                        lemma_state_loop(
                            s,
                            l,
                            done.push(AstView::StateVariableDeclaration { name, var_type }),
                        );
                    }
                }
            }
        },
    }
}

/// A consts block ends behind its closing brace.
pub proof fn lemma_consts_loop(s: Seq<Lexeme>, i: int, done: Seq<AstView>)
    requires
        here(s, i),
    ensures
        moved(consts_loop(s, i, done), s, i),
    decreases s.len() - i,
{
    match token_at(s, i) {
        TokenView::RightBrace => {},
        TokenView::Eof => {},
        _ => {
            if let Ok((var_type, j)) = expect_variable_type(s, i) {
                if let Ok((name, k)) = expect_identifier(s, j) {
                    if let Ok(l) = expect_operator(s, k, "="@) {
                        lemma_value(s, l);
                        if let Ok((v, m)) = value(s, l) {
                            if let Ok(n) = expect_token( s, m, TokenView::SemiColon, ParseErrorKind::ExpectedSemiColon, ) {
                                lemma_consts_loop(
                                    s,
                                    n,
                                    done.push(
                                        AstView::ConstDeclaration {
                                            name,
                                            var_type,
                                            value: Box::new(v),
                                        },
                                    ),
                                );
                            }
                        }
                    }
                }
            }
        },
    }
}

/// Each of the four blocks takes up at least one token.
pub proof fn lemma_blocks(s: Seq<Lexeme>, i: int)
    requires
        here(s, i),
    ensures
        token_at(s, i) == TokenView::Define ==> moved(define(s, i), s, i),
        token_at(s, i) == TokenView::State ==> moved(state_block(s, i), s, i),
        token_at(s, i) == TokenView::Consts ==> moved(consts_block(s, i), s, i),
        token_at(s, i) == TokenView::Procedures ==> moved(procedures(s, i), s, i),
{
    if let Ok(j) = advance(s, i) {
        if let Ok(k) = expect_token(s, j, TokenView::LeftBrace, ParseErrorKind::ExpectedDefineOpen) {
            lemma_define_loop(s, k, None, Seq::empty());
            lemma_state_loop(s, k, Seq::empty());
            lemma_consts_loop(s, k, Seq::empty());
        }
    }
}

/// Between blocks, from `i` on: each of the four keywords opens its block,
/// and every other token is passed over, up to the end of the input.
pub open spec fn root_loop(s: Seq<Lexeme>, i: int, done: Seq<AstView>) -> Parsed<AstView>
    decreases s.len() - i,
    when here(s, i)
    via root_loop_decreases
{
    match token_at(s, i) {
        TokenView::Eof => Ok((AstView::Root(done), i)),
        TokenView::Define => match define(s, i) {
            Ok((node, j)) => root_loop(s, j, done.push(node)),
            Err(e) => Err(e),
        },
        TokenView::State => match state_block(s, i) {
            Ok((node, j)) => root_loop(s, j, done.push(node)),
            Err(e) => Err(e),
        },
        TokenView::Consts => match consts_block(s, i) {
            Ok((node, j)) => root_loop(s, j, done.push(node)),
            Err(e) => Err(e),
        },
        TokenView::Procedures => match procedures(s, i) {
            Ok((node, j)) => root_loop(s, j, done.push(node)),
            Err(e) => Err(e),
        },
        _ => match advance(s, i) {
            Ok(j) => root_loop(s, j, done),
            Err(e) => Err(e),
        },
    }
}

#[via_fn]
proof fn root_loop_decreases(s: Seq<Lexeme>, i: int, done: Seq<AstView>) {
    lemma_blocks(s, i);
}

/// What parsing a whole stream yields: the root node with the blocks in the
/// order they were written, or the first failure.
pub open spec fn program(s: Seq<Lexeme>) -> Result<AstView, ParseErrorView> {
    match s[0].result {
        Err(e) => Err(lexical(e, s[0].position)),
        Ok(_) => match root_loop(s, 0, Seq::empty()) {
            Ok((node, _)) => Ok(node),
            Err(e) => Err(e),
        },
    }
}

} // verus!
