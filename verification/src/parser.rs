//! The parser: recursive descent over the tokens of a lexer, with one token
//! of lookahead. It either builds the whole tree or fails with the first
//! thing that is wrong; it never hands out part of a tree.

use vstd::prelude::*;
use crate::ast::{
    lemma_view_of_lists, named_nodes_view, nodes_view, ASTNode, AstView, VariableType,
};
use crate::decimal::{checked_pow, parse_u128, u128_to_string};
use crate::grammar;
use crate::grammar::{here, token_at, ParseErrorKind, ParseErrorView};
use crate::lexer::{
    ends, lemma_next, lemma_stream, stream, LexError, LexErrorView, LexState, Lexeme, Lexer,
};
use crate::token::{Token, TokenView};

verus! {

/// A failure of parsing: what went wrong, where the cursor of the lexer
/// stood behind the token at fault, and the text that the kind of failure
/// refers to (the header of an include, the operator that is missing),
/// empty where there is none.
#[derive(Debug, Clone, PartialEq, Eq)]
pub struct ParseError {
    pub kind: ParseErrorKind,
    pub position: usize,
    pub detail: String,
}

impl View for ParseError {
    type V = ParseErrorView;

    open spec fn view(&self) -> ParseErrorView {
        ParseErrorView { kind: self.kind, position: self.position as nat, detail: self.detail@ }
    }
}

/// The words for each kind of failure.
pub open spec fn kind_text(kind: ParseErrorKind) -> Seq<char> {
    match kind {
        ParseErrorKind::MissingInclude => "Failed to read included file"@,
        ParseErrorKind::ExpectedDefineOpen => "Expected '{' to start define block"@,
        ParseErrorKind::UnterminatedDefine => "Expected '}' to end define block"@,
        ParseErrorKind::ExpectedOperator => "Expected operator"@,
        ParseErrorKind::ExpectedVersionString => "Expected string value for version"@,
        ParseErrorKind::ExpectedSchemesOpen => "Expected '[' to start schemes"@,
        ParseErrorKind::ExpectedSchemeClose => "Expected '}' to end scheme"@,
        ParseErrorKind::ExpectedSchemesClose => "Expected ']' to end schemes"@,
        ParseErrorKind::ExpectedPreset => "Expected 'preset' to start scheme"@,
        ParseErrorKind::ExpectedPresetString => "Expected string value for preset"@,
        ParseErrorKind::ExpectedParams => "Expected 'params' to start scheme"@,
        ParseErrorKind::ExpectedParamsOpen => "Expected '{' to start params"@,
        ParseErrorKind::ExpectedStateKeyword => "Expected '$state' keyword"@,
        ParseErrorKind::ExpectedStateOpen => "Expected '{' after '$state'"@,
        ParseErrorKind::ExpectedStateClose => "Expected '}' at the end of the state block"@,
        ParseErrorKind::ExpectedConstsKeyword => "Expected '$consts' keyword"@,
        ParseErrorKind::ExpectedConstsOpen => "Expected '{' after '$consts'"@,
        ParseErrorKind::ExpectedConstsClose => "Expected '}' at the end of the consts block"@,
        ParseErrorKind::ExpectedSemiColon =>
            "Expected ';' at the end of the state variable declaration"@,
        ParseErrorKind::UnexpectedValue => "Unexpected token in params"@,
        ParseErrorKind::UnterminatedArray => "Expected ']' to end array"@,
        ParseErrorKind::ExpectedNumber => "Expected number after operator"@,
        ParseErrorKind::UnknownOperator => "Unknown operator"@,
        ParseErrorKind::InvalidNumber => "Invalid number"@,
        ParseErrorKind::Overflow => "Arithmetic overflow"@,
        ParseErrorKind::DivisionByZero => "Division by zero"@,
        ParseErrorKind::ExpectedIdentifier => "Expected an identifier"@,
        ParseErrorKind::ExpectedType => "Expected a type identifier"@,
    }
}

/// The words for each kind of failure.
pub fn kind_message(kind: ParseErrorKind) -> (r: &'static str)
    ensures
        r@ == kind_text(kind),
{
    match kind {
        ParseErrorKind::MissingInclude => "Failed to read included file",
        ParseErrorKind::ExpectedDefineOpen => "Expected '{' to start define block",
        ParseErrorKind::UnterminatedDefine => "Expected '}' to end define block",
        ParseErrorKind::ExpectedOperator => "Expected operator",
        ParseErrorKind::ExpectedVersionString => "Expected string value for version",
        ParseErrorKind::ExpectedSchemesOpen => "Expected '[' to start schemes",
        ParseErrorKind::ExpectedSchemeClose => "Expected '}' to end scheme",
        ParseErrorKind::ExpectedSchemesClose => "Expected ']' to end schemes",
        ParseErrorKind::ExpectedPreset => "Expected 'preset' to start scheme",
        ParseErrorKind::ExpectedPresetString => "Expected string value for preset",
        ParseErrorKind::ExpectedParams => "Expected 'params' to start scheme",
        ParseErrorKind::ExpectedParamsOpen => "Expected '{' to start params",
        ParseErrorKind::ExpectedStateKeyword => "Expected '$state' keyword",
        ParseErrorKind::ExpectedStateOpen => "Expected '{' after '$state'",
        ParseErrorKind::ExpectedStateClose => "Expected '}' at the end of the state block",
        ParseErrorKind::ExpectedConstsKeyword => "Expected '$consts' keyword",
        ParseErrorKind::ExpectedConstsOpen => "Expected '{' after '$consts'",
        ParseErrorKind::ExpectedConstsClose => "Expected '}' at the end of the consts block",
        ParseErrorKind::ExpectedSemiColon =>
            "Expected ';' at the end of the state variable declaration",
        ParseErrorKind::UnexpectedValue => "Unexpected token in params",
        ParseErrorKind::UnterminatedArray => "Expected ']' to end array",
        ParseErrorKind::ExpectedNumber => "Expected number after operator",
        ParseErrorKind::UnknownOperator => "Unknown operator",
        ParseErrorKind::InvalidNumber => "Invalid number",
        ParseErrorKind::Overflow => "Arithmetic overflow",
        ParseErrorKind::DivisionByZero => "Division by zero",
        ParseErrorKind::ExpectedIdentifier => "Expected an identifier",
        ParseErrorKind::ExpectedType => "Expected a type identifier",
    }
}

impl ParseError {
    /// A failure of `kind` at `position`, with no detail.
    pub fn new(kind: ParseErrorKind, position: usize) -> (r: ParseError)
        ensures
            r@ == (ParseErrorView { kind, position: position as nat, detail: Seq::empty() }),
    {
        ParseError { kind, position, detail: String::new() }
    }

    /// The failure of parsing that a failure of the lexer amounts to.
    pub fn lexical(e: LexError, position: usize) -> (r: ParseError)
        ensures
            r@ == grammar::lexical(e@, position as nat),
    {
        match e {
            LexError::MissingInclude(name) => ParseError {
                kind: ParseErrorKind::MissingInclude,
                position,
                detail: name,
            },
        }
    }

    /// The text that describes this failure. For a missing operator it
    /// names the operator between quotes; for any other kind it is the words
    /// for the kind, followed, where there is a detail, by a colon, a blank
    /// and the detail.
    pub open spec fn message_text(self) -> Seq<char> {
        if self.kind == ParseErrorKind::ExpectedOperator {
            "Expected '"@ + self.detail@ + "' operator"@
        } else if self.detail@.len() == 0 {
            kind_text(self.kind)
        } else {
            kind_text(self.kind) + ": "@ + self.detail@
        }
    }

    /// Describes this failure in words.
    pub fn message(&self) -> (r: String)
        ensures
            r@ == self.message_text(),
    {
        if let ParseErrorKind::ExpectedOperator = self.kind {
            let mut out = "Expected '".to_owned();
            out = out.concat(self.detail.as_str());
            out = out.concat("' operator");
            return out;
        }
        let mut out = kind_message(self.kind).to_owned();
        if !self.detail.as_str().is_empty() {
            out = out.concat(": ");
            out = out.concat(self.detail.as_str());
        }
        out
    }
}

/// What a parser has to work on: a lexer, and the token it is looking at.
pub struct Parser {
    lexer: Lexer,
    current_token: Token,
    position: usize,
}

/// The position up to which a lexer has read when the parser looks at
/// position `i` of the stream `s`: the next one, but for the end of the
/// input, which the lexer never leaves.
spec fn read_up_to(s: Seq<Lexeme>, i: int) -> int {
    if i + 1 < s.len() {
        i + 1
    } else {
        s.len() - 1
    }
}

impl Parser {
    /// The state of the lexer that this parser draws its tokens from.
    pub closed spec fn source(&self) -> LexState {
        self.lexer@
    }

    /// The parser looks at position `i` of the stream `s`, and its lexer
    /// will hand out what follows.
    spec fn at(&self, s: Seq<Lexeme>, i: int) -> bool {
        &&& here(s, i)
        &&& self.lexer@.wf()
        &&& ends(self.lexer@)
        &&& self.current_token@ == token_at(s, i)
        &&& self.position == s[i].position
        &&& stream(self.lexer@) == s.skip(read_up_to(s, i))
    }

    /// A parser of what `lexer` has yet to read.
    pub fn new(lexer: Lexer) -> (r: Parser)
        ensures
            r.source() == lexer@,
    {
        Parser { lexer, current_token: Token::Eof, position: 0 }
    }

    /// Reads the first token of the stream.
    fn first_token(&mut self, Ghost(s): Ghost<Seq<Lexeme>>) -> (r: Result<(), ParseError>)
        requires
            old(self).source().wf(),
            ends(old(self).source()),
            s == stream(old(self).source()),
        ensures
            final(self).source().wf(),
            match s[0].result {
                Ok(_) => r is Ok && final(self).at(s, 0),
                Err(e) => r matches Err(err) && err@ == grammar::lexical(e, s[0].position),
            },
    {
        proof {
            lemma_stream(self.lexer@);
            lemma_next(self.lexer@);
        }
        match self.lexer.next_token() {
            Ok(token) => {
                self.current_token = token;
                self.position = self.lexer.position();
                proof {
                    if crate::lexer::is_last(s[0]) {
                        assert(s.skip(0) =~= s);
                    } else {
                        assert(read_up_to(s, 0) == 1);
                    }
                }
                Ok(())
            },
            Err(e) => Err(ParseError::lexical(e, self.lexer.position())),
        }
    }

    /// Moves on to the next token.
    fn next_token(&mut self, Ghost(s): Ghost<Seq<Lexeme>>, Ghost(i): Ghost<int>) -> (r: Result<
        (),
        ParseError,
    >)
        requires
            old(self).at(s, i),
        ensures
            final(self).source().wf(),
            match grammar::advance(s, i) {
                Ok(j) => r is Ok && final(self).at(s, j),
                Err(e) => r matches Err(err) && err@ == e,
            },
    {
        let ghost m = read_up_to(s, i);
        proof {
            lemma_stream(self.lexer@);
            lemma_next(self.lexer@);
            assert(s.skip(m)[0] == s[m]);
        }
        match self.lexer.next_token() {
            Ok(token) => {
                self.current_token = token;
                self.position = self.lexer.position();
                proof {
                    if i + 1 < s.len() {
                        if crate::lexer::is_last(s[m]) {
                            assert(m == s.len() - 1);
                            assert(read_up_to(s, m) == m);
                        } else {
                            assert(s.skip(m).skip(1) =~= s.skip(m + 1));
                            assert(read_up_to(s, m) == m + 1);
                        }
                    } else {
                        assert(m == i);
                    }
                }
                Ok(())
            },
            Err(e) => Err(ParseError::lexical(e, self.lexer.position())),
        }
    }
    /// The token looked at has to be `expected`, and is consumed.
    fn expect_token(
        &mut self,
        expected: Token,
        kind: ParseErrorKind,
        Ghost(s): Ghost<Seq<Lexeme>>,
        Ghost(i): Ghost<int>,
    ) -> (r: Result<(), ParseError>)
        requires
            old(self).at(s, i),
        ensures
            final(self).source().wf(),
            match grammar::expect_token(s, i, expected@, kind) {
                Ok(j) => r is Ok && final(self).at(s, j),
                Err(e) => r matches Err(err) && err@ == e,
            },
    {
        if !(self.current_token == expected) {
            return Err(ParseError::new(kind, self.position));
        }
        self.next_token(Ghost(s), Ghost(i))
    }

    /// The token looked at has to be the operator `expected_op`, and is consumed.
    fn expect_operator(
        &mut self,
        expected_op: &str,
        Ghost(s): Ghost<Seq<Lexeme>>,
        Ghost(i): Ghost<int>,
    ) -> (r: Result<(), ParseError>)
        requires
            old(self).at(s, i),
        ensures
            final(self).source().wf(),
            match grammar::expect_operator(s, i, expected_op@) {
                Ok(j) => r is Ok && final(self).at(s, j),
                Err(e) => r matches Err(err) && err@ == e,
            },
    {
        let expected = Token::Operator(expected_op.to_owned());
        if !(self.current_token == expected) {
            return Err(
                ParseError {
                    kind: ParseErrorKind::ExpectedOperator,
                    position: self.position,
                    detail: expected_op.to_owned(),
                },
            );
        }
        self.next_token(Ghost(s), Ghost(i))
    }

    /// The token looked at has to be a string, which is consumed and handed out.
    fn expect_string(
        &mut self,
        kind: ParseErrorKind,
        Ghost(s): Ghost<Seq<Lexeme>>,
        Ghost(i): Ghost<int>,
    ) -> (r: Result<String, ParseError>)
        requires
            old(self).at(s, i),
        ensures
            final(self).source().wf(),
            match grammar::expect_string(s, i, kind) {
                Ok((text, j)) => r matches Ok(found) && found@ == text && final(self).at(s, j),
                Err(e) => r matches Err(err) && err@ == e,
            },
    {
        let text = match &self.current_token {
            Token::String(value) => value.clone(),
            _ => {
                return Err(ParseError::new(kind, self.position));
            },
        };
        match self.next_token(Ghost(s), Ghost(i)) {
            Ok(_) => Ok(text),
            Err(e) => Err(e),
        }
    }

    /// The token looked at has to be an identifier, which is consumed and handed out.
    fn expect_identifier(&mut self, Ghost(s): Ghost<Seq<Lexeme>>, Ghost(i): Ghost<int>) -> (r:
        Result<String, ParseError>)
        requires
            old(self).at(s, i),
        ensures
            final(self).source().wf(),
            match grammar::expect_identifier(s, i) {
                Ok((text, j)) => r matches Ok(found) && found@ == text && final(self).at(s, j),
                Err(e) => r matches Err(err) && err@ == e,
            },
    {
        let text = match &self.current_token {
            Token::Identifier(id) => id.clone(),
            _ => {
                return Err(ParseError::new(ParseErrorKind::ExpectedIdentifier, self.position));
            },
        };
        match self.next_token(Ghost(s), Ghost(i)) {
            Ok(_) => Ok(text),
            Err(e) => Err(e),
        }
    }

    /// The token looked at has to name a type, which is consumed and handed out.
    fn expect_variable_type(&mut self, Ghost(s): Ghost<Seq<Lexeme>>, Ghost(i): Ghost<int>) -> (r:
        Result<VariableType, ParseError>)
        requires
            old(self).at(s, i),
        ensures
            final(self).source().wf(),
            match grammar::expect_variable_type(s, i) {
                Ok((t, j)) => r matches Ok(found) && found == t && final(self).at(s, j),
                Err(e) => r matches Err(err) && err@ == e,
            },
    {
        let t = match self.current_token {
            Token::Address => VariableType::Address,
            Token::U128 => VariableType::U128,
            Token::U8 => VariableType::U8,
            Token::Bool => VariableType::Bool,
            _ => {
                return Err(ParseError::new(ParseErrorKind::ExpectedType, self.position));
            },
        };
        match self.next_token(Ghost(s), Ghost(i)) {
            Ok(_) => Ok(t),
            Err(e) => Err(e),
        }
    }
}

/// The character that a text of one character consists of.
pub fn operator_char(op: &str) -> (r: Option<char>)
    ensures
        r == if op@.len() == 1 {
            Some(op@[0])
        } else {
            None::<char>
        },
{
    let mut found: Option<char> = None;
    let chars = op.chars();
    for c in iter: chars
        invariant
            iter.seq() == op@,
            iter.index() <= 1,
            found == if iter.index() == 1 {
                Some(op@[0])
            } else {
                None::<char>
            },
    {
        if found.is_some() {
            return None;
        }
        found = Some(c);
    }
    found
}

/// One step of constant folding: `left` and `right` are read as unsigned
/// 128-bit decimals, `op` is applied to them, and the result is written in
/// decimal. Nothing wraps: a result below zero or above 128 bits is
/// `Overflow`.
pub fn fold_constant(left: &str, op: &str, right: &str) -> (r: Result<String, ParseErrorKind>)
    ensures
        match grammar::fold(left@, op@, right@) {
            Ok(text) => r matches Ok(found) && found@ == text,
            Err(kind) => r == Err::<String, ParseErrorKind>(kind),
        },
{
    let left_value = match parse_u128(left) {
        Some(v) => v,
        None => {
            return Err(ParseErrorKind::InvalidNumber);
        },
    };
    let right_value = match parse_u128(right) {
        Some(v) => v,
        None => {
            return Err(ParseErrorKind::InvalidNumber);
        },
    };
    let symbol = match operator_char(op) {
        Some(c) => c,
        None => {
            return Err(ParseErrorKind::UnknownOperator);
        },
    };
    let folded = match symbol {
        '+' => left_value.checked_add(right_value),
        '-' => left_value.checked_sub(right_value),
        '*' => left_value.checked_mul(right_value),
        '/' => {
            if right_value == 0 {
                return Err(ParseErrorKind::DivisionByZero);
            }
            Some(left_value / right_value)
        },
        '%' => {
            if right_value == 0 {
                return Err(ParseErrorKind::DivisionByZero);
            }
            Some(left_value % right_value)
        },
        '^' => {
            proof {
                if left_value > 0 {
                    vstd::arithmetic::power::lemma_pow_positive(
                        left_value as int,
                        right_value as nat,
                    );
                } else if right_value > 0 {
                    vstd::arithmetic::power::lemma0_pow(right_value as nat);
                } else {
                    vstd::arithmetic::power::lemma_pow0(left_value as int);
                }
            }
            checked_pow(left_value, right_value)
        },
        _ => {
            return Err(ParseErrorKind::UnknownOperator);
        },
    };
    match folded {
        Some(v) => Ok(u128_to_string(v)),
        None => Err(ParseErrorKind::Overflow),
    }
}

/// Appending a node to a list appends its view to the view of the list.
pub proof fn lemma_nodes_view_push(nodes: Seq<ASTNode>, node: ASTNode)
    ensures
        nodes_view(nodes.push(node)) == nodes_view(nodes).push(node.view()),
{
    assert(nodes_view(nodes.push(node)) =~= nodes_view(nodes).push(node.view()));
}

/// Appending a named node to a list appends its view to the view of the list.
pub proof fn lemma_named_nodes_view_push(list: Seq<(String, ASTNode)>, name: String, node: ASTNode)
    ensures
        named_nodes_view(list.push((name, node))) == named_nodes_view(list).push(
            (name@, node.view()),
        ),
{
    assert(named_nodes_view(list.push((name, node))) =~= named_nodes_view(list).push(
        (name@, node.view()),
    ));
}

impl Parser {
    /// Reads a value: an array of strings, a number with the operations
    /// that follow it folded in from left to right, or a string.
    fn expect_value(&mut self, Ghost(s): Ghost<Seq<Lexeme>>, Ghost(i): Ghost<int>) -> (r: Result<
        ASTNode,
        ParseError,
    >)
        requires
            old(self).at(s, i),
        ensures
            final(self).source().wf(),
            match grammar::value(s, i) {
                Ok((v, j)) => r matches Ok(node) && node.view() == v && final(self).at(s, j),
                Err(e) => r matches Err(err) && err@ == e,
            },
    {
        if self.current_token == Token::LeftBracket {
            match self.next_token(Ghost(s), Ghost(i)) {
                Ok(_) => {},
                Err(e) => {
                    return Err(e);
                },
            }
            let mut array: Vec<ASTNode> = Vec::new();
            let ghost mut at = i + 1;
            proof {
                assert(nodes_view(array@) =~= Seq::<AstView>::empty());
            }
            loop
                invariant
                    self.at(s, at),
                    grammar::array_loop(s, at, nodes_view(array@)) == grammar::value(s, i),
                decreases s.len() - at,
            {
                if self.current_token == Token::RightBracket {
                    match self.next_token(Ghost(s), Ghost(at)) {
                        Ok(_) => {
                            let node = ASTNode::Array(array);
                            proof {
                                lemma_view_of_lists(node);
                            }
                            return Ok(node);
                        },
                        Err(e) => {
                            return Err(e);
                        },
                    }
                }
                if self.current_token == Token::Eof {
                    return Err(ParseError::new(ParseErrorKind::UnterminatedArray, self.position));
                }
                let item = match &self.current_token {
                    Token::String(value) => Some(value.clone()),
                    _ => None,
                };
                if let Some(text) = item {
                    let node = ASTNode::StringLiteral(text);
                    proof {
                        lemma_nodes_view_push(array@, node);
                    }
                    array.push(node);
                }
                match self.next_token(Ghost(s), Ghost(at)) {
                    Ok(_) => {},
                    Err(e) => {
                        return Err(e);
                    },
                }
                proof {
                    at = at + 1;
                }
            }
        }
        let first = match &self.current_token {
            Token::Number(value) => Some(value.clone()),
            _ => None,
        };
        if let Some(number) = first {
            let mut value = number;
            match self.next_token(Ghost(s), Ghost(i)) {
                Ok(_) => {},
                Err(e) => {
                    return Err(e);
                },
            }
            let ghost mut at = i + 1;
            loop
                invariant
                    self.at(s, at),
                    grammar::fold_loop(s, at, value@) == grammar::value(s, i),
                decreases s.len() - at,
            {
                let op = match &self.current_token {
                    Token::Operator(op) => op.clone(),
                    _ => {
                        return Ok(ASTNode::Number(value));
                    },
                };
                match self.next_token(Ghost(s), Ghost(at)) {
                    Ok(_) => {},
                    Err(e) => {
                        return Err(e);
                    },
                }
                let next = match &self.current_token {
                    Token::Number(next_value) => next_value.clone(),
                    _ => {
                        return Err(
                            ParseError::new(ParseErrorKind::ExpectedNumber, self.position),
                        );
                    },
                };
                match fold_constant(value.as_str(), op.as_str(), next.as_str()) {
                    Ok(folded) => {
                        value = folded;
                    },
                    Err(kind) => {
                        return Err(ParseError::new(kind, self.position));
                    },
                }
                match self.next_token(Ghost(s), Ghost(at + 1)) {
                    Ok(_) => {},
                    Err(e) => {
                        return Err(e);
                    },
                }
                proof {
                    at = at + 2;
                }
            }
        }
        let text = match &self.current_token {
            Token::String(value) => value.clone(),
            _ => {
                return Err(ParseError::new(ParseErrorKind::UnexpectedValue, self.position));
            },
        };
        match self.next_token(Ghost(s), Ghost(i)) {
            Ok(_) => Ok(ASTNode::StringLiteral(text)),
            Err(e) => Err(e),
        }
    }
}

impl Parser {
    /// Reads `params = {` and the pairs of a name and a value that follow,
    /// up to the closing `}` or the end of the input, which is left standing.
    fn parse_params(&mut self, Ghost(s): Ghost<Seq<Lexeme>>, Ghost(i): Ghost<int>) -> (r: Result<
        Vec<(String, ASTNode)>,
        ParseError,
    >)
        requires
            old(self).at(s, i),
        ensures
            final(self).source().wf(),
            match grammar::params(s, i) {
                Ok((pairs, j)) => r matches Ok(list) && named_nodes_view(list@) == pairs
                    && final(self).at(s, j),
                Err(e) => r matches Err(err) && err@ == e,
            },
    {
        let keyword = Token::Identifier("params".to_owned());
        let ghost i1 = grammar::expect_token(s, i, keyword@, ParseErrorKind::ExpectedParams)->Ok_0;
        match self.expect_token(keyword, ParseErrorKind::ExpectedParams, Ghost(s), Ghost(i)) {
            Ok(_) => {},
            Err(e) => {
                return Err(e);
            },
        }
        let ghost i2 = grammar::expect_operator(s, i1, "="@)->Ok_0;
        match self.expect_operator("=", Ghost(s), Ghost(i1)) {
            Ok(_) => {},
            Err(e) => {
                return Err(e);
            },
        }
        let ghost i3 = grammar::expect_token(
            s,
            i2,
            TokenView::LeftBrace,
            ParseErrorKind::ExpectedParamsOpen,
        )->Ok_0;
        match self.expect_token(
            Token::LeftBrace,
            ParseErrorKind::ExpectedParamsOpen,
            Ghost(s),
            Ghost(i2),
        ) {
            Ok(_) => {},
            Err(e) => {
                return Err(e);
            },
        }
        let mut params: Vec<(String, ASTNode)> = Vec::new();
        let ghost mut at = i3;
        proof {
            assert(named_nodes_view(params@) =~= Seq::<(Seq<char>, AstView)>::empty());
        }
        loop
            invariant
                self.at(s, at),
                grammar::params_loop(s, at, named_nodes_view(params@)) == grammar::params(s, i),
            decreases s.len() - at,
        {
            if self.current_token == Token::RightBrace || self.current_token == Token::Eof {
                return Ok(params);
            }
            let ghost a1 = grammar::expect_identifier(s, at)->Ok_0.1;
            let id = match self.expect_identifier(Ghost(s), Ghost(at)) {
                Ok(id) => id,
                Err(e) => {
                    return Err(e);
                },
            };
            let ghost a2 = grammar::expect_operator(s, a1, "="@)->Ok_0;
            match self.expect_operator("=", Ghost(s), Ghost(a1)) {
                Ok(_) => {},
                Err(e) => {
                    return Err(e);
                },
            }
            let ghost a3 = grammar::value(s, a2)->Ok_0.1;
            let value = match self.expect_value(Ghost(s), Ghost(a2)) {
                Ok(value) => value,
                Err(e) => {
                    return Err(e);
                },
            };
            proof {
                grammar::lemma_value(s, a2);
                lemma_named_nodes_view_push(params@, id, value);
                at = a3;
            }
            params.push((id, value));
        }
    }

    /// Reads `preset = "<name>"`.
    fn parse_preset(&mut self, Ghost(s): Ghost<Seq<Lexeme>>, Ghost(i): Ghost<int>) -> (r: Result<
        String,
        ParseError,
    >)
        requires
            old(self).at(s, i),
        ensures
            final(self).source().wf(),
            match grammar::preset(s, i) {
                Ok((text, j)) => r matches Ok(found) && found@ == text && final(self).at(s, j),
                Err(e) => r matches Err(err) && err@ == e,
            },
    {
        let keyword = Token::Identifier("preset".to_owned());
        let ghost i1 = grammar::expect_token(s, i, keyword@, ParseErrorKind::ExpectedPreset)->Ok_0;
        match self.expect_token(keyword, ParseErrorKind::ExpectedPreset, Ghost(s), Ghost(i)) {
            Ok(_) => {},
            Err(e) => {
                return Err(e);
            },
        }
        let ghost i2 = grammar::expect_operator(s, i1, "="@)->Ok_0;
        match self.expect_operator("=", Ghost(s), Ghost(i1)) {
            Ok(_) => {},
            Err(e) => {
                return Err(e);
            },
        }
        self.expect_string(ParseErrorKind::ExpectedPresetString, Ghost(s), Ghost(i2))
    }

    /// Reads one scheme: its preset and its parameters.
    fn parse_scheme(&mut self, Ghost(s): Ghost<Seq<Lexeme>>, Ghost(i): Ghost<int>) -> (r: Result<
        ASTNode,
        ParseError,
    >)
        requires
            old(self).at(s, i),
        ensures
            final(self).source().wf(),
            match grammar::scheme(s, i) {
                Ok((v, j)) => r matches Ok(node) && node.view() == v && final(self).at(s, j),
                Err(e) => r matches Err(err) && err@ == e,
            },
    {
        let ghost i1 = grammar::preset(s, i)->Ok_0.1;
        let preset = match self.parse_preset(Ghost(s), Ghost(i)) {
            Ok(preset) => preset,
            Err(e) => {
                return Err(e);
            },
        };
        let params = match self.parse_params(Ghost(s), Ghost(i1)) {
            Ok(params) => params,
            Err(e) => {
                return Err(e);
            },
        };
        let scheme = ASTNode::Scheme { preset, params };
        let mut list: Vec<ASTNode> = Vec::new();
        list.push(scheme);
        let node = ASTNode::Schemes(list);
        proof {
            lemma_view_of_lists(scheme);
            lemma_view_of_lists(node);
            assert(nodes_view(list@) =~= seq![scheme.view()]);
        }
        Ok(node)
    }

    /// Reads `schemes = [` and the schemes up to the closing `]`.
    fn parse_schemes(&mut self, Ghost(s): Ghost<Seq<Lexeme>>, Ghost(i): Ghost<int>) -> (r: Result<
        Vec<ASTNode>,
        ParseError,
    >)
        requires
            old(self).at(s, i),
        ensures
            final(self).source().wf(),
            match grammar::schemes(s, i) {
                Ok((nodes, j)) => r matches Ok(list) && nodes_view(list@) == nodes
                    && final(self).at(s, j),
                Err(e) => r matches Err(err) && err@ == e,
            },
    {
        let ghost i1 = grammar::advance(s, i)->Ok_0;
        match self.next_token(Ghost(s), Ghost(i)) {
            Ok(_) => {},
            Err(e) => {
                return Err(e);
            },
        }
        let ghost i2 = grammar::expect_operator(s, i1, "="@)->Ok_0;
        match self.expect_operator("=", Ghost(s), Ghost(i1)) {
            Ok(_) => {},
            Err(e) => {
                return Err(e);
            },
        }
        let ghost i3 = grammar::expect_token(
            s,
            i2,
            TokenView::LeftBracket,
            ParseErrorKind::ExpectedSchemesOpen,
        )->Ok_0;
        match self.expect_token(
            Token::LeftBracket,
            ParseErrorKind::ExpectedSchemesOpen,
            Ghost(s),
            Ghost(i2),
        ) {
            Ok(_) => {},
            Err(e) => {
                return Err(e);
            },
        }
        let mut schemes: Vec<ASTNode> = Vec::new();
        let ghost mut at = i3;
        proof {
            assert(nodes_view(schemes@) =~= Seq::<AstView>::empty());
        }
        loop
            invariant
                self.at(s, at),
                grammar::schemes_loop(s, at, nodes_view(schemes@)) == grammar::schemes(s, i),
            decreases s.len() - at,
        {
            if self.current_token == Token::RightBracket {
                match self.next_token(Ghost(s), Ghost(at)) {
                    Ok(_) => {
                        return Ok(schemes);
                    },
                    Err(e) => {
                        return Err(e);
                    },
                }
            }
            if self.current_token == Token::Eof {
                return Err(ParseError::new(ParseErrorKind::ExpectedSchemesClose, self.position));
            }
            if self.current_token == Token::LeftBrace {
                match self.next_token(Ghost(s), Ghost(at)) {
                    Ok(_) => {},
                    Err(e) => {
                        return Err(e);
                    },
                }
                let ghost a2 = grammar::scheme(s, at + 1)->Ok_0.1;
                let node = match self.parse_scheme(Ghost(s), Ghost(at + 1)) {
                    Ok(node) => node,
                    Err(e) => {
                        return Err(e);
                    },
                };
                if !(self.current_token == Token::RightBrace) {
                    return Err(
                        ParseError::new(ParseErrorKind::ExpectedSchemeClose, self.position),
                    );
                }
                proof {
                    grammar::lemma_scheme(s, at + 1);
                    lemma_nodes_view_push(schemes@, node);
                }
                schemes.push(node);
                match self.next_token(Ghost(s), Ghost(a2)) {
                    Ok(_) => {},
                    Err(e) => {
                        return Err(e);
                    },
                }
                proof {
                    at = a2 + 1;
                }
            } else {
                match self.next_token(Ghost(s), Ghost(at)) {
                    Ok(_) => {},
                    Err(e) => {
                        return Err(e);
                    },
                }
                proof {
                    at = at + 1;
                }
            }
        }
    }

    /// Reads `version = "<text>"`, and hands out the word `version` with the text.
    fn parse_version(&mut self, Ghost(s): Ghost<Seq<Lexeme>>, Ghost(i): Ghost<int>) -> (r: Result<
        (String, String),
        ParseError,
    >)
        requires
            old(self).at(s, i),
        ensures
            final(self).source().wf(),
            match grammar::version(s, i) {
                Ok((text, j)) => r matches Ok(found) && found.0@ == "version"@ && found.1@ == text
                    && final(self).at(s, j),
                Err(e) => r matches Err(err) && err@ == e,
            },
    {
        let ghost i1 = grammar::advance(s, i)->Ok_0;
        match self.next_token(Ghost(s), Ghost(i)) {
            Ok(_) => {},
            Err(e) => {
                return Err(e);
            },
        }
        let ghost i2 = grammar::expect_operator(s, i1, "="@)->Ok_0;
        match self.expect_operator("=", Ghost(s), Ghost(i1)) {
            Ok(_) => {},
            Err(e) => {
                return Err(e);
            },
        }
        match self.expect_string(ParseErrorKind::ExpectedVersionString, Ghost(s), Ghost(i2)) {
            Ok(value) => Ok(("version".to_owned(), value)),
            Err(e) => Err(e),
        }
    }

    /// Reads a define block.
    fn parse_define(&mut self, Ghost(s): Ghost<Seq<Lexeme>>, Ghost(i): Ghost<int>) -> (r: Result<
        ASTNode,
        ParseError,
    >)
        requires
            old(self).at(s, i),
        ensures
            final(self).source().wf(),
            match grammar::define(s, i) {
                Ok((v, j)) => r matches Ok(node) && node.view() == v && final(self).at(s, j),
                Err(e) => r matches Err(err) && err@ == e,
            },
    {
        let ghost i1 = grammar::advance(s, i)->Ok_0;
        match self.next_token(Ghost(s), Ghost(i)) {
            Ok(_) => {},
            Err(e) => {
                return Err(e);
            },
        }
        let ghost i2 = grammar::expect_token(
            s,
            i1,
            TokenView::LeftBrace,
            ParseErrorKind::ExpectedDefineOpen,
        )->Ok_0;
        match self.expect_token(
            Token::LeftBrace,
            ParseErrorKind::ExpectedDefineOpen,
            Ghost(s),
            Ghost(i1),
        ) {
            Ok(_) => {},
            Err(e) => {
                return Err(e);
            },
        }
        let mut version: Option<String> = None;
        let mut schemes: Vec<ASTNode> = Vec::new();
        let ghost mut at = i2;
        proof {
            assert(nodes_view(schemes@) =~= Seq::<AstView>::empty());
        }
        loop
            invariant
                self.at(s, at),
                grammar::define_loop(s, at, crate::ast::text_view(version), nodes_view(schemes@))
                    == grammar::define(s, i),
            decreases s.len() - at,
        {
            if self.current_token == Token::Version {
                let ghost a1 = grammar::version(s, at)->Ok_0.1;
                match self.parse_version(Ghost(s), Ghost(at)) {
                    Ok(found) => {
                        version = Some(found.1);
                    },
                    Err(e) => {
                        return Err(e);
                    },
                }
                proof {
                    at = a1;
                }
            } else if self.current_token == Token::Schemes {
                let ghost a1 = grammar::schemes(s, at)->Ok_0.1;
                proof {
                    grammar::lemma_schemes(s, at);
                }
                match self.parse_schemes(Ghost(s), Ghost(at)) {
                    Ok(found) => {
                        schemes = found;
                    },
                    Err(e) => {
                        return Err(e);
                    },
                }
                proof {
                    at = a1;
                }
            } else if self.current_token == Token::RightBrace {
                match self.next_token(Ghost(s), Ghost(at)) {
                    Ok(_) => {
                        let node = ASTNode::Define { version, schemes };
                        proof {
                            lemma_view_of_lists(node);
                        }
                        return Ok(node);
                    },
                    Err(e) => {
                        return Err(e);
                    },
                }
            } else if self.current_token == Token::Eof {
                return Err(ParseError::new(ParseErrorKind::UnterminatedDefine, self.position));
            } else {
                match self.next_token(Ghost(s), Ghost(at)) {
                    Ok(_) => {},
                    Err(e) => {
                        return Err(e);
                    },
                }
                proof {
                    at = at + 1;
                }
            }
        }
    }
}

impl Parser {
    /// Reads a state block: `$state {`, declarations `<type> <name>;`, `}`.
    fn parse_state_block(&mut self, Ghost(s): Ghost<Seq<Lexeme>>, Ghost(i): Ghost<int>) -> (r:
        Result<ASTNode, ParseError>)
        requires
            old(self).at(s, i),
        ensures
            final(self).source().wf(),
            match grammar::state_block(s, i) {
                Ok((v, j)) => r matches Ok(node) && node.view() == v && final(self).at(s, j),
                Err(e) => r matches Err(err) && err@ == e,
            },
    {
        let ghost i1 = grammar::expect_token(
            s,
            i,
            TokenView::State,
            ParseErrorKind::ExpectedStateKeyword,
        )->Ok_0;
        match self.expect_token(
            Token::State,
            ParseErrorKind::ExpectedStateKeyword,
            Ghost(s),
            Ghost(i),
        ) {
            Ok(_) => {},
            Err(e) => {
                return Err(e);
            },
        }
        let ghost i2 = grammar::expect_token(
            s,
            i1,
            TokenView::LeftBrace,
            ParseErrorKind::ExpectedStateOpen,
        )->Ok_0;
        match self.expect_token(
            Token::LeftBrace,
            ParseErrorKind::ExpectedStateOpen,
            Ghost(s),
            Ghost(i1),
        ) {
            Ok(_) => {},
            Err(e) => {
                return Err(e);
            },
        }
        let mut state_variables: Vec<ASTNode> = Vec::new();
        let ghost mut at = i2;
        proof {
            assert(nodes_view(state_variables@) =~= Seq::<AstView>::empty());
        }
        loop
            invariant
                self.at(s, at),
                grammar::state_loop(s, at, nodes_view(state_variables@)) == grammar::state_block(
                    s,
                    i,
                ),
            decreases s.len() - at,
        {
            if self.current_token == Token::RightBrace {
                match self.next_token(Ghost(s), Ghost(at)) {
                    Ok(_) => {
                        let node = ASTNode::State(state_variables);
                        proof {
                            lemma_view_of_lists(node);
                        }
                        return Ok(node);
                    },
                    Err(e) => {
                        return Err(e);
                    },
                }
            }
            if self.current_token == Token::Eof {
                return Err(ParseError::new(ParseErrorKind::ExpectedStateClose, self.position));
            }
            let ghost a1 = grammar::expect_variable_type(s, at)->Ok_0.1;
            let var_type = match self.expect_variable_type(Ghost(s), Ghost(at)) {
                Ok(var_type) => var_type,
                Err(e) => {
                    return Err(e);
                },
            };
            let ghost a2 = grammar::expect_identifier(s, a1)->Ok_0.1;
            let var_name = match self.expect_identifier(Ghost(s), Ghost(a1)) {
                Ok(var_name) => var_name,
                Err(e) => {
                    return Err(e);
                },
            };
            let node = ASTNode::StateVariableDeclaration { name: var_name, var_type };
            proof {
                lemma_nodes_view_push(state_variables@, node);
            }
            state_variables.push(node);
            let ghost a3 = grammar::expect_token(
                s,
                a2,
                TokenView::SemiColon,
                ParseErrorKind::ExpectedSemiColon,
            )->Ok_0;
            match self.expect_token(
                Token::SemiColon,
                ParseErrorKind::ExpectedSemiColon,
                Ghost(s),
                Ghost(a2),
            ) {
                Ok(_) => {},
                Err(e) => {
                    return Err(e);
                },
            }
            proof {
                at = a3;
            }
        }
    }

    /// Reads a consts block: `$consts {`, declarations
    /// `<type> <name> = <value>;`, `}`.
    fn parse_consts_block(&mut self, Ghost(s): Ghost<Seq<Lexeme>>, Ghost(i): Ghost<int>) -> (r:
        Result<ASTNode, ParseError>)
        requires
            old(self).at(s, i),
        ensures
            final(self).source().wf(),
            match grammar::consts_block(s, i) {
                Ok((v, j)) => r matches Ok(node) && node.view() == v && final(self).at(s, j),
                Err(e) => r matches Err(err) && err@ == e,
            },
    {
        let ghost i1 = grammar::expect_token(
            s,
            i,
            TokenView::Consts,
            ParseErrorKind::ExpectedConstsKeyword,
        )->Ok_0;
        match self.expect_token(
            Token::Consts,
            ParseErrorKind::ExpectedConstsKeyword,
            Ghost(s),
            Ghost(i),
        ) {
            Ok(_) => {},
            Err(e) => {
                return Err(e);
            },
        }
        let ghost i2 = grammar::expect_token(
            s,
            i1,
            TokenView::LeftBrace,
            ParseErrorKind::ExpectedConstsOpen,
        )->Ok_0;
        match self.expect_token(
            Token::LeftBrace,
            ParseErrorKind::ExpectedConstsOpen,
            Ghost(s),
            Ghost(i1),
        ) {
            Ok(_) => {},
            Err(e) => {
                return Err(e);
            },
        }
        let mut const_variables: Vec<ASTNode> = Vec::new();
        let ghost mut at = i2;
        proof {
            assert(nodes_view(const_variables@) =~= Seq::<AstView>::empty());
        }
        loop
            invariant
                self.at(s, at),
                grammar::consts_loop(s, at, nodes_view(const_variables@)) == grammar::consts_block(
                    s,
                    i,
                ),
            decreases s.len() - at,
        {
            if self.current_token == Token::RightBrace {
                match self.next_token(Ghost(s), Ghost(at)) {
                    Ok(_) => {
                        let node = ASTNode::Consts(const_variables);
                        proof {
                            lemma_view_of_lists(node);
                        }
                        return Ok(node);
                    },
                    Err(e) => {
                        return Err(e);
                    },
                }
            }
            if self.current_token == Token::Eof {
                return Err(ParseError::new(ParseErrorKind::ExpectedConstsClose, self.position));
            }
            let ghost a1 = grammar::expect_variable_type(s, at)->Ok_0.1;
            let var_type = match self.expect_variable_type(Ghost(s), Ghost(at)) {
                Ok(var_type) => var_type,
                Err(e) => {
                    return Err(e);
                },
            };
            let ghost a2 = grammar::expect_identifier(s, a1)->Ok_0.1;
            let var_name = match self.expect_identifier(Ghost(s), Ghost(a1)) {
                Ok(var_name) => var_name,
                Err(e) => {
                    return Err(e);
                },
            };
            let ghost a3 = grammar::expect_operator(s, a2, "="@)->Ok_0;
            match self.expect_operator("=", Ghost(s), Ghost(a2)) {
                Ok(_) => {},
                Err(e) => {
                    return Err(e);
                },
            }
            let ghost a4 = grammar::value(s, a3)->Ok_0.1;
            let value = match self.expect_value(Ghost(s), Ghost(a3)) {
                Ok(value) => value,
                Err(e) => {
                    return Err(e);
                },
            };
            let node = ASTNode::ConstDeclaration {
                name: var_name,
                var_type,
                value: Box::new(value),
            };
            proof {
                grammar::lemma_value(s, a3);
                lemma_nodes_view_push(const_variables@, node);
            }
            const_variables.push(node);
            let ghost a5 = grammar::expect_token(
                s,
                a4,
                TokenView::SemiColon,
                ParseErrorKind::ExpectedSemiColon,
            )->Ok_0;
            match self.expect_token(
                Token::SemiColon,
                ParseErrorKind::ExpectedSemiColon,
                Ghost(s),
                Ghost(a4),
            ) {
                Ok(_) => {},
                Err(e) => {
                    return Err(e);
                },
            }
            proof {
                at = a5;
            }
        }
    }

    /// Reads the keyword of the procedures block. The grammar of procedures
    /// is not laid down yet, so the node is empty.
    fn parse_procedures(&mut self, Ghost(s): Ghost<Seq<Lexeme>>, Ghost(i): Ghost<int>) -> (r:
        Result<ASTNode, ParseError>)
        requires
            old(self).at(s, i),
        ensures
            final(self).source().wf(),
            match grammar::procedures(s, i) {
                Ok((v, j)) => r matches Ok(node) && node.view() == v && final(self).at(s, j),
                Err(e) => r matches Err(err) && err@ == e,
            },
    {
        match self.next_token(Ghost(s), Ghost(i)) {
            Ok(_) => {
                let node = ASTNode::Procedures(Vec::new());
                proof {
                    lemma_view_of_lists(node);
                    assert(nodes_view(Seq::<ASTNode>::empty()) =~= Seq::<AstView>::empty());
                }
                Ok(node)
            },
            Err(e) => Err(e),
        }
    }

    /// Parses everything that the lexer has yet to read, up to the end of
    /// the input, into one root node that holds the blocks in the order they
    /// were written. Tokens between blocks are passed over. Fails with the
    /// first thing that is wrong, be it in the grammar, in the arithmetic of
    /// a constant or in an include directive. The tokens have to come to an
    /// end, as they do unless a header includes itself, directly or through
    /// others: on such a source parsing would not return.
    pub fn parse(&mut self) -> (r: Result<ASTNode, ParseError>)
        requires
            old(self).source().wf(),
            ends(old(self).source()),
        ensures
            final(self).source().wf(),
            match grammar::program(stream(old(self).source())) {
                Ok(v) => r matches Ok(node) && node.view() == v,
                Err(e) => r matches Err(err) && err@ == e,
            },
            r is Ok ==> final(self).source().next().0 == Ok::<TokenView, LexErrorView>(
                TokenView::Eof,
            ),
    {
        let ghost s = stream(self.lexer@);
        proof {
            lemma_stream(self.lexer@);
        }
        match self.first_token(Ghost(s)) {
            Ok(_) => {},
            Err(e) => {
                return Err(e);
            },
        }
        let mut root: Vec<ASTNode> = Vec::new();
        let ghost mut at = 0int;
        proof {
            assert(nodes_view(root@) =~= Seq::<AstView>::empty());
        }
        loop
            invariant
                self.at(s, at),
                s == stream(old(self).source()),
                s[0].result is Ok,
                grammar::root_loop(s, at, nodes_view(root@)) == grammar::root_loop(
                    s,
                    0,
                    Seq::empty(),
                ),
            decreases s.len() - at,
        {
            proof {
                grammar::lemma_blocks(s, at);
            }
            if self.current_token == Token::Eof {
                let node = ASTNode::Root(root);
                proof {
                    lemma_view_of_lists(node);
                    lemma_stream(self.lexer@);
                    assert(s.skip(s.len() - 1)[0] == s[at]);
                }
                return Ok(node);
            }
            let ghost next = at;
            let block: Option<ASTNode>;
            if self.current_token == Token::Define {
                proof {
                    next = grammar::define(s, at)->Ok_0.1;
                }
                match self.parse_define(Ghost(s), Ghost(at)) {
                    Ok(node) => {
                        block = Some(node);
                    },
                    Err(e) => {
                        return Err(e);
                    },
                }
            } else if self.current_token == Token::State {
                proof {
                    next = grammar::state_block(s, at)->Ok_0.1;
                }
                match self.parse_state_block(Ghost(s), Ghost(at)) {
                    Ok(node) => {
                        block = Some(node);
                    },
                    Err(e) => {
                        return Err(e);
                    },
                }
            } else if self.current_token == Token::Consts {
                proof {
                    next = grammar::consts_block(s, at)->Ok_0.1;
                }
                match self.parse_consts_block(Ghost(s), Ghost(at)) {
                    Ok(node) => {
                        block = Some(node);
                    },
                    Err(e) => {
                        return Err(e);
                    },
                }
            } else if self.current_token == Token::Procedures {
                proof {
                    next = grammar::procedures(s, at)->Ok_0.1;
                }
                match self.parse_procedures(Ghost(s), Ghost(at)) {
                    Ok(node) => {
                        block = Some(node);
                    },
                    Err(e) => {
                        return Err(e);
                    },
                }
            } else {
                proof {
                    next = at + 1;
                }
                match self.next_token(Ghost(s), Ghost(at)) {
                    Ok(_) => {
                        block = None;
                    },
                    Err(e) => {
                        return Err(e);
                    },
                }
            }
            if let Some(node) = block {
                proof {
                    lemma_nodes_view_push(root@, node);
                }
                root.push(node);
            }
            proof {
                at = next;
            }
        }
    }
}

} // verus!
