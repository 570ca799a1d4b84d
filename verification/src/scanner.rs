//! Scanning one token out of a buffer of characters. Nothing here keeps
//! state: each function takes the buffer and a position, and says which token
//! starts there and where it ends.

use vstd::prelude::*;
use vstd::slice::slice_subrange;
use crate::decimal::{is_ascii_digit, is_digit, parse_bounded, parse_decimal};
use crate::text::{
    blank, is_blank, is_letter, is_letter_or_numeral, letter, letter_or_numeral,
};
use crate::token::{Token, TokenView};

verus! {

/// The sets of characters that the scanner consumes in runs.
#[derive(Debug, Clone, Copy, PartialEq, Eq)]
pub enum CharClass {
    /// White space between tokens.
    Blank,
    /// What a line comment holds: anything but a line feed.
    CommentBody,
    /// What a word is made of: letters, numerals, `_` and `$`.
    WordPart,
    /// What a string literal holds: anything but a double quote.
    StringBody,
    /// What a numeric literal is made of: digits, `.`, `e` and `E`.
    NumberPart,
    /// What stands before the exponent of a numeric literal: anything but `e` and `E`.
    Mantissa,
}

impl CharClass {
    /// Whether `c` belongs to this class.
    pub open spec fn holds(self, c: char) -> bool {
        match self {
            CharClass::Blank => is_blank(c),
            CharClass::CommentBody => c != '\n',
            CharClass::WordPart => is_letter_or_numeral(c) || c == '_' || c == '$',
            CharClass::StringBody => c != '"',
            CharClass::NumberPart => is_digit(c) || c == '.' || c == 'e' || c == 'E',
            CharClass::Mantissa => c != 'e' && c != 'E',
        }
    }

    /// Whether `c` belongs to this class.
    pub fn contains(self, c: char) -> (r: bool)
        ensures
            r == self.holds(c),
    {
        match self {
            CharClass::Blank => blank(c),
            CharClass::CommentBody => c != '\n',
            CharClass::WordPart => letter_or_numeral(c) || c == '_' || c == '$',
            CharClass::StringBody => c != '"',
            CharClass::NumberPart => is_ascii_digit(c) || c == '.' || c == 'e' || c == 'E',
            CharClass::Mantissa => c != 'e' && c != 'E',
        }
    }
}

/// Where the longest run of characters of `class` that starts at `from` ends:
/// the first position at or behind `from` that holds a character outside the
/// class, or the end of the text.
pub open spec fn run_end(text: Seq<char>, from: int, class: CharClass) -> int
    decreases text.len() - from,
{
    if 0 <= from < text.len() && class.holds(text[from]) {
        run_end(text, from + 1, class)
    } else {
        from
    }
}

/// A run ends within the text; all of it is of the class, and what follows it is not.
pub proof fn lemma_run_end(text: Seq<char>, from: int, class: CharClass)
    requires
        0 <= from <= text.len(),
    ensures
        from <= run_end(text, from, class) <= text.len(),
        forall|i: int| from <= i < run_end(text, from, class) ==> class.holds(#[trigger] text[i]),
        run_end(text, from, class) < text.len() ==> !class.holds(
            text[run_end(text, from, class)],
        ),
    decreases text.len() - from,
{
    if from < text.len() && class.holds(text[from]) {
        lemma_run_end(text, from + 1, class);
    }
}

/// A stretch of characters of the class, followed by the end of the text or
/// by a character outside the class, is the run that starts where it starts.
pub proof fn lemma_run_end_is(text: Seq<char>, from: int, to: int, class: CharClass)
    requires
        0 <= from <= to <= text.len(),
        forall|i: int| from <= i < to ==> class.holds(#[trigger] text[i]),
        to < text.len() ==> !class.holds(text[to]),
    ensures
        run_end(text, from, class) == to,
    decreases to - from,
{
    if from < to {
        lemma_run_end_is(text, from + 1, to, class);
    }
}

/// Finds where the run of `class` that starts at `from` ends.
pub fn scan_run(text: &[char], from: usize, class: CharClass) -> (end: usize)
    requires
        from <= text@.len(),
    ensures
        end == run_end(text@, from as int, class),
        from <= end <= text@.len(),
{
    let mut at: usize = from;
    while at < text.len() && class.contains(text[at])
        invariant
            from <= at <= text@.len(),
            run_end(text@, from as int, class) == run_end(text@, at as int, class),
        decreases text@.len() - at,
    {
        at = at + 1;
    }
    at
}

/// The text of `text` from `from` up to `to`, as a string.
pub fn slice_to_string(text: &[char], from: usize, to: usize) -> (r: String)
    requires
        from <= to <= text@.len(),
    ensures
        r@ == text@.subrange(from as int, to as int),
{
    let mut out = String::new();
    let mut at: usize = from;
    while at < to
        invariant
            from <= at <= to <= text@.len(),
            out@ == text@.subrange(from as int, at as int),
        decreases to - at,
    {
        out.push(text[at]);
        proof {
            assert(text@.subrange(from as int, at as int).push(text@[at as int])
                =~= text@.subrange(from as int, at + 1));
        }
        at = at + 1;
    }
    out
}

/// Whether the stretch of `text` from `from` up to `to` reads `word`.
pub fn matches_word(text: &[char], from: usize, to: usize, word: &str) -> (r: bool)
    requires
        from <= to <= text@.len(),
    ensures
        r == (text@.subrange(from as int, to as int) == word@),
{
    let ghost stretch = text@.subrange(from as int, to as int);
    let mut at: usize = from;
    let letters = word.chars();
    for c in iter: letters
        invariant
            iter.seq() == word@,
            from <= to <= text@.len(),
            stretch == text@.subrange(from as int, to as int),
            at == from + iter.index() <= to,
            stretch.take(iter.index() as int) == word@.take(iter.index() as int),
    {
        let ghost k = iter.index() as int;
        if at >= to {
            assert(stretch.len() < word@.len());
            return false;
        }
        if text[at] != c {
            assert(stretch[k] != word@[k]);
            return false;
        }
        proof {
            assert(stretch.take(k + 1) =~= stretch.take(k).push(stretch[k]));
            assert(word@.take(k + 1) =~= word@.take(k).push(word@[k]));
        }
        at = at + 1;
    }
    proof {
        assert(word@.take(word@.len() as int) =~= word@);
        if at == to {
            assert(stretch.take(stretch.len() as int) =~= stretch);
        }
    }
    at == to
}

/// The keyword that a word is, if it is one.
pub open spec fn keyword_of(word: Seq<char>) -> Option<TokenView> {
    if word == "$define"@ {
        Some(TokenView::Define)
    } else if word == "version"@ {
        Some(TokenView::Version)
    } else if word == "schemes"@ {
        Some(TokenView::Schemes)
    } else if word == "$state"@ {
        Some(TokenView::State)
    } else if word == "$consts"@ {
        Some(TokenView::Consts)
    } else if word == "$procedures"@ {
        Some(TokenView::Procedures)
    } else if word == "address"@ {
        Some(TokenView::Address)
    } else if word == "table"@ {
        Some(TokenView::Table)
    } else if word == "u128"@ {
        Some(TokenView::U128)
    } else if word == "u8"@ {
        Some(TokenView::U8)
    } else if word == "bool"@ {
        Some(TokenView::Bool)
    } else if word == "pub"@ {
        Some(TokenView::PubFModifier)
    } else if word == "mut"@ {
        Some(TokenView::MutFModifier)
    } else if word == "return"@ {
        Some(TokenView::Return)
    } else {
        None
    }
}

/// Looks the stretch of `text` from `from` up to `to` up among the keywords.
pub fn keyword(text: &[char], from: usize, to: usize) -> (r: Option<Token>)
    requires
        from <= to <= text@.len(),
    ensures
        match r {
            Some(token) => keyword_of(text@.subrange(from as int, to as int)) == Some(token@),
            None => keyword_of(text@.subrange(from as int, to as int)) is None,
        },
{
    if matches_word(text, from, to, "$define") {
        Some(Token::Define)
    } else if matches_word(text, from, to, "version") {
        Some(Token::Version)
    } else if matches_word(text, from, to, "schemes") {
        Some(Token::Schemes)
    } else if matches_word(text, from, to, "$state") {
        Some(Token::State)
    } else if matches_word(text, from, to, "$consts") {
        Some(Token::Consts)
    } else if matches_word(text, from, to, "$procedures") {
        Some(Token::Procedures)
    } else if matches_word(text, from, to, "address") {
        Some(Token::Address)
    } else if matches_word(text, from, to, "table") {
        Some(Token::Table)
    } else if matches_word(text, from, to, "u128") {
        Some(Token::U128)
    } else if matches_word(text, from, to, "u8") {
        Some(Token::U8)
    } else if matches_word(text, from, to, "bool") {
        Some(Token::Bool)
    } else if matches_word(text, from, to, "pub") {
        Some(Token::PubFModifier)
    } else if matches_word(text, from, to, "mut") {
        Some(Token::MutFModifier)
    } else if matches_word(text, from, to, "return") {
        Some(Token::Return)
    } else {
        None
    }
}

/// `n` zeros.
pub open spec fn zeros(n: nat) -> Seq<char> {
    Seq::new(n, |i: int| '0')
}

/// The exponent that a numeric run carries: what stands behind its first `e`
/// or `E`, read as a decimal that fits in 32 signed bits. A run without such
/// a mark has none, and neither has one whose mark is followed by nothing or
/// by anything but digits.
pub open spec fn exponent_of(run: Seq<char>) -> Option<nat> {
    let mark = run_end(run, 0, CharClass::Mantissa);
    if mark < run.len() {
        parse_decimal(run.subrange(mark + 1, run.len() as int), i32::MAX as nat)
    } else {
        None
    }
}

/// The token that a numeric run is. With an exponent, the number is written
/// out: the characters before the mark, then as many zeros as the exponent
/// says. Without one, the run stands as it is, but for a lone `.`, which is
/// the period.
pub open spec fn number_token(run: Seq<char>) -> TokenView {
    match exponent_of(run) {
        Some(exponent) => TokenView::Number(
            run.subrange(0, run_end(run, 0, CharClass::Mantissa)) + zeros(exponent),
        ),
        None => if run == seq!['.'] {
            TokenView::Period
        } else {
            TokenView::Number(run)
        },
    }
}

/// The token that a single character is, where it starts none of the longer tokens.
pub open spec fn punctuation(c: char) -> TokenView {
    if c == '{' {
        TokenView::LeftBrace
    } else if c == '}' {
        TokenView::RightBrace
    } else if c == '[' {
        TokenView::LeftBracket
    } else if c == ']' {
        TokenView::RightBracket
    } else if c == '(' {
        TokenView::LeftParen
    } else if c == ')' {
        TokenView::RightParen
    } else if c == ',' {
        TokenView::Comma
    } else if c == ';' {
        TokenView::SemiColon
    } else if c == '.' {
        TokenView::Period
    } else {
        TokenView::Operator(seq![c])
    }
}

/// The position behind a closing quote expected at `at`: one further, unless
/// the text ends there.
pub open spec fn past_quote(text: Seq<char>, at: int) -> int {
    if at < text.len() {
        at + 1
    } else {
        at
    }
}

/// The include directive whose keyword ends at `from`: blanks are skipped, an
/// opening quote is optional, and the name runs to the next quote.
pub open spec fn scan_include(text: Seq<char>, from: int) -> (TokenView, int) {
    let quote = run_end(text, from, CharClass::Blank);
    let start = if quote < text.len() && text[quote] == '"' {
        quote + 1
    } else {
        quote
    };
    let end = run_end(text, start, CharClass::StringBody);
    (TokenView::Include(text.subrange(start, end)), past_quote(text, end))
}

/// The word that starts at `start`: the include directive, a keyword, or an identifier.
pub open spec fn scan_word(text: Seq<char>, start: int) -> (TokenView, int) {
    let end = run_end(text, start, CharClass::WordPart);
    let word = text.subrange(start, end);
    if word == "$include"@ {
        scan_include(text, end)
    } else {
        match keyword_of(word) {
            Some(token) => (token, end),
            None => (TokenView::Identifier(word), end),
        }
    }
}

/// The numeric literal that starts at `start`.
pub open spec fn scan_number(text: Seq<char>, start: int) -> (TokenView, int) {
    let end = run_end(text, start, CharClass::NumberPart);
    (number_token(text.subrange(start, end)), end)
}

/// The token that starts at `start`, which holds a character that is no
/// blank, and the position behind it. The rules, first match first: two
/// slashes open a comment; `$` or a letter opens a word; a double quote opens
/// a string; a digit or `.` opens a number; any other character is a token
/// by itself.
pub open spec fn scan_token(text: Seq<char>, start: int) -> (TokenView, int) {
    let c = text[start];
    if c == '/' && start + 1 < text.len() && text[start + 1] == '/' {
        let end = run_end(text, start, CharClass::CommentBody);
        (TokenView::Comment(text.subrange(start, end)), end)
    } else if c == '$' || is_letter(c) {
        scan_word(text, start)
    } else if c == '"' {
        let end = run_end(text, start + 1, CharClass::StringBody);
        (TokenView::String(text.subrange(start + 1, end)), past_quote(text, end))
    } else if is_digit(c) || c == '.' {
        scan_number(text, start)
    } else {
        (punctuation(c), start + 1)
    }
}

/// Every token takes up at least one character and ends within the text.
pub proof fn lemma_scan_advances(text: Seq<char>, start: int)
    requires
        0 <= start < text.len(),
    ensures
        start < scan_token(text, start).1 <= text.len(),
{
    let c = text[start];
    lemma_run_end(text, start, CharClass::CommentBody);
    lemma_run_end(text, start, CharClass::WordPart);
    lemma_run_end(text, start + 1, CharClass::StringBody);
    lemma_run_end(text, start, CharClass::NumberPart);
    if c == '/' && start + 1 < text.len() && text[start + 1] == '/' {
    } else if c == '$' || is_letter(c) {
        let end = run_end(text, start, CharClass::WordPart);
        lemma_run_end(text, end, CharClass::Blank);
        let quote = run_end(text, end, CharClass::Blank);
        lemma_run_end(text, quote, CharClass::StringBody);
        if quote < text.len() {
            lemma_run_end(text, quote + 1, CharClass::StringBody);
        }
    }
}

/// Reads the exponent of a numeric run.
pub fn parse_exponent(number: &[char]) -> (r: Option<i32>)
    ensures
        match r {
            Some(exponent) => exponent >= 0 && exponent_of(number@) == Some(exponent as nat),
            None => exponent_of(number@) is None,
        },
{
    let mark = scan_run(number, 0, CharClass::Mantissa);
    if mark < number.len() {
        let digits = slice_to_string(number, mark + 1, number.len());
        match parse_bounded(digits.as_str(), 2147483647) {
            Some(value) => Some(value as i32),
            None => None,
        }
    } else {
        None
    }
}

/// Writes a number with an exponent out: `base`, then `exponent` zeros, and
/// none for an exponent below zero.
pub fn expand_scientific_notation(base: &[char], exponent: i32) -> (r: String)
    ensures
        r@ == base@ + zeros(
            if exponent > 0 {
                exponent as nat
            } else {
                0
            },
        ),
{
    let mut expanded = slice_to_string(base, 0, base.len());
    let mut written: i32 = 0;
    proof {
        assert(base@.subrange(0, base@.len() as int) =~= base@);
        assert(expanded@ =~= base@ + zeros(0));
    }
    while written < exponent
        invariant
            0 <= written,
            written <= exponent || written == 0,
            expanded@ == base@ + zeros(written as nat),
        decreases exponent - written,
    {
        expanded.push('0');
        proof {
            assert(expanded@ =~= base@ + zeros((written + 1) as nat));
        }
        written = written + 1;
    }
    expanded
}

/// Scans the numeric literal that starts at `start`.
pub fn tokenize_number(text: &[char], start: usize) -> (r: (Token, usize))
    requires
        start <= text@.len(),
    ensures
        (r.0@, r.1 as int) == scan_number(text@, start as int),
{
    let end = scan_run(text, start, CharClass::NumberPart);
    let number = slice_subrange(text, start, end);
    if let Some(exponent) = parse_exponent(number) {
        let base_end = scan_run(number, 0, CharClass::Mantissa);
        let base = slice_subrange(number, 0, base_end);
        let expanded = expand_scientific_notation(base, exponent);
        return (Token::Number(expanded), end);
    }
    if number.len() == 1 && number[0] == '.' {
        proof {
            assert(number@ =~= seq!['.']);
        }
        return (Token::Period, end);
    }
    let literal = slice_to_string(number, 0, number.len());
    proof {
        assert(number@.subrange(0, number@.len() as int) =~= number@);
    }
    (Token::Number(literal), end)
}

/// Scans the include directive whose keyword ends at `from`.
pub fn tokenize_include(text: &[char], from: usize) -> (r: (Token, usize))
    requires
        from <= text@.len(),
    ensures
        (r.0@, r.1 as int) == scan_include(text@, from as int),
{
    let quote = scan_run(text, from, CharClass::Blank);
    let start = if quote < text.len() && text[quote] == '"' {
        quote + 1
    } else {
        quote
    };
    let end = scan_run(text, start, CharClass::StringBody);
    let name = slice_to_string(text, start, end);
    let next = if end < text.len() {
        end + 1
    } else {
        end
    };
    (Token::Include(name), next)
}

/// Scans the token that starts at `start`.
pub fn tokenize(text: &[char], start: usize) -> (r: (Token, usize))
    requires
        start < text@.len(),
    ensures
        (r.0@, r.1 as int) == scan_token(text@, start as int),
        start < r.1 <= text@.len(),
{
    proof {
        lemma_scan_advances(text@, start as int);
    }
    let c = text[start];
    if c == '/' && start + 1 < text.len() && text[start + 1] == '/' {
        let end = scan_run(text, start, CharClass::CommentBody);
        return (Token::Comment(slice_to_string(text, start, end)), end);
    }
    if c == '$' || letter(c) {
        let end = scan_run(text, start, CharClass::WordPart);
        if matches_word(text, start, end, "$include") {
            return tokenize_include(text, end);
        }
        if let Some(token) = keyword(text, start, end) {
            return (token, end);
        }
        return (Token::Identifier(slice_to_string(text, start, end)), end);
    }
    if c == '"' {
        let end = scan_run(text, start + 1, CharClass::StringBody);
        let next = if end < text.len() {
            end + 1
        } else {
            end
        };
        return (Token::String(slice_to_string(text, start + 1, end)), next);
    }
    if is_ascii_digit(c) || c == '.' {
        return tokenize_number(text, start);
    }
    let token = match c {
        '{' => Token::LeftBrace,
        '}' => Token::RightBrace,
        '[' => Token::LeftBracket,
        ']' => Token::RightBracket,
        '(' => Token::LeftParen,
        ')' => Token::RightParen,
        ',' => Token::Comma,
        ';' => Token::SemiColon,
        '.' => Token::Period,
        _ => Token::Operator(slice_to_string(text, start, start + 1)),
    };
    proof {
        assert(text@.subrange(start as int, start + 1) =~= seq![c]);
    }
    (token, start + 1)
}

/// A numeric literal without an exponent is handed out as it stands: where
/// a stretch of digits and dots with at least one digit in it is followed by
/// the end of the text or by a character that no number holds, the token
/// that starts with the stretch is the number with the text of the stretch,
/// and it ends where the stretch ends. The first character of the stretch
/// is no blank, so nothing is skipped before it.
pub proof fn lemma_plain_literal(text: Seq<char>, start: int, end: int)
    requires
        0 <= start < end <= text.len(),
        forall|i: int| start <= i < end ==> is_digit(#[trigger] text[i]) || text[i] == '.',
        exists|i: int| start <= i < end && is_digit(#[trigger] text[i]),
        end < text.len() ==> !CharClass::NumberPart.holds(text[end]),
    ensures
        run_end(text, start, CharClass::Blank) == start,
        scan_token(text, start) == (TokenView::Number(text.subrange(start, end)), end),
{
    let run = text.subrange(start, end);
    assert(is_digit(text[start]) || text[start] == '.');
    assert forall|i: int| start <= i < end implies CharClass::NumberPart.holds(
        #[trigger] text[i],
    ) by {
        assert(is_digit(text[i]) || text[i] == '.');
    }
    lemma_run_end_is(text, start, end, CharClass::NumberPart);
    assert forall|i: int| 0 <= i < run.len() implies CharClass::Mantissa.holds(
        #[trigger] run[i],
    ) by {
        assert(run[i] == text[start + i]);
        assert(is_digit(text[start + i]) || text[start + i] == '.');
    }
    lemma_run_end_is(run, 0, run.len() as int, CharClass::Mantissa);
    let d = choose|i: int| start <= i < end && is_digit(#[trigger] text[i]);
    assert(run[d - start] == text[d]);
    if run == seq!['.'] {
        assert(run.len() == 1);
        assert(run[0] == '.');
    }
}

} // verus!
