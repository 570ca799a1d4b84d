//! The tokenizer. A lexer reads a root text and, on `$include`, the text of
//! the header named, which it was given beforehand; headers may include
//! further headers. The texts being read form a stack: an include pushes the
//! header, and the end of a header pops it, so that the reader of the tokens
//! never sees where one text ends and the next goes on. Nothing looks for
//! cycles: a header that includes itself, directly or through others, is
//! entered again each time, and the tokens never come to an end.

use vstd::prelude::*;
use crate::decimal::is_digit;
use crate::scanner::{
    lemma_plain_literal, lemma_run_end, lemma_scan_advances, run_end, scan_run, scan_token,
    tokenize, CharClass,
};
use crate::text::is_blank;
use crate::token::{Token, TokenView};

verus! {

/// A text being read: which one, and how far.
pub struct Cursor {
    /// The index of the text; 0 is the root text.
    pub source: int,
    /// The number of characters of it that are behind the cursor.
    pub pos: int,
}

/// Why no token could be read.
#[derive(Debug, Clone, PartialEq, Eq)]
pub enum LexError {
    /// The header named in an include directive was not given to the lexer.
    MissingInclude(String),
}

/// A lexical error as a mathematical value.
pub enum LexErrorView {
    MissingInclude(Seq<char>),
}

impl View for LexError {
    type V = LexErrorView;

    open spec fn view(&self) -> LexErrorView {
        match self {
            LexError::MissingInclude(name) => LexErrorView::MissingInclude(name@),
        }
    }
}

/// What one reading step hands out, as a mathematical value.
pub open spec fn outcome(r: Result<Token, LexError>) -> Result<TokenView, LexErrorView> {
    match r {
        Ok(token) => Ok(token@),
        Err(e) => Err(e@),
    }
}

/// The first index at or behind `from` at which `names` holds `name`.
pub open spec fn find_name(names: Seq<Seq<char>>, name: Seq<char>, from: int) -> Option<int>
    decreases names.len() - from,
{
    if from < 0 || from >= names.len() {
        None
    } else if names[from] == name {
        Some(from)
    } else {
        find_name(names, name, from + 1)
    }
}

/// What `find_name` finds lies in range and bears the name.
pub proof fn lemma_find_name(names: Seq<Seq<char>>, name: Seq<char>, from: int)
    requires
        0 <= from,
    ensures
        match find_name(names, name, from) {
            Some(i) => from <= i < names.len() && names[i] == name,
            None => forall|i: int| from <= i < names.len() ==> names[i] != name,
        },
    decreases names.len() - from,
{
    if from < names.len() && names[from] != name {
        lemma_find_name(names, name, from + 1);
    }
}

/// The state of a lexer: the texts it knows, each under its name, and the
/// stack of those it is reading, the innermost last. Text 0 is the root
/// text; its name plays no part. One text may be on the stack more than once.
pub struct LexState {
    pub names: Seq<Seq<char>>,
    pub texts: Seq<Seq<char>>,
    pub stack: Seq<Cursor>,
}

impl LexState {
    /// The state in which nothing of `input` has been read and no header is known.
    pub open spec fn start(input: Seq<char>) -> LexState {
        LexState {
            names: seq![Seq::<char>::empty()],
            texts: seq![input],
            stack: seq![Cursor { source: 0, pos: 0 }],
        }
    }

    /// The state is sound: every text has a name, the root text is at the
    /// bottom of the stack, and every cursor lies within its text.
    pub open spec fn wf(self) -> bool {
        &&& self.names.len() == self.texts.len()
        &&& self.stack.len() >= 1
        &&& self.stack[0].source == 0
        &&& forall|i: int|
            0 <= i < self.stack.len() ==> 0 <= (#[trigger] self.stack[i]).source
                < self.texts.len() && 0 <= self.stack[i].pos
                <= self.texts[self.stack[i].source].len()
    }

    /// The innermost frame.
    pub open spec fn top(self) -> Cursor {
        self.stack.last()
    }

    /// The text being read.
    pub open spec fn text(self) -> Seq<char> {
        self.texts[self.top().source]
    }

    /// The cursor in the text being read.
    pub open spec fn position(self) -> nat {
        self.top().pos as nat
    }

    /// The same state with the cursor of the text being read at `pos`.
    pub open spec fn moved_to(self, pos: int) -> LexState {
        LexState {
            stack: self.stack.update(
                self.stack.len() - 1,
                Cursor { source: self.top().source, pos },
            ),
            ..self
        }
    }

    /// The same state without the innermost frame.
    pub open spec fn popped(self) -> LexState {
        LexState { stack: self.stack.drop_last(), ..self }
    }

    /// The same state, about to read text `source` from its start.
    pub open spec fn entered(self, source: int) -> LexState {
        LexState { stack: self.stack.push(Cursor { source, pos: 0 }), ..self }
    }

    /// The same state with one more header.
    pub open spec fn with_header(self, name: Seq<char>, text: Seq<char>) -> LexState {
        LexState { names: self.names.push(name), texts: self.texts.push(text), ..self }
    }

    /// The index of the header called `name`: the first one given under that name.
    pub open spec fn header(self, name: Seq<char>) -> Option<int> {
        find_name(self.names, name, 1)
    }

    /// The state after blanks are skipped and every header that holds nothing
    /// but blanks from its cursor on is left. The cursor then stands on the
    /// first character of a token, or at the end of the root text.
    pub open spec fn settled(self) -> LexState
        decreases self.stack.len(),
    {
        let start = run_end(self.text(), self.top().pos, CharClass::Blank);
        if start >= self.text().len() && self.stack.len() > 1 {
            self.popped().settled()
        } else {
            self.moved_to(start)
        }
    }

    /// One reading step: the token read, or why there is none, and the state
    /// afterwards. At the end of the root text the token is `Eof` and the
    /// state stays. An include directive makes the lexer enter the header
    /// named, from its start, whether or not that header is being read
    /// already; where the header is unknown, the step fails and the
    /// directive stays unread.
    pub open spec fn next(self) -> (Result<TokenView, LexErrorView>, LexState) {
        let at = self.settled();
        if at.position() >= at.text().len() {
            (Ok(TokenView::Eof), at)
        } else {
            let (token, end) = scan_token(at.text(), at.position() as int);
            match token {
                TokenView::Include(name) => match at.header(name) {
                    None => (Err(LexErrorView::MissingInclude(name)), at),
                    Some(source) => (Ok(token), at.moved_to(end).entered(source)),
                },
                _ => (Ok(token), at.moved_to(end)),
            }
        }
    }
}

/// Moving the cursor within the text being read keeps a state sound, and
/// moving it back gives the state back.
pub proof fn lemma_moved(st: LexState, pos: int)
    requires
        st.wf(),
        0 <= pos <= st.text().len(),
    ensures
        st.moved_to(pos).wf(),
        st.moved_to(pos).moved_to(st.top().pos) == st,
{
    let to = st.moved_to(pos);
    assert forall|i: int| 0 <= i < to.stack.len() implies 0 <= (#[trigger] to.stack[i]).source
        < to.texts.len() && 0 <= to.stack[i].pos <= to.texts[to.stack[i].source].len() by {
        if i < st.stack.len() - 1 {
            assert(st.stack[i] == to.stack[i]);
        }
    }
    assert(to.moved_to(st.top().pos).stack =~= st.stack);
}

/// Leaving the innermost text keeps a state sound.
pub proof fn lemma_popped(st: LexState)
    requires
        st.wf(),
        st.stack.len() > 1,
    ensures
        st.popped().wf(),
{
    let to = st.popped();
    assert forall|i: int| 0 <= i < to.stack.len() implies 0 <= (#[trigger] to.stack[i]).source
        < to.texts.len() && 0 <= to.stack[i].pos <= to.texts[to.stack[i].source].len() by {
        assert(st.stack[i] == to.stack[i]);
    }
}

/// Entering a text that the state knows keeps it sound.
pub proof fn lemma_entered(st: LexState, source: int)
    requires
        st.wf(),
        0 <= source < st.texts.len(),
    ensures
        st.entered(source).wf(),
{
    let to = st.entered(source);
    assert forall|i: int| 0 <= i < to.stack.len() implies 0 <= (#[trigger] to.stack[i]).source
        < to.texts.len() && 0 <= to.stack[i].pos <= to.texts[to.stack[i].source].len() by {
        if i < st.stack.len() {
            assert(st.stack[i] == to.stack[i]);
        }
    }
}

/// Skipping blanks and leaving exhausted headers keeps a state sound;
/// afterwards the cursor stands on a character that is no blank, or at the
/// end of the root text, and settling again changes nothing.
pub proof fn lemma_settled(st: LexState)
    requires
        st.wf(),
    ensures
        st.settled().wf(),
        st.settled().names == st.names,
        st.settled().texts == st.texts,
        st.settled().position() <= st.settled().text().len(),
        st.settled().position() < st.settled().text().len() ==> !is_blank(
            st.settled().text()[st.settled().position() as int],
        ),
        st.settled().position() == st.settled().text().len() ==> st.settled().stack.len() == 1,
        st.settled().settled() == st.settled(),
    decreases st.stack.len(),
{
    let start = run_end(st.text(), st.top().pos, CharClass::Blank);
    lemma_run_end(st.text(), st.top().pos, CharClass::Blank);
    if start >= st.text().len() && st.stack.len() > 1 {
        lemma_popped(st);
        lemma_settled(st.popped());
    } else {
        lemma_moved(st, start);
        let to = st.moved_to(start);
        lemma_run_end(to.text(), start, CharClass::Blank);
        assert(run_end(to.text(), start, CharClass::Blank) == start);
        assert(to.moved_to(start).stack =~= to.stack);
    }
}

/// One element of the token stream: what a reading step handed out, and
/// where the cursor stood afterwards.
pub struct Lexeme {
    pub result: Result<TokenView, LexErrorView>,
    pub position: nat,
}

/// Whether a lexeme ends the stream: the end of the input, or a failure.
pub open spec fn is_last(lexeme: Lexeme) -> bool {
    lexeme.result is Err || lexeme.result == Ok::<TokenView, LexErrorView>(TokenView::Eof)
}

/// The lexeme that the next reading step gives.
pub open spec fn first_of(st: LexState) -> Lexeme {
    Lexeme { result: st.next().0, position: st.next().1.position() }
}

/// What a reading step does to a sound state. The state stays sound and
/// keeps its texts. `Eof` is handed out only at the end of the root text,
/// with every header left. From the end of the input on, and from a
/// failure on, every further step gives the same again.
pub proof fn lemma_next(st: LexState)
    requires
        st.wf(),
    ensures
        st.next().1.wf(),
        st.next().1.names == st.names,
        st.next().1.texts == st.texts,
        st.next().0 == Ok::<TokenView, LexErrorView>(TokenView::Eof) ==> {
            &&& st.next().1.stack.len() == 1
            &&& st.next().1.position() == st.texts[0].len()
        },
        is_last(first_of(st)) ==> st.next().1.next() == st.next(),
{
    lemma_settled(st);
    let at = st.settled();
    if at.position() < at.text().len() {
        lemma_scan_advances(at.text(), at.position() as int);
        let (token, end) = scan_token(at.text(), at.position() as int);
        lemma_moved(at, end);
        match token {
            TokenView::Include(name) => {
                lemma_find_name(at.names, name, 1);
                match at.header(name) {
                    None => {},
                    Some(source) => {
                        lemma_entered(at.moved_to(end), source);
                    },
                }
            },
            _ => {},
        }
    }
}

/// A lexer whose cursor stands on a numeric literal without an exponent
/// hands the literal out unchanged, as a number whose text is the literal,
/// and so of the same numeric value, and moves its cursor behind it.
pub proof fn lemma_plain_literal_token(st: LexState, end: int)
    requires
        st.wf(),
        st.top().pos < end <= st.text().len(),
        forall|i: int|
            st.top().pos <= i < end ==> is_digit(#[trigger] st.text()[i]) || st.text()[i] == '.',
        exists|i: int| st.top().pos <= i < end && is_digit(#[trigger] st.text()[i]),
        end < st.text().len() ==> !CharClass::NumberPart.holds(st.text()[end]),
    ensures
        st.next() == (
            Ok::<TokenView, LexErrorView>(
                TokenView::Number(st.text().subrange(st.top().pos, end)),
            ),
            st.moved_to(end),
        ),
{
    lemma_plain_literal(st.text(), st.top().pos, end);
    assert(st.moved_to(st.top().pos).stack =~= st.stack);
    assert(st.settled() == st);
}

/// Reading from `st` on reaches the end of the input or a failure with at
/// most `steps` tokens before it.
pub open spec fn ends_within(st: LexState, steps: nat) -> bool
    decreases steps,
{
    is_last(first_of(st)) || (steps > 0 && ends_within(st.next().1, (steps - 1) as nat))
}

/// Reading from `st` on comes to an end: after some number of tokens the end
/// of the input is reached, or a failure. This is what fails where a header
/// includes itself, directly or through others, at a place that is reached.
pub open spec fn ends(st: LexState) -> bool {
    exists|steps: nat| ends_within(st, steps)
}

/// What reading step after step hands out from a state on, up to and
/// including the end of the input or the first failure, and `steps` tokens
/// at most before that.
pub open spec fn stream_within(st: LexState, steps: nat) -> Seq<Lexeme>
    decreases steps,
{
    if is_last(first_of(st)) || steps == 0 {
        seq![first_of(st)]
    } else {
        seq![first_of(st)] + stream_within(st.next().1, (steps - 1) as nat)
    }
}

/// Everything that reading step after step hands out from a state on, up to
/// and including the end of the input or the first failure. It says what
/// is read only of a state from which reading comes to an end.
pub open spec fn stream(st: LexState) -> Seq<Lexeme> {
    stream_within(st, choose|steps: nat| ends_within(st, steps))
}

/// A stream is sound: it is not empty, its last element ends it, and no
/// other element does.
pub open spec fn stream_wf(s: Seq<Lexeme>) -> bool {
    &&& s.len() >= 1
    &&& is_last(s.last())
    &&& forall|i: int| 0 <= i < s.len() - 1 ==> !is_last(#[trigger] s[i])
}

/// Where reading ends within a number of steps, what is read within that
/// number is a sound stream, and any other number within which reading ends
/// gives the same.
pub proof fn lemma_stream_within(st: LexState, steps: nat, other: nat)
    requires
        ends_within(st, steps),
        ends_within(st, other),
    ensures
        stream_wf(stream_within(st, steps)),
        stream_within(st, steps)[0] == first_of(st),
        stream_within(st, steps) == stream_within(st, other),
    decreases steps,
{
    if !is_last(first_of(st)) {
        let rest = stream_within(st.next().1, (steps - 1) as nat);
        lemma_stream_within(st.next().1, (steps - 1) as nat, (other - 1) as nat);
        let whole = seq![first_of(st)] + rest;
        assert forall|i: int| 0 <= i < whole.len() - 1 implies !is_last(#[trigger] whole[i]) by {
            if i > 0 {
                assert(whole[i] == rest[i - 1]);
            }
        }
        assert(whole.last() == rest.last());
    }
}

/// The stream of a sound state from which reading comes to an end is sound.
/// It starts with what the next reading step hands out, and goes on with
/// the stream of the state after that step, from which reading comes to an
/// end too; from the end of the input on the stream stays the same.
pub proof fn lemma_stream(st: LexState)
    requires
        st.wf(),
        ends(st),
    ensures
        stream_wf(stream(st)),
        stream(st)[0] == first_of(st),
        ends(st.next().1),
        !is_last(stream(st)[0]) ==> stream(st.next().1) == stream(st).skip(1),
        is_last(stream(st)[0]) ==> stream(st).len() == 1 && stream(st.next().1) == stream(st),
{
    lemma_next(st);
    let steps = choose|steps: nat| ends_within(st, steps);
    let after = st.next().1;
    lemma_stream_within(st, steps, steps);
    if is_last(first_of(st)) {
        assert(first_of(after) == first_of(st));
        assert(ends_within(after, 0));
        let other = choose|steps: nat| ends_within(after, steps);
        lemma_stream_within(after, other, 0);
    } else {
        assert(ends_within(after, (steps - 1) as nat));
        let other = choose|steps: nat| ends_within(after, steps);
        lemma_stream_within(after, other, (steps - 1) as nat);
        let rest = stream_within(after, (steps - 1) as nat);
        assert((seq![first_of(st)] + rest).skip(1) =~= rest);
    }
}

/// `text` starts, blanks apart, with an include directive for the header
/// called `name`.
pub open spec fn starts_with_include(text: Seq<char>, name: Seq<char>) -> bool {
    let start = run_end(text, 0, CharClass::Blank);
    start < text.len() && scan_token(text, start).0 == TokenView::Include(name)
}

/// A state that is about to read, from its start, a header that starts with
/// an include directive for itself never gets out of it: whatever the number
/// of steps, reading does not end within them.
pub proof fn lemma_inside_self_include(st: LexState, name: Seq<char>, steps: nat)
    requires
        st.wf(),
        st.header(name) == Some(st.top().source),
        st.top().pos == 0,
        starts_with_include(st.text(), name),
    ensures
        !ends_within(st, steps),
    decreases steps,
{
    let start = run_end(st.text(), 0, CharClass::Blank);
    lemma_run_end(st.text(), 0, CharClass::Blank);
    lemma_moved(st, start);
    let at = st.moved_to(start);
    assert(st.settled() == at);
    lemma_scan_advances(at.text(), start);
    let end = scan_token(at.text(), start).1;
    lemma_moved(at, end);
    lemma_entered(at.moved_to(end), st.top().source);
    if steps > 0 {
        lemma_inside_self_include(st.next().1, name, (steps - 1) as nat);
    }
}

/// A header that includes itself makes reading endless: once a lexer reads
/// an include directive for a header that starts with an include directive
/// for itself, it hands out that directive again at every step, one header
/// deeper each time, and never the end of the input.
pub proof fn lemma_self_include_never_ends(st: LexState, name: Seq<char>)
    requires
        st.wf(),
        st.next().0 == Ok::<TokenView, LexErrorView>(TokenView::Include(name)),
        st.header(name) matches Some(source) && starts_with_include(st.texts[source], name),
    ensures
        !ends(st),
{
    lemma_next(st);
    lemma_settled(st);
    lemma_find_name(st.names, name, 1);
    assert forall|steps: nat| !ends_within(st, steps) by {
        if steps > 0 {
            lemma_inside_self_include(st.next().1, name, (steps - 1) as nat);
        }
    }
}

/// What is left to read in the frames below `depth`: for each frame, the
/// characters before its cursor reaches the end of its text, and one more.
pub open spec fn left_below(st: LexState, depth: int) -> nat
    decreases depth,
{
    if depth <= 0 {
        0
    } else {
        let frame = st.stack[depth - 1];
        left_below(st, depth - 1) + (st.texts[frame.source].len() - frame.pos + 1) as nat
    }
}

/// States that know the same texts and agree on the frames below `depth`
/// have the same left to read below `depth`.
pub proof fn lemma_left_below_same(a: LexState, b: LexState, depth: int)
    requires
        a.texts == b.texts,
        0 <= depth <= a.stack.len(),
        depth <= b.stack.len(),
        forall|i: int| 0 <= i < depth ==> a.stack[i] == b.stack[i],
    ensures
        left_below(a, depth) == left_below(b, depth),
    decreases depth,
{
    if depth > 0 {
        lemma_left_below_same(a, b, depth - 1);
    }
}

/// Skipping blanks and leaving exhausted headers leaves no more to read.
pub proof fn lemma_settled_left(st: LexState)
    requires
        st.wf(),
    ensures
        left_below(st.settled(), st.settled().stack.len() as int) <= left_below(
            st,
            st.stack.len() as int,
        ),
    decreases st.stack.len(),
{
    let start = run_end(st.text(), st.top().pos, CharClass::Blank);
    lemma_run_end(st.text(), st.top().pos, CharClass::Blank);
    if start >= st.text().len() && st.stack.len() > 1 {
        lemma_popped(st);
        lemma_settled_left(st.popped());
        lemma_left_below_same(st, st.popped(), st.stack.len() - 1);
    } else {
        lemma_left_below_same(st, st.moved_to(start), st.stack.len() - 1);
    }
}

/// Reading that ends within a number of steps ends within any greater number.
pub proof fn lemma_ends_longer(st: LexState, steps: nat, more: nat)
    requires
        ends_within(st, steps),
        steps <= more,
    ensures
        ends_within(st, more),
    decreases steps,
{
    if !is_last(first_of(st)) {
        lemma_ends_longer(st.next().1, (steps - 1) as nat, (more - 1) as nat);
    }
}

/// A state that knows no header ends within as many tokens as it has
/// characters left to read.
pub proof fn lemma_ends_within_left(st: LexState)
    requires
        st.wf(),
        st.texts.len() == 1,
    ensures
        ends_within(st, left_below(st, st.stack.len() as int)),
    decreases left_below(st, st.stack.len() as int),
{
    lemma_settled(st);
    lemma_settled_left(st);
    let at = st.settled();
    if at.position() < at.text().len() {
        lemma_scan_advances(at.text(), at.position() as int);
        let (token, end) = scan_token(at.text(), at.position() as int);
        if token is Include {
            lemma_find_name(at.names, token->Include_0, 1);
        } else {
            let after = at.moved_to(end);
            let depth = at.stack.len() as int;
            lemma_moved(at, end);
            lemma_left_below_same(at, after, depth - 1);
            assert(left_below(after, depth) < left_below(at, depth));
            lemma_ends_within_left(after);
            lemma_ends_longer(
                after,
                left_below(after, depth),
                (left_below(st, st.stack.len() as int) - 1) as nat,
            );
        }
    }
}

/// Reading without headers comes to an end: a lexer that was given no
/// header fails at the first include directive, if there is one, and
/// reaches the end of its text otherwise.
pub proof fn lemma_ends_without_headers(st: LexState)
    requires
        st.wf(),
        st.texts.len() == 1,
    ensures
        ends(st),
{
    lemma_ends_within_left(st);
}

/// A frame of the stack as the machine holds it.
#[derive(Clone, Copy)]
struct Frame {
    source: usize,
    pos: usize,
}

/// A text that the lexer knows, with the name it was given under.
struct Source {
    name: String,
    text: Vec<char>,
}

/// The characters of `s`, one by one.
pub fn to_chars(s: &str) -> (r: Vec<char>)
    ensures
        r@ == s@,
{
    let mut out: Vec<char> = Vec::new();
    let chars = s.chars();
    for c in iter: chars
        invariant
            iter.seq() == s@,
            out@ == s@.take(iter.index() as int),
    {
        out.push(c);
        proof {
            let k = iter.index() as int;
            assert(s@.take(k).push(c) =~= s@.take(k + 1));
        }
    }
    proof {
        assert(s@.take(s@.len() as int) =~= s@);
    }
    out
}

/// The tokenizer of one compilation: the root text, the headers it was
/// given, and how far it has read in each text it is reading.
pub struct Lexer {
    sources: Vec<Source>,
    stack: Vec<Frame>,
    working_dir: String,
}

impl View for Lexer {
    type V = LexState;

    closed spec fn view(&self) -> LexState {
        LexState {
            names: Seq::new(self.sources@.len(), |i: int| self.sources@[i].name@),
            texts: Seq::new(self.sources@.len(), |i: int| self.sources@[i].text@),
            stack: Seq::new(
                self.stack@.len(),
                |i: int|
                    Cursor { source: self.stack@[i].source as int, pos: self.stack@[i].pos as int },
            ),
        }
    }
}

impl Lexer {
    /// The directory that the names of headers are relative to.
    pub closed spec fn directory(&self) -> Seq<char> {
        self.working_dir@
    }

    /// A lexer at the start of `input`, with no header yet. `working_dir` is
    /// kept for whoever fetches the headers; the lexer itself reads no file.
    pub fn new(input: &str, working_dir: &str) -> (r: Lexer)
        ensures
            r@ == LexState::start(input@),
            r@.wf(),
            ends(r@),
            r.directory() == working_dir@,
    {
        let mut sources: Vec<Source> = Vec::new();
        sources.push(Source { name: String::new(), text: to_chars(input) });
        let mut stack: Vec<Frame> = Vec::new();
        stack.push(Frame { source: 0, pos: 0 });
        let lexer = Lexer { sources, stack, working_dir: working_dir.to_owned() };
        proof {
            assert(lexer@.names =~= LexState::start(input@).names);
            assert(lexer@.texts =~= LexState::start(input@).texts);
            assert(lexer@.stack =~= LexState::start(input@).stack);
            lemma_ends_without_headers(lexer@);
        }
        lexer
    }

    /// The directory that the names of headers are relative to.
    pub fn working_dir(&self) -> (r: &str)
        ensures
            r@ == self.directory(),
    {
        self.working_dir.as_str()
    }

    /// The cursor in the text being read.
    pub fn position(&self) -> (r: usize)
        requires
            self@.wf(),
        ensures
            r == self@.position(),
    {
        self.stack[self.stack.len() - 1].pos
    }

    /// The index of the header called `name`.
    fn find_header(&self, name: &String) -> (r: Option<usize>)
        requires
            self@.wf(),
        ensures
            match r {
                Some(source) => self@.header(name@) == Some(source as int),
                None => self@.header(name@) is None,
            },
    {
        let mut at: usize = 1;
        while at < self.sources.len()
            invariant
                1 <= at <= self.sources@.len(),
                self@.names.len() == self.sources@.len(),
                find_name(self@.names, name@, 1) == find_name(self@.names, name@, at as int),
            decreases self.sources@.len() - at,
        {
            if self.sources[at].name == *name {
                return Some(at);
            }
            at = at + 1;
        }
        None
    }

    /// Gives the lexer the text of the header called `name`, for the include
    /// directives that ask for it. Returns `false`, and changes nothing,
    /// where a header of that name was given before.
    pub fn add_header(&mut self, name: &str, content: &str) -> (r: bool)
        requires
            old(self)@.wf(),
        ensures
            final(self)@.wf(),
            final(self).directory() == old(self).directory(),
            r == (old(self)@.header(name@) is None),
            final(self)@ == if r {
                old(self)@.with_header(name@, content@)
            } else {
                old(self)@
            },
    {
        let name = name.to_owned();
        if self.find_header(&name).is_some() {
            return false;
        }
        let ghost before = self@;
        self.sources.push(Source { name, text: to_chars(content) });
        proof {
            let to = before.with_header(name@, content@);
            assert(self@.names =~= to.names);
            assert(self@.texts =~= to.texts);
            assert(self@.stack =~= to.stack);
            assert forall|i: int| 0 <= i < to.stack.len() implies 0 <= (
            #[trigger] to.stack[i]).source < to.texts.len() && 0 <= to.stack[i].pos
                <= to.texts[to.stack[i].source].len() by {
                assert(before.stack[i] == to.stack[i]);
            }
        }
        true
    }

    /// Starts reading the header called `name` from its start, whether or
    /// not it is being read already. Fails with `MissingInclude`, changing
    /// nothing, where no header of that name was given.
    pub fn load_header(&mut self, name: &str) -> (r: Result<(), LexError>)
        requires
            old(self)@.wf(),
        ensures
            final(self)@.wf(),
            final(self).directory() == old(self).directory(),
            match old(self)@.header(name@) {
                Some(source) => r is Ok && final(self)@ == old(self)@.entered(source),
                None => {
                    &&& r matches Err(e)
                    &&& e@ == LexErrorView::MissingInclude(name@)
                    &&& final(self)@ == old(self)@
                },
            },
    {
        let name = name.to_owned();
        match self.find_header(&name) {
            None => Err(LexError::MissingInclude(name)),
            Some(source) => {
                let ghost before = self@;
                self.stack.push(Frame { source, pos: 0 });
                proof {
                    assert(self@.stack =~= before.entered(source as int).stack);
                    lemma_find_name(before.names, name@, 1);
                    lemma_entered(before, source as int);
                }
                Ok(())
            },
        }
    }

    /// Puts the cursor of the text being read at `pos`.
    fn move_to(&mut self, pos: usize)
        requires
            old(self)@.wf(),
        ensures
            final(self)@ == old(self)@.moved_to(pos as int),
            final(self).directory() == old(self).directory(),
    {
        let top = self.stack.len() - 1;
        let source = self.stack[top].source;
        let ghost before = self@;
        self.stack.set(top, Frame { source, pos });
        proof {
            assert(self@.stack =~= before.moved_to(pos as int).stack);
        }
    }

    /// Skips blanks, and leaves every header that holds nothing but blanks
    /// from the cursor on.
    pub fn skip_whitespace(&mut self)
        requires
            old(self)@.wf(),
        ensures
            final(self)@ == old(self)@.settled(),
            final(self)@.wf(),
            final(self).directory() == old(self).directory(),
    {
        let mut done = false;
        while !done
            invariant
                self@.wf(),
                self.directory() == old(self).directory(),
                !done ==> self@.settled() == old(self)@.settled(),
                done ==> self@ == old(self)@.settled(),
            decreases
                    self.stack@.len(),
                    if done {
                        0int
                    } else {
                        1int
                    },
        {
            let depth = self.stack.len();
            let frame = self.stack[depth - 1];
            let ghost before = self@;
            proof {
                assert(before.top().source == frame.source && before.top().pos == frame.pos);
                assert(before.text() == self.sources@[frame.source as int].text@);
                lemma_settled(before);
            }
            let start = scan_run(
                self.sources[frame.source].text.as_slice(),
                frame.pos,
                CharClass::Blank,
            );
            if start >= self.sources[frame.source].text.len() && depth > 1 {
                self.stack.pop();
                proof {
                    assert(self@.stack =~= before.popped().stack);
                    lemma_popped(before);
                }
            } else {
                self.move_to(start);
                proof {
                    lemma_run_end(before.text(), before.top().pos, CharClass::Blank);
                    lemma_moved(before, start as int);
                }
                done = true;
            }
        }
    }

    /// Reads the next token. At the end of the root text that is `Eof`, now
    /// and at every later call; the end of a header is passed over in
    /// silence. An include directive enters the header it names, be it for
    /// the first time or once more, and is handed out as a token; where the
    /// header was not given, the call fails and the directive stays unread.
    pub fn next_token(&mut self) -> (r: Result<Token, LexError>)
        requires
            old(self)@.wf(),
        ensures
            final(self)@.wf(),
            final(self).directory() == old(self).directory(),
            (outcome(r), final(self)@) == old(self)@.next(),
    {
        self.skip_whitespace();
        let ghost at = self@;
        proof {
            lemma_next(old(self)@);
        }
        let depth = self.stack.len();
        let frame = self.stack[depth - 1];
        proof {
            assert(at.top().source == frame.source && at.top().pos == frame.pos);
            assert(at.text() == self.sources@[frame.source as int].text@);
        }
        if frame.pos >= self.sources[frame.source].text.len() {
            return Ok(Token::Eof);
        }
        let (token, end) = tokenize(self.sources[frame.source].text.as_slice(), frame.pos);
        self.move_to(end);
        match token {
            Token::Include(name) => {
                proof {
                    lemma_settled(old(self)@);
                    lemma_scan_advances(at.text(), at.position() as int);
                    lemma_moved(at, end as int);
                }
                match self.load_header(name.as_str()) {
                    Ok(_) => Ok(Token::Include(name)),
                    Err(e) => {
                        self.move_to(frame.pos);
                        Err(e)
                    },
                }
            },
            other => Ok(other),
        }
    }
    /// Tells whether reading from here on reaches the end of the input or a
    /// failure with at most `steps` tokens before it, by reading ahead. The
    /// lexer is left as it was.
    pub fn ends_within(&mut self, steps: usize) -> (r: bool)
        requires
            old(self)@.wf(),
        ensures
            r == ends_within(old(self)@, steps as nat),
            final(self)@ == old(self)@,
            final(self).directory() == old(self).directory(),
    {
        let mut saved: Vec<Frame> = Vec::new();
        let mut at: usize = 0;
        while at < self.stack.len()
            invariant
                at <= self.stack@.len(),
                saved@ == self.stack@.take(at as int),
            decreases self.stack@.len() - at,
        {
            saved.push(self.stack[at]);
            proof {
                assert(self.stack@.take(at as int).push(self.stack@[at as int])
                    =~= self.stack@.take(at + 1));
            }
            at = at + 1;
        }
        proof {
            assert(self.stack@.take(self.stack@.len() as int) =~= self.stack@);
        }
        let mut left = steps;
        let mut result = false;
        let mut done = false;
        while !done
            invariant
                self@.wf(),
                self@.names == old(self)@.names,
                self@.texts == old(self)@.texts,
                self.directory() == old(self).directory(),
                saved@ == old(self).stack@,
                !done ==> ends_within(old(self)@, steps as nat) == ends_within(self@, left as nat),
                done ==> result == ends_within(old(self)@, steps as nat),
            decreases
                    left,
                    if done {
                        0int
                    } else {
                        1int
                    },
        {
            proof {
                lemma_next(self@);
            }
            match self.next_token() {
                Ok(token) => {
                    if token == Token::Eof {
                        result = true;
                        done = true;
                    } else if left == 0 {
                        result = false;
                        done = true;
                    } else {
                        left = left - 1;
                    }
                },
                Err(_) => {
                    result = true;
                    done = true;
                },
            }
        }
        self.stack = saved;
        proof {
            assert(self@.stack =~= old(self)@.stack);
            assert(self@.names =~= old(self)@.names);
            assert(self@.texts =~= old(self)@.texts);
        }
        result
    }
}

} // verus!
